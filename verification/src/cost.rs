//! The cost calculator: pure functions computing memory-growth cost,
//! instruction gas cost, gas stipend and gas refund, all over the current,
//! unmutated state.
use vstd::prelude::*;
use crate::word::{pow256, Word};
use crate::stack::Stack;
use crate::pc::{inst_wf, Instruction};
use crate::patch::CostSchedule;
use crate::machine::State;
use crate::commit::{exists_of, storage_of};
use crate::check::{stack_req};

verus! {

/// The value `n` positions below the top of the state's stack.
pub open spec fn peek_val(st: State, n: int) -> nat {
    st.stack.peek_spec(n).value()
}

/// The 160-bit account address held in the word `n` positions below the
/// top of the state's stack.
pub open spec fn peek_addr(st: State, n: int) -> nat {
    peek_val(st, n) % pow256(20)
}

/// The new memory cost in words after touching `len` bytes at `off`:
/// unchanged for an empty range, otherwise the highest word touched so
/// far. A range that cannot even be addressed saturates the cost, which
/// no gas limit can cover.
pub open spec fn mem_words(cur: nat, off: nat, len: nat) -> nat {
    if len == 0 {
        cur
    } else if off < 0x10000000000000000 && len < 0x10000000000000000 && off + len <= usize::MAX {
        let w = (off + len + 31) / 32;
        if w > cur {
            w
        } else {
            cur
        }
    } else {
        u128::MAX as nat
    }
}

/// The memory gas a cost of `c` words implies: the linear-plus-quadratic
/// formula `3*c + c*c/512`, saturated for costs beyond any limit.
pub open spec fn spec_memory_gas(c: nat) -> nat {
    if c >= 0x10000000000000000 {
        u128::MAX as nat
    } else {
        3 * c + (c * c) / 512
    }
}

/// The new memory cost an instruction implies, before it runs.
pub open spec fn spec_memory_cost(inst: Instruction, st: State) -> nat {
    let cur = st.memory_cost as nat;
    match inst {
        Instruction::MLoad => mem_words(cur, peek_val(st, 0), 32),
        Instruction::MStore => mem_words(cur, peek_val(st, 0), 32),
        Instruction::MStore8 => mem_words(cur, peek_val(st, 0), 1),
        Instruction::Return => mem_words(cur, peek_val(st, 0), peek_val(st, 1)),
        Instruction::Log(_) => mem_words(cur, peek_val(st, 0), peek_val(st, 1)),
        Instruction::Create => mem_words(cur, peek_val(st, 1), peek_val(st, 2)),
        Instruction::Call => mem_words(
            mem_words(cur, peek_val(st, 3), peek_val(st, 4)),
            peek_val(st, 5),
            peek_val(st, 6),
        ),
        _ => cur,
    }
}

/// The logged byte count that enters the log cost formula, capped where
/// the memory cost already saturates.
pub open spec fn log_data_len(st: State) -> nat {
    if peek_val(st, 1) < 0x10000000000000000 {
        peek_val(st, 1)
    } else {
        0x10000000000000000
    }
}

/// The base gas cost of an instruction under a schedule, before it runs.
/// Storage writes depend on the slot's current value; value-transferring
/// calls on whether the callee exists.
pub open spec fn spec_gas_cost(inst: Instruction, st: State, sch: CostSchedule) -> nat {
    match inst {
        Instruction::Stop => 0,
        Instruction::Return => 0,
        Instruction::JumpDest => sch.g_jumpdest as nat,
        Instruction::Pop => sch.g_base as nat,
        Instruction::Pc => sch.g_base as nat,
        Instruction::MSize => sch.g_base as nat,
        Instruction::Gas => sch.g_base as nat,
        Instruction::Address => sch.g_base as nat,
        Instruction::Origin => sch.g_base as nat,
        Instruction::Caller => sch.g_base as nat,
        Instruction::CallValue => sch.g_base as nat,
        Instruction::CallDataSize => sch.g_base as nat,
        Instruction::Coinbase => sch.g_base as nat,
        Instruction::Timestamp => sch.g_base as nat,
        Instruction::Number => sch.g_base as nat,
        Instruction::Difficulty => sch.g_base as nat,
        Instruction::GasLimit => sch.g_base as nat,
        Instruction::Mul => sch.g_low as nat,
        Instruction::Div => sch.g_low as nat,
        Instruction::Mod => sch.g_low as nat,
        Instruction::Jump => sch.g_mid as nat,
        Instruction::JumpI => sch.g_high as nat,
        Instruction::Balance => sch.g_balance as nat,
        Instruction::Blockhash => sch.g_blockhash as nat,
        Instruction::SLoad => sch.g_sload as nat,
        Instruction::SStore => {
            match storage_of(
                st.account_state.model(),
                st.context.address.value(),
                peek_val(st, 0),
            ) {
                Some(cur) => if cur == 0 && peek_val(st, 1) != 0 {
                    sch.g_sstore_set as nat
                } else {
                    sch.g_sstore_reset as nat
                },
                None => 0nat,
            }
        },
        Instruction::Log(n) => sch.g_log as nat + (n as nat) * (sch.g_logtopic as nat) + (
        sch.g_logdata as nat) * log_data_len(st),
        Instruction::Create => sch.g_create as nat,
        Instruction::Call => {
            let base = sch.g_call as nat;
            if peek_val(st, 2) != 0 {
                base + sch.g_callvalue as nat + (if exists_of(
                    st.account_state.model(),
                    peek_addr(st, 1),
                ) == Some(false) {
                    sch.g_newaccount as nat
                } else {
                    0nat
                })
            } else {
                base
            }
        },
        _ => sch.g_verylow as nat,
    }
}

/// The fixed allowance forwarded to the callee of a value-transferring
/// call, and nothing else.
pub open spec fn spec_gas_stipend(inst: Instruction, st: State, sch: CostSchedule) -> nat {
    match inst {
        Instruction::Call => if peek_val(st, 2) != 0 {
            sch.g_callstipend as nat
        } else {
            0nat
        },
        _ => 0nat,
    }
}

/// The refund granted for clearing a storage slot, and nothing else.
pub open spec fn spec_gas_refund(inst: Instruction, st: State, sch: CostSchedule) -> nat {
    match inst {
        Instruction::SStore => {
            match storage_of(
                st.account_state.model(),
                st.context.address.value(),
                peek_val(st, 0),
            ) {
                Some(cur) => if cur != 0 && peek_val(st, 1) == 0 {
                    sch.r_sclear as nat
                } else {
                    0nat
                },
                None => 0nat,
            }
        },
        _ => 0,
    }
}

/// Read the word `n` positions below the top of a stack known to be deep
/// enough.
pub fn peek_word(stack: &Stack, n: usize) -> (r: Word)
    requires
        n < stack@.len(),
    ensures
        r == stack.peek_spec(n as int),
{
    match stack.peek(n) {
        Ok(w) => w,
        Err(_) => vstd::pervasive::unreached(),
    }
}

/// The new memory cost after touching `len` bytes at `off`.
fn expand_cost(cur: u128, off: &Word, len: &Word) -> (r: u128)
    ensures
        r == mem_words(cur as nat, off.value(), len.value()),
{
    if len.is_zero() {
        return cur;
    }
    proof {
        assert(pow256(8) == 0x10000000000000000) by {
            reveal_with_fuel(pow256, 9);
        }
    }
    let off64 = off.as_u64_checked();
    let len64 = len.as_u64_checked();
    match (off64, len64) {
        (Some(o), Some(l)) => {
            let end: u128 = o as u128 + l as u128;
            if end > usize::MAX as u128 {
                u128::MAX
            } else {
                let w: u128 = (end + 31) / 32;
                if w > cur {
                    w
                } else {
                    cur
                }
            }
        },
        _ => u128::MAX,
    }
}

/// The new memory cost an instruction implies, before it runs.
pub fn memory_cost(inst: &Instruction, st: &State) -> (r: u128)
    requires
        stack_req(*inst) <= st.stack@.len(),
    ensures
        r == spec_memory_cost(*inst, *st),
{
    let cur: u128 = st.memory_cost as u128;
    match *inst {
        Instruction::MLoad => {
            let off = peek_word(&st.stack, 0);
            let len = Word::from_u64(32);
            expand_cost(cur, &off, &len)
        },
        Instruction::MStore => {
            let off = peek_word(&st.stack, 0);
            let len = Word::from_u64(32);
            expand_cost(cur, &off, &len)
        },
        Instruction::MStore8 => {
            let off = peek_word(&st.stack, 0);
            let len = Word::from_u64(1);
            expand_cost(cur, &off, &len)
        },
        Instruction::Return => {
            let off = peek_word(&st.stack, 0);
            let len = peek_word(&st.stack, 1);
            expand_cost(cur, &off, &len)
        },
        Instruction::Log(_) => {
            let off = peek_word(&st.stack, 0);
            let len = peek_word(&st.stack, 1);
            expand_cost(cur, &off, &len)
        },
        Instruction::Create => {
            let off = peek_word(&st.stack, 1);
            let len = peek_word(&st.stack, 2);
            expand_cost(cur, &off, &len)
        },
        Instruction::Call => {
            let in_off = peek_word(&st.stack, 3);
            let in_len = peek_word(&st.stack, 4);
            let out_off = peek_word(&st.stack, 5);
            let out_len = peek_word(&st.stack, 6);
            let first = expand_cost(cur, &in_off, &in_len);
            expand_cost(first, &out_off, &out_len)
        },
        _ => cur,
    }
}

/// The memory gas a cost in words implies.
pub fn memory_gas_of(cost: u128) -> (r: u128)
    ensures
        r == spec_memory_gas(cost as nat),
{
    if cost >= 0x10000000000000000u128 {
        u128::MAX
    } else {
        proof {
            assert(cost * cost <= (0x10000000000000000u128 - 1) * (0x10000000000000000u128 - 1))
                by (nonlinear_arith)
                requires
                    cost <= 0x10000000000000000u128 - 1,
            ;
        }
        3 * cost + (cost * cost) / 512
    }
}

/// The base gas cost of an instruction under a schedule, before it runs.
pub fn gas_cost(inst: &Instruction, st: &State, sch: &CostSchedule) -> (r: u128)
    requires
        st.wf(),
        inst_wf(*inst),
        sch.wf(),
        stack_req(*inst) <= st.stack@.len(),
        *inst matches Instruction::SStore ==> storage_of(
            st.account_state.model(),
            st.context.address.value(),
            peek_val(*st, 0),
        ) is Some,
        *inst matches Instruction::Call && peek_val(*st, 2) != 0 ==> exists_of(
            st.account_state.model(),
            peek_addr(*st, 1),
        ) is Some,
    ensures
        r == spec_gas_cost(*inst, *st, *sch),
{
    match *inst {
        Instruction::Stop => 0,
        Instruction::Return => 0,
        Instruction::JumpDest => sch.g_jumpdest as u128,
        Instruction::Pop => sch.g_base as u128,
        Instruction::Pc => sch.g_base as u128,
        Instruction::MSize => sch.g_base as u128,
        Instruction::Gas => sch.g_base as u128,
        Instruction::Address => sch.g_base as u128,
        Instruction::Origin => sch.g_base as u128,
        Instruction::Caller => sch.g_base as u128,
        Instruction::CallValue => sch.g_base as u128,
        Instruction::CallDataSize => sch.g_base as u128,
        Instruction::Coinbase => sch.g_base as u128,
        Instruction::Timestamp => sch.g_base as u128,
        Instruction::Number => sch.g_base as u128,
        Instruction::Difficulty => sch.g_base as u128,
        Instruction::GasLimit => sch.g_base as u128,
        Instruction::Mul => sch.g_low as u128,
        Instruction::Div => sch.g_low as u128,
        Instruction::Mod => sch.g_low as u128,
        Instruction::Jump => sch.g_mid as u128,
        Instruction::JumpI => sch.g_high as u128,
        Instruction::Balance => sch.g_balance as u128,
        Instruction::Blockhash => sch.g_blockhash as u128,
        Instruction::SLoad => sch.g_sload as u128,
        Instruction::SStore => {
            let index = peek_word(&st.stack, 0);
            let newval = peek_word(&st.stack, 1);
            let cur = match st.account_state.storage_read(&st.context.address, &index) {
                Ok(w) => w,
                Err(_) => vstd::pervasive::unreached(),
            };
            if cur.is_zero() && !newval.is_zero() {
                sch.g_sstore_set as u128
            } else {
                sch.g_sstore_reset as u128
            }
        },
        Instruction::Log(n) => {
            proof {
                assert(pow256(8) == 0x10000000000000000) by {
                    reveal_with_fuel(pow256, 9);
                }
            }
            let len = peek_word(&st.stack, 1);
            let capped: u128 = match len.as_u64_checked() {
                Some(l) => l as u128,
                None => 0x10000000000000000u128,
            };
            proof {
                assert(n <= 4);
                assert((sch.g_logdata as u128) * capped <= 0x100000000u128
                    * 0x10000000000000000u128) by (nonlinear_arith)
                    requires
                        sch.g_logdata <= 0x100000000,
                        capped <= 0x10000000000000000u128,
                ;
                assert((n as u128) * (sch.g_logtopic as u128) <= 4u128 * 0x100000000u128)
                    by (nonlinear_arith)
                    requires
                        n <= 4,
                        sch.g_logtopic <= 0x100000000,
                ;
            }
            sch.g_log as u128 + (n as u128) * (sch.g_logtopic as u128) + (sch.g_logdata as u128)
                * capped
        },
        Instruction::Create => sch.g_create as u128,
        Instruction::Call => {
            let value = peek_word(&st.stack, 2);
            if !value.is_zero() {
                let target = peek_word(&st.stack, 1).to_address();
                let callee_exists = match st.account_state.existence(&target) {
                    Ok(b) => b,
                    Err(_) => vstd::pervasive::unreached(),
                };
                if !callee_exists {
                    sch.g_call as u128 + sch.g_callvalue as u128 + sch.g_newaccount as u128
                } else {
                    sch.g_call as u128 + sch.g_callvalue as u128
                }
            } else {
                sch.g_call as u128
            }
        },
        _ => sch.g_verylow as u128,
    }
}

/// The fixed allowance forwarded to the callee of a value-transferring
/// call, and nothing else.
pub fn gas_stipend(inst: &Instruction, st: &State, sch: &CostSchedule) -> (r: u64)
    requires
        stack_req(*inst) <= st.stack@.len(),
    ensures
        r == spec_gas_stipend(*inst, *st, *sch),
{
    match *inst {
        Instruction::Call => {
            let value = peek_word(&st.stack, 2);
            if !value.is_zero() {
                sch.g_callstipend
            } else {
                0
            }
        },
        _ => 0,
    }
}

/// The refund granted for clearing a storage slot, and nothing else.
pub fn gas_refund(inst: &Instruction, st: &State, sch: &CostSchedule) -> (r: u64)
    requires
        st.wf(),
        stack_req(*inst) <= st.stack@.len(),
        *inst matches Instruction::SStore ==> storage_of(
            st.account_state.model(),
            st.context.address.value(),
            peek_val(*st, 0),
        ) is Some,
    ensures
        r == spec_gas_refund(*inst, *st, *sch),
{
    match *inst {
        Instruction::SStore => {
            let index = peek_word(&st.stack, 0);
            let newval = peek_word(&st.stack, 1);
            let cur = match st.account_state.storage_read(&st.context.address, &index) {
                Ok(w) => w,
                Err(_) => vstd::pervasive::unreached(),
            };
            if !cur.is_zero() && newval.is_zero() {
                sch.r_sclear
            } else {
                0
            }
        },
        _ => 0,
    }
}

/// Under a well-formed schedule no instruction's base cost exceeds a
/// fixed bound, so gas arithmetic cannot overflow.
pub proof fn lemma_gas_cost_bound(inst: Instruction, st: State, sch: CostSchedule)
    requires
        sch.wf(),
    ensures
        spec_gas_cost(inst, st, sch) <= 0x20000000000000000000000000,
{
    match inst {
        Instruction::Log(n) => {
            if inst_wf(inst) {
            }
            assert((n as nat) * (sch.g_logtopic as nat) <= (n as nat) * 0x100000000)
                by (nonlinear_arith)
                requires
                    sch.g_logtopic <= 0x100000000,
            ;
            assert((sch.g_logdata as nat) * log_data_len(st) <= 0x100000000nat
                * 0x10000000000000000nat) by (nonlinear_arith)
                requires
                    sch.g_logdata <= 0x100000000,
                    log_data_len(st) <= 0x10000000000000000,
            ;
            assert((n as nat) * 0x100000000 <= 0x10000000000000000000000000) by (nonlinear_arith)
                requires
                    n <= usize::MAX,
            ;
        },
        _ => {},
    }
}

} // verus!
