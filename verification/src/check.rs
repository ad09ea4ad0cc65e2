//! The precondition checker: validates, purely from the current state,
//! that an instruction is executable before any cost is charged or any
//! mutation happens.
use vstd::prelude::*;
use crate::word::{pow256, Word};
use crate::pc::{inst_wf, Instruction};
use crate::machine::State;
use crate::errors::{EvalOnChainError, NotSupportedError, OnChainError, RequireError};
use crate::commit::{balance_of, code_of, exists_of, slot_has, storage_of};
use crate::cost::{peek_addr, peek_val, peek_word};
use crate::patch::Patch;

verus! {

/// How many stack items an instruction consumes (or, for duplications
/// and swaps, reaches down to).
pub open spec fn stack_pops(inst: Instruction) -> nat {
    match inst {
        Instruction::Stop => 0,
        Instruction::Add => 2,
        Instruction::Mul => 2,
        Instruction::Sub => 2,
        Instruction::Div => 2,
        Instruction::Mod => 2,
        Instruction::Lt => 2,
        Instruction::Gt => 2,
        Instruction::Eq => 2,
        Instruction::IsZero => 1,
        Instruction::And => 2,
        Instruction::Or => 2,
        Instruction::Xor => 2,
        Instruction::Not => 1,
        Instruction::Byte => 2,
        Instruction::Address => 0,
        Instruction::Balance => 1,
        Instruction::Origin => 0,
        Instruction::Caller => 0,
        Instruction::CallValue => 0,
        Instruction::CallDataLoad => 1,
        Instruction::CallDataSize => 0,
        Instruction::Blockhash => 1,
        Instruction::Coinbase => 0,
        Instruction::Timestamp => 0,
        Instruction::Number => 0,
        Instruction::Difficulty => 0,
        Instruction::GasLimit => 0,
        Instruction::Pop => 1,
        Instruction::MLoad => 1,
        Instruction::MStore => 2,
        Instruction::MStore8 => 2,
        Instruction::SLoad => 1,
        Instruction::SStore => 2,
        Instruction::Jump => 1,
        Instruction::JumpI => 2,
        Instruction::Pc => 0,
        Instruction::MSize => 0,
        Instruction::Gas => 0,
        Instruction::JumpDest => 0,
        Instruction::Push(_, _) => 0,
        Instruction::Dup(n) => n as nat,
        Instruction::Swap(n) => (n + 1) as nat,
        Instruction::Log(n) => (n + 2) as nat,
        Instruction::Create => 3,
        Instruction::Call => 7,
        Instruction::Return => 2,
    }
}

/// How many stack items an instruction leaves in their place.
pub open spec fn stack_pushes(inst: Instruction) -> nat {
    match inst {
        Instruction::Stop => 0,
        Instruction::Add => 1,
        Instruction::Mul => 1,
        Instruction::Sub => 1,
        Instruction::Div => 1,
        Instruction::Mod => 1,
        Instruction::Lt => 1,
        Instruction::Gt => 1,
        Instruction::Eq => 1,
        Instruction::IsZero => 1,
        Instruction::And => 1,
        Instruction::Or => 1,
        Instruction::Xor => 1,
        Instruction::Not => 1,
        Instruction::Byte => 1,
        Instruction::Address => 1,
        Instruction::Balance => 1,
        Instruction::Origin => 1,
        Instruction::Caller => 1,
        Instruction::CallValue => 1,
        Instruction::CallDataLoad => 1,
        Instruction::CallDataSize => 1,
        Instruction::Blockhash => 1,
        Instruction::Coinbase => 1,
        Instruction::Timestamp => 1,
        Instruction::Number => 1,
        Instruction::Difficulty => 1,
        Instruction::GasLimit => 1,
        Instruction::Pop => 0,
        Instruction::MLoad => 1,
        Instruction::MStore => 0,
        Instruction::MStore8 => 0,
        Instruction::SLoad => 1,
        Instruction::SStore => 0,
        Instruction::Jump => 0,
        Instruction::JumpI => 0,
        Instruction::Pc => 1,
        Instruction::MSize => 1,
        Instruction::Gas => 1,
        Instruction::JumpDest => 0,
        Instruction::Push(_, _) => 1,
        Instruction::Dup(n) => (n + 1) as nat,
        Instruction::Swap(n) => (n + 1) as nat,
        Instruction::Log(_) => 0,
        Instruction::Create => 1,
        Instruction::Call => 1,
        Instruction::Return => 0,
    }
}

/// How many stack items an instruction needs before it runs.
pub open spec fn stack_req(inst: Instruction) -> nat {
    stack_pops(inst)
}

/// What the checker decides for one instruction against one state.
pub ghost enum CheckOutcome {
    /// Executable; a control-transfer instruction carries the jump
    /// target to resolve against the cursor.
    Pass(Option<Word>),
    /// An on-chain failure.
    Fail(OnChainError),
    /// The balance, nonce and code of this account are needed first.
    NeedAccount(nat),
    /// This storage slot of this account is needed first.
    NeedStorage(nat, nat),
    /// The hash of the block with this number is needed first.
    NeedBlockhash(nat),
    /// The code of this account is needed first.
    NeedCode(nat),
}

/// The checker's decision: stack depth first, then capacity, then the
/// instruction's own preconditions, reading external facts only through
/// the commit caches.
pub open spec fn spec_check(inst: Instruction, st: State) -> CheckOutcome {
    if st.stack@.len() < stack_req(inst) {
        CheckOutcome::Fail(OnChainError::StackUnderflow)
    } else if st.stack@.len() - stack_pops(inst) + stack_pushes(inst) > 1024 {
        CheckOutcome::Fail(OnChainError::StackOverflow)
    } else {
        match inst {
            Instruction::Jump => CheckOutcome::Pass(Some(st.stack.peek_spec(0))),
            Instruction::JumpI => CheckOutcome::Pass(Some(st.stack.peek_spec(0))),
            Instruction::Balance => {
                let a = peek_addr(st, 0);
                if balance_of(st.account_state.model(), a) is Some {
                    CheckOutcome::Pass(None)
                } else {
                    CheckOutcome::NeedAccount(a)
                }
            },
            Instruction::Blockhash => {
                if slot_has(st.blockhash_state.model(), peek_val(st, 0)) {
                    CheckOutcome::Pass(None)
                } else {
                    CheckOutcome::NeedBlockhash(peek_val(st, 0))
                }
            },
            Instruction::SLoad => {
                let a = st.context.address.value();
                if storage_of(st.account_state.model(), a, peek_val(st, 0)) is Some {
                    CheckOutcome::Pass(None)
                } else {
                    CheckOutcome::NeedStorage(a, peek_val(st, 0))
                }
            },
            Instruction::SStore => {
                let a = st.context.address.value();
                if storage_of(st.account_state.model(), a, peek_val(st, 0)) is Some {
                    CheckOutcome::Pass(None)
                } else {
                    CheckOutcome::NeedStorage(a, peek_val(st, 0))
                }
            },
            Instruction::Call => {
                let t = peek_addr(st, 1);
                if code_of(st.account_state.model(), t) is None {
                    CheckOutcome::NeedCode(t)
                } else if peek_val(st, 2) != 0 && exists_of(st.account_state.model(), t)
                    is None {
                    CheckOutcome::NeedAccount(t)
                } else {
                    CheckOutcome::Pass(None)
                }
            },
            _ => CheckOutcome::Pass(None),
        }
    }
}

/// Whether the checker lets the instruction through.
pub open spec fn check_passes(inst: Instruction, st: State) -> bool {
    spec_check(inst, st) is Pass
}

/// Validate an instruction against the current state without touching
/// it: enough stack depth, enough stack capacity, and every external
/// fact it reads already committed. A control-transfer instruction hands
/// back its jump target for the machine to resolve against the cursor.
pub fn check_opcode(inst: &Instruction, st: &State) -> (r: Result<
    Option<crate::machine::ControlCheck>,
    EvalOnChainError,
>)
    requires
        st.wf(),
        inst_wf(*inst),
    ensures
        ({
            let o = spec_check(*inst, *st);
            match r {
                Ok(c) => {
                    match c {
                        None => o == CheckOutcome::Pass(None::<Word>),
                        Some(crate::machine::ControlCheck::Jump(w)) => o == CheckOutcome::Pass(
                            Some(w),
                        ),
                    }
                },
                Err(EvalOnChainError::OnChain(e)) => o == CheckOutcome::Fail(e),
                Err(EvalOnChainError::Require(RequireError::Account(a))) => o
                    == CheckOutcome::NeedAccount(a.value()),
                Err(EvalOnChainError::Require(RequireError::AccountStorage(a, k))) => o
                    == CheckOutcome::NeedStorage(a.value(), k.value()),
                Err(EvalOnChainError::Require(RequireError::AccountCode(a))) => o
                    == CheckOutcome::NeedCode(a.value()),
                Err(EvalOnChainError::Require(RequireError::Blockhash(n))) => o
                    == CheckOutcome::NeedBlockhash(n.value()),
            }
        }),
{
    let len = st.stack.len();
    let (pops, pushes): (usize, usize) = stack_pops_pushes(inst);
    if len < pops {
        return Err(EvalOnChainError::OnChain(OnChainError::StackUnderflow));
    }
    if len - pops + pushes > 1024 {
        return Err(EvalOnChainError::OnChain(OnChainError::StackOverflow));
    }
    match *inst {
        Instruction::Jump => {
            let w = peek_word(&st.stack, 0);
            Ok(Some(crate::machine::ControlCheck::Jump(w)))
        },
        Instruction::JumpI => {
            let w = peek_word(&st.stack, 0);
            Ok(Some(crate::machine::ControlCheck::Jump(w)))
        },
        Instruction::Balance => {
            let a = peek_word(&st.stack, 0).to_address();
            match st.account_state.balance(&a) {
                Ok(_) => Ok(None),
                Err(e) => Err(EvalOnChainError::Require(e)),
            }
        },
        Instruction::Blockhash => {
            let n = peek_word(&st.stack, 0);
            match st.blockhash_state.get(&n) {
                Ok(_) => Ok(None),
                Err(e) => Err(EvalOnChainError::Require(e)),
            }
        },
        Instruction::SLoad => {
            let index = peek_word(&st.stack, 0);
            match st.account_state.storage_read(&st.context.address, &index) {
                Ok(_) => Ok(None),
                Err(e) => Err(EvalOnChainError::Require(e)),
            }
        },
        Instruction::SStore => {
            let index = peek_word(&st.stack, 0);
            match st.account_state.storage_read(&st.context.address, &index) {
                Ok(_) => Ok(None),
                Err(e) => Err(EvalOnChainError::Require(e)),
            }
        },
        Instruction::Call => {
            let t = peek_word(&st.stack, 1).to_address();
            match st.account_state.code(&t) {
                Ok(_) => {},
                Err(e) => {
                    return Err(EvalOnChainError::Require(e));
                },
            }
            let value = peek_word(&st.stack, 2);
            if !value.is_zero() {
                match st.account_state.existence(&t) {
                    Ok(_) => Ok(None),
                    Err(e) => Err(EvalOnChainError::Require(e)),
                }
            } else {
                Ok(None)
            }
        },
        _ => Ok(None),
    }
}

/// The consumed and left-in-place item counts of an instruction.
fn stack_pops_pushes(inst: &Instruction) -> (r: (usize, usize))
    requires
        inst_wf(*inst),
    ensures
        r.0 == stack_pops(*inst),
        r.1 == stack_pushes(*inst),
        r.0 <= 23 && r.1 <= 17,
{
    match *inst {
        Instruction::Stop => (0, 0),
        Instruction::Add => (2, 1),
        Instruction::Mul => (2, 1),
        Instruction::Sub => (2, 1),
        Instruction::Div => (2, 1),
        Instruction::Mod => (2, 1),
        Instruction::Lt => (2, 1),
        Instruction::Gt => (2, 1),
        Instruction::Eq => (2, 1),
        Instruction::IsZero => (1, 1),
        Instruction::And => (2, 1),
        Instruction::Or => (2, 1),
        Instruction::Xor => (2, 1),
        Instruction::Not => (1, 1),
        Instruction::Byte => (2, 1),
        Instruction::Address => (0, 1),
        Instruction::Balance => (1, 1),
        Instruction::Origin => (0, 1),
        Instruction::Caller => (0, 1),
        Instruction::CallValue => (0, 1),
        Instruction::CallDataLoad => (1, 1),
        Instruction::CallDataSize => (0, 1),
        Instruction::Blockhash => (1, 1),
        Instruction::Coinbase => (0, 1),
        Instruction::Timestamp => (0, 1),
        Instruction::Number => (0, 1),
        Instruction::Difficulty => (0, 1),
        Instruction::GasLimit => (0, 1),
        Instruction::Pop => (1, 0),
        Instruction::MLoad => (1, 1),
        Instruction::MStore => (2, 0),
        Instruction::MStore8 => (2, 0),
        Instruction::SLoad => (1, 1),
        Instruction::SStore => (2, 0),
        Instruction::Jump => (1, 0),
        Instruction::JumpI => (2, 0),
        Instruction::Pc => (0, 1),
        Instruction::MSize => (0, 1),
        Instruction::Gas => (0, 1),
        Instruction::JumpDest => (0, 0),
        Instruction::Push(_, _) => (0, 1),
        Instruction::Dup(n) => {
            proof {
                assert(n <= 16);
            }
            (n, n + 1)
        },
        Instruction::Swap(n) => {
            proof {
                assert(n <= 16);
            }
            (n + 1, n + 1)
        },
        Instruction::Log(n) => {
            proof {
                assert(n <= 4);
            }
            (n + 2, 0)
        },
        Instruction::Create => (3, 1),
        Instruction::Call => (7, 1),
        Instruction::Return => (2, 0),
    }
}

/// Reject an instruction that the active hardfork rule set does not
/// enable, as a support gap rather than an on-chain failure.
pub fn check_support<P: Patch>(inst: &Instruction) -> (r: Result<(), NotSupportedError>)
    ensures
        r is Ok <==> P::spec_enabled(*inst),
        r is Err ==> r == Err::<(), NotSupportedError>(NotSupportedError::OpcodeDisabled),
{
    if P::enabled(inst) {
        Ok(())
    } else {
        Err(NotSupportedError::OpcodeDisabled)
    }
}

/// Whether the extra, affordability-dependent check rejects the
/// instruction: a call may not ask for more gas than remains after its
/// cost is charged.
pub open spec fn spec_extra_check_fails(inst: Instruction, st: State, after_gas: u64) -> bool {
    match inst {
        Instruction::Call => peek_val(st, 0) > after_gas,
        _ => false,
    }
}

/// Validate preconditions that depend on affordability, after gas costs
/// are known.
pub fn extra_check_opcode(inst: &Instruction, st: &State, gas_stipend: u64, after_gas: u64) -> (r:
    Result<(), OnChainError>)
    requires
        stack_req(*inst) <= st.stack@.len(),
    ensures
        r is Ok <==> !spec_extra_check_fails(*inst, *st, after_gas),
        r is Err ==> r == Err::<(), OnChainError>(OnChainError::EmptyGas),
{
    match *inst {
        Instruction::Call => {
            let requested = peek_word(&st.stack, 0);
            proof {
                assert(pow256(8) == 0x10000000000000000) by {
                    reveal_with_fuel(pow256, 9);
                }
            }
            match requested.as_u64_checked() {
                Some(g) => {
                    if g > after_gas {
                        Err(OnChainError::EmptyGas)
                    } else {
                        Ok(())
                    }
                },
                None => Err(OnChainError::EmptyGas),
            }
        },
        _ => Ok(()),
    }
}

} // verus!
