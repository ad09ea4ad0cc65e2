//! The opcode executor: performs the semantic effect of one checked,
//! affordable instruction on the runtime state, and produces the control
//! signal for control-flow and system instructions.
use vstd::prelude::*;
use crate::word::{be_val, pow256, Word, Address, word_add, word_and, word_div, word_mod, word_mul,
    word_not, word_or, word_sub, word_xor};
use crate::stack::Stack;
use crate::pc::{inst_wf, Instruction};
use crate::machine::{Control, State};
use crate::context::{Context, LogModel, Log, logs_model};
use crate::commit::{balance_of, code_of, slot_val, storage_of, others_unchanged, acct_of};
use crate::check::{check_passes, spec_extra_check_fails, stack_req};
use crate::cost::{peek_addr, peek_val, peek_word, spec_memory_cost, spec_memory_gas, mem_words};
use crate::memory::ceil32;

verus! {

/// The wrapped result of a binary arithmetic instruction, with the first
/// operand taken from the top of the stack.
pub open spec fn binop_val(inst: Instruction, a: nat, b: nat) -> nat {
    match inst {
        Instruction::Add => (a + b) % pow256(32),
        Instruction::Sub => (((a + pow256(32) - b) as int) % (pow256(32) as int)) as nat,
        Instruction::Mul => (a * b) % pow256(32),
        Instruction::Div => if b == 0 {
            0nat
        } else {
            a / b
        },
        Instruction::Mod => if b == 0 {
            0nat
        } else {
            a % b
        },
        Instruction::Lt => if a < b {
            1nat
        } else {
            0nat
        },
        Instruction::Gt => if a > b {
            1nat
        } else {
            0nat
        },
        Instruction::Eq => if a == b {
            1nat
        } else {
            0nat
        },
        _ => 0nat,
    }
}

/// The stack is popped `pops` times and one word of value `v` is pushed.
pub open spec fn stack_pop_push(pre: Seq<Word>, post: Seq<Word>, pops: nat, v: nat) -> bool {
    &&& post.len() == pre.len() - pops + 1
    &&& forall|i: int| 0 <= i < pre.len() - pops ==> post[i] == pre[i]
    &&& post.last().value() == v
}

/// The stack is only popped `pops` times.
pub open spec fn stack_popped(pre: Seq<Word>, post: Seq<Word>, pops: nat) -> bool {
    post =~= pre.take(pre.len() - pops)
}

/// The logical bytes of memory are unchanged.
pub open spec fn mem_unchanged(pre: State, post: State) -> bool {
    forall|i: int| post.memory.byte(i) == pre.memory.byte(i)
}

/// The 32 bytes call-data loading reads at offset `i`: zero-padded past
/// the data's end.
pub open spec fn data_load_bytes(data: Seq<u8>, i: nat) -> Seq<u8> {
    Seq::new(
        32,
        |j: int|
            if i + j < data.len() {
                data[i + j]
            } else {
                0u8
            },
    )
}

/// The `len` logical bytes of memory starting at `off`.
pub open spec fn mem_range(st: State, off: nat, len: nat) -> Seq<u8> {
    Seq::new(len, |i: int| st.memory.byte(off + i))
}

/// The physical memory size after touching `len` bytes at `off`:
/// unchanged for an empty range, otherwise grown to cover the range,
/// rounded up to a whole word, and never shrunk.
pub open spec fn mem_len_after(pre: State, post: State, off: nat, len: nat) -> bool {
    post.memory@.len() == if len == 0 {
        pre.memory@.len()
    } else if ceil32(off + len) > pre.memory@.len() {
        ceil32(off + len)
    } else {
        pre.memory@.len()
    }
}

/// The parts of the state an instruction never touches: context, block,
/// gas counters, depth, the block-hash cache and the removal list; the
/// account cache except through storage writes; output except through a
/// return; logs except through a log; memory bytes except through a
/// store.
pub open spec fn run_frame(inst: Instruction, pre: State, post: State) -> bool {
    &&& post.context == pre.context
    &&& post.block == pre.block
    &&& post.memory_cost == pre.memory_cost
    &&& post.used_gas == pre.used_gas
    &&& post.refunded_gas == pre.refunded_gas
    &&& post.depth == pre.depth
    &&& post.blockhash_state == pre.blockhash_state
    &&& post.removed == pre.removed
    &&& !(inst matches Instruction::SStore) ==> post.account_state == pre.account_state
    &&& !(inst matches Instruction::Return) ==> post.out == pre.out
    &&& !(inst matches Instruction::Log(_)) ==> post.logs == pre.logs
    &&& (match inst {
        Instruction::MLoad => true,
        Instruction::MStore => true,
        Instruction::MStore8 => true,
        Instruction::Return => true,
        Instruction::Log(_) => true,
        Instruction::Create => true,
        Instruction::Call => true,
        _ => post.memory == pre.memory,
    })
}

/// The semantic effect of one instruction: how the post-state and the
/// control signal relate to the pre-state.
pub open spec fn run_rel(
    inst: Instruction,
    position: usize,
    pre: State,
    post: State,
    r: Option<Control>,
    stipend: u64,
    after_gas: u64,
) -> bool {
    let s = pre.stack@;
    let n = s.len() as int;
    let a = peek_val(pre, 0);
    let b = peek_val(pre, 1);
    &&& run_frame(inst, pre, post)
    &&& (match inst {
        Instruction::Stop => post.stack@ =~= s && r == Some(Control::Stop),
        Instruction::Add => stack_pop_push(s, post.stack@, 2, binop_val(inst, a, b)) && r is None,
        Instruction::Sub => stack_pop_push(s, post.stack@, 2, binop_val(inst, a, b)) && r is None,
        Instruction::Mul => stack_pop_push(s, post.stack@, 2, binop_val(inst, a, b)) && r is None,
        Instruction::Div => stack_pop_push(s, post.stack@, 2, binop_val(inst, a, b)) && r is None,
        Instruction::Mod => stack_pop_push(s, post.stack@, 2, binop_val(inst, a, b)) && r is None,
        Instruction::Lt => stack_pop_push(s, post.stack@, 2, binop_val(inst, a, b)) && r is None,
        Instruction::Gt => stack_pop_push(s, post.stack@, 2, binop_val(inst, a, b)) && r is None,
        Instruction::Eq => stack_pop_push(s, post.stack@, 2, binop_val(inst, a, b)) && r is None,
        Instruction::IsZero => stack_pop_push(
            s,
            post.stack@,
            1,
            if a == 0 {
                1nat
            } else {
                0nat
            },
        ) && r is None,
        Instruction::And => {
            &&& post.stack@.len() == n - 1
            &&& (forall|i: int| 0 <= i < n - 2 ==> post.stack@[i] == s[i])
            &&& (forall|i: int|
                0 <= i < 32 ==> post.stack@.last().bytes@[i] == (s[n - 1].bytes@[i] & s[n
                    - 2].bytes@[i]))
            &&& r is None
        },
        Instruction::Or => {
            &&& post.stack@.len() == n - 1
            &&& (forall|i: int| 0 <= i < n - 2 ==> post.stack@[i] == s[i])
            &&& (forall|i: int|
                0 <= i < 32 ==> post.stack@.last().bytes@[i] == (s[n - 1].bytes@[i] | s[n
                    - 2].bytes@[i]))
            &&& r is None
        },
        Instruction::Xor => {
            &&& post.stack@.len() == n - 1
            &&& (forall|i: int| 0 <= i < n - 2 ==> post.stack@[i] == s[i])
            &&& (forall|i: int|
                0 <= i < 32 ==> post.stack@.last().bytes@[i] == (s[n - 1].bytes@[i] ^ s[n
                    - 2].bytes@[i]))
            &&& r is None
        },
        Instruction::Not => {
            &&& post.stack@.len() == n
            &&& (forall|i: int| 0 <= i < n - 1 ==> post.stack@[i] == s[i])
            &&& (forall|i: int| 0 <= i < 32 ==> post.stack@.last().bytes@[i] == !s[n - 1].bytes@[i])
            &&& r is None
        },
        Instruction::Byte => stack_pop_push(
            s,
            post.stack@,
            2,
            if a < 32 {
                s[n - 2].bytes@[a as int] as nat
            } else {
                0nat
            },
        ) && r is None,
        Instruction::Address => stack_pop_push(s, post.stack@, 0, pre.context.address.value()) && r
            is None,
        Instruction::Origin => stack_pop_push(s, post.stack@, 0, pre.context.origin.value()) && r
            is None,
        Instruction::Caller => stack_pop_push(s, post.stack@, 0, pre.context.caller.value()) && r
            is None,
        Instruction::CallValue => post.stack@ =~= s.push(pre.context.value) && r is None,
        Instruction::CallDataSize => stack_pop_push(s, post.stack@, 0, pre.context.data@.len())
            && r is None,
        Instruction::CallDataLoad => stack_pop_push(
            s,
            post.stack@,
            1,
            be_val(data_load_bytes(pre.context.data@, a)),
        ) && r is None,
        Instruction::Balance => stack_pop_push(
            s,
            post.stack@,
            1,
            balance_of(pre.account_state.model(), a % pow256(20))->0,
        ) && r is None,
        Instruction::Blockhash => stack_pop_push(
            s,
            post.stack@,
            1,
            slot_val(pre.blockhash_state.model(), a),
        ) && r is None,
        Instruction::Coinbase => stack_pop_push(s, post.stack@, 0, pre.block.beneficiary.value())
            && r is None,
        Instruction::Timestamp => post.stack@ =~= s.push(pre.block.timestamp) && r is None,
        Instruction::Number => post.stack@ =~= s.push(pre.block.number) && r is None,
        Instruction::Difficulty => post.stack@ =~= s.push(pre.block.difficulty) && r is None,
        Instruction::GasLimit => post.stack@ =~= s.push(pre.block.gas_limit) && r is None,
        Instruction::Pop => stack_popped(s, post.stack@, 1) && r is None,
        Instruction::MLoad => stack_pop_push(s, post.stack@, 1, be_val(mem_range(pre, a, 32)))
            && mem_unchanged(pre, post) && mem_len_after(pre, post, a, 32) && r is None,
        Instruction::MStore => {
            &&& stack_popped(s, post.stack@, 2)
            &&& (forall|i: int|
                post.memory.byte(i) == if a <= i < a + 32 {
                    s[n - 2].bytes@[i - a]
                } else {
                    pre.memory.byte(i)
                })
            &&& mem_len_after(pre, post, a, 32)
            &&& r is None
        },
        Instruction::MStore8 => {
            &&& stack_popped(s, post.stack@, 2)
            &&& (forall|i: int|
                post.memory.byte(i) == if i == a {
                    s[n - 2].bytes@[31]
                } else {
                    pre.memory.byte(i)
                })
            &&& mem_len_after(pre, post, a, 1)
            &&& r is None
        },
        Instruction::SLoad => stack_pop_push(
            s,
            post.stack@,
            1,
            storage_of(pre.account_state.model(), pre.context.address.value(), a)->0,
        ) && r is None,
        Instruction::SStore => {
            let key = a;
            let newval = b;
            let addr = pre.context.address.value();
            &&& stack_popped(s, post.stack@, 2)
            &&& storage_of(post.account_state.model(), addr, key) == Some(newval)
            &&& (forall|k: nat|
                k != key ==> #[trigger] storage_of(post.account_state.model(), addr, k)
                    == storage_of(pre.account_state.model(), addr, k))
            &&& balance_of(post.account_state.model(), addr) == balance_of(
                pre.account_state.model(),
                addr,
            )
            &&& code_of(post.account_state.model(), addr) == code_of(
                pre.account_state.model(),
                addr,
            )
            &&& crate::commit::nonce_of(post.account_state.model(), addr)
                == crate::commit::nonce_of(pre.account_state.model(), addr)
            &&& crate::commit::exists_of(post.account_state.model(), addr)
                == crate::commit::exists_of(pre.account_state.model(), addr)
            &&& acct_of(post.account_state.model(), addr).storage_committed == acct_of(
                pre.account_state.model(),
                addr,
            ).storage_committed
            &&& others_unchanged(pre.account_state.model(), post.account_state.model(), addr)
            &&& r is None
        },
        Instruction::Jump => stack_popped(s, post.stack@, 1) && r == Some(
            Control::Jump(s[n - 1]),
        ),
        Instruction::JumpI => stack_popped(s, post.stack@, 2) && r == (if b != 0 {
            Some(Control::Jump(s[n - 1]))
        } else {
            None::<Control>
        }),
        Instruction::Pc => stack_pop_push(s, post.stack@, 0, position as nat) && r is None,
        Instruction::MSize => stack_pop_push(s, post.stack@, 0, pre.memory@.len()) && r is None,
        Instruction::Gas => stack_pop_push(s, post.stack@, 0, after_gas as nat) && r is None,
        Instruction::JumpDest => post.stack@ =~= s && r is None,
        Instruction::Push(_, w) => post.stack@ =~= s.push(w) && r is None,
        Instruction::Dup(m) => post.stack@ =~= s.push(s[n - m]) && r is None,
        Instruction::Swap(m) => post.stack@ =~= s.update(n - 1, s[n - 1 - m]).update(
            n - 1 - m,
            s[n - 1],
        ) && r is None,
        Instruction::Log(t) => {
            &&& stack_popped(s, post.stack@, (t + 2) as nat)
            &&& logs_model(post.logs@) =~~= logs_model(pre.logs@).push(
                LogModel {
                    address: pre.context.address.value(),
                    topics: Seq::new(t as nat, |j: int| s[n - 3 - j].value()),
                    data: mem_range(pre, a, b),
                },
            )
            &&& mem_unchanged(pre, post)
            &&& mem_len_after(pre, post, a, b)
            &&& r is None
        },
        Instruction::Create => {
            let value = a;
            let off = b;
            let len = peek_val(pre, 2);
            &&& stack_popped(s, post.stack@, 3)
            &&& mem_unchanged(pre, post)
            &&& mem_len_after(pre, post, off, len)
            &&& (r matches Some(Control::InvokeCreate(c)) && {
                &&& c.model().address == 0
                &&& c.model().caller == pre.context.address.value()
                &&& c.model().value == value
                &&& c.model().data =~= Seq::<u8>::empty()
                &&& c.model().code =~= mem_range(pre, off, len)
                &&& c.model().gas_limit == after_gas
                &&& c.model().origin == pre.context.origin.value()
                &&& c.model().gas_price == pre.context.gas_price.value()
            })
        },
        Instruction::Call => {
            let gas_req = a;
            let target = peek_addr(pre, 1);
            let value = peek_val(pre, 2);
            let in_off = peek_val(pre, 3);
            let in_len = peek_val(pre, 4);
            &&& stack_popped(s, post.stack@, 7)
            &&& mem_unchanged(pre, post)
            &&& mem_len_after(pre, post, in_off, in_len)
            &&& (r matches Some(Control::InvokeCall(c, range)) && {
                &&& c.model().address == target
                &&& c.model().caller == pre.context.address.value()
                &&& c.model().value == value
                &&& c.model().data =~= mem_range(pre, in_off, in_len)
                &&& Some(c.model().code) == code_of(pre.account_state.model(), target)
                &&& c.model().gas_limit == gas_req + stipend
                &&& c.model().origin == pre.context.origin.value()
                &&& c.model().gas_price == pre.context.gas_price.value()
                &&& range.0 == s[n - 6]
                &&& range.1 == s[n - 7]
            })
        },
        Instruction::Return => {
            &&& stack_popped(s, post.stack@, 2)
            &&& post.out@ =~= mem_range(pre, a, b)
            &&& mem_unchanged(pre, post)
            &&& mem_len_after(pre, post, a, b)
            &&& r == Some(Control::Stop)
        },
    })
}

/// Pop a word from a stack known not to be empty.
fn pop_word(stack: &mut Stack) -> (r: Word)
    requires
        old(stack)@.len() > 0,
    ensures
        r == old(stack)@.last(),
        final(stack)@ == old(stack)@.drop_last(),
{
    match stack.pop() {
        Ok(w) => w,
        Err(_) => vstd::pervasive::unreached(),
    }
}

/// Push a word onto a stack known to have room.
fn push_word(stack: &mut Stack, w: Word)
    requires
        old(stack)@.len() < 1024,
    ensures
        final(stack)@ == old(stack)@.push(w),
{
    match stack.push(w) {
        Ok(u) => u,
        Err(_) => vstd::pervasive::unreached(),
    }
}

/// When the memory gas of a new cost is affordable at all, the touched
/// range is addressable.
proof fn lemma_affordable_range(cur: nat, off: nat, len: nat)
    requires
        spec_memory_gas(mem_words(cur, off, len)) <= u64::MAX,
        len > 0,
    ensures
        off < 0x10000000000000000,
        len < 0x10000000000000000,
        off + len <= usize::MAX,
{
    if !(off < 0x10000000000000000 && len < 0x10000000000000000 && off + len <= usize::MAX) {
        assert(mem_words(cur, off, len) == u128::MAX as nat);
        assert(spec_memory_gas(u128::MAX as nat) == u128::MAX as nat);
        assert(u64::MAX < u128::MAX);
    }
}

/// Memory gas never shrinks as the cost grows.
pub proof fn lemma_memory_gas_monotone(c1: nat, c2: nat)
    requires
        c1 <= c2,
    ensures
        spec_memory_gas(c1) <= spec_memory_gas(c2),
{
    if c2 >= 0x10000000000000000 {
        if c1 < 0x10000000000000000 {
            assert(3 * c1 + (c1 * c1) / 512 <= 3 * c1 + c1 * c1) by (nonlinear_arith);
            assert(c1 * c1 < 0x10000000000000000 * 0x10000000000000000) by (nonlinear_arith)
                requires
                    c1 < 0x10000000000000000,
            ;
        }
    } else {
        assert(c1 * c1 <= c2 * c2) by (nonlinear_arith)
            requires
                c1 <= c2,
        ;
        assert((c1 * c1) / 512 <= (c2 * c2) / 512);
    }
}

/// The memory cost an instruction implies never falls below the state's
/// recorded cost.
pub proof fn lemma_memory_cost_monotone(inst: Instruction, st: State)
    ensures
        spec_memory_cost(inst, st) >= st.memory_cost,
{
    match inst {
        Instruction::Call => {
            let first = mem_words(st.memory_cost as nat, peek_val(st, 3), peek_val(st, 4));
            assert(first >= st.memory_cost);
            assert(first <= u128::MAX as nat);
            assert(mem_words(first, peek_val(st, 5), peek_val(st, 6)) >= first);
        },
        _ => {},
    }
}


/// Execute one checked, supported, affordable instruction against the
/// state, and produce its control signal. Must only be reached after the
/// checker, the support check, the gas-limit check and the extra check
/// have all passed.
#[verifier::loop_isolation(false)]
#[verifier::rlimit(90)]
#[verifier::spinoff_prover]
pub fn run_opcode(
    inst: &Instruction,
    position: usize,
    st: &mut State,
    gas_stipend: u64,
    after_gas: u64,
) -> (r: Option<Control>)
    requires
        old(st).wf(),
        inst_wf(*inst),
        check_passes(*inst, *old(st)),
        spec_memory_gas(spec_memory_cost(*inst, *old(st))) <= u64::MAX,
        !spec_extra_check_fails(*inst, *old(st), after_gas),
        after_gas <= old(st).context.gas_limit,
        gas_stipend <= 0x100000000,
    ensures
        final(st).wf(),
        run_rel(*inst, position, *old(st), *final(st), r, gas_stipend, after_gas),
{
    let ghost pre = *old(st);
    let ghost s = old(st).stack@;
    let ghost n = s.len() as int;
    proof {
        assert(pow256(8) == 0x10000000000000000) by {
            reveal_with_fuel(pow256, 9);
        }
    }
    match *inst {
        Instruction::Stop => Some(Control::Stop),
        Instruction::Add => {
            let a = pop_word(&mut st.stack);
            let b = pop_word(&mut st.stack);
            let res = word_add(&a, &b);
            push_word(&mut st.stack, res);
            proof {
                assert(st.stack@ =~= s.take(n - 2).push(res));
            }
            None
        },
        Instruction::Sub => {
            let a = pop_word(&mut st.stack);
            let b = pop_word(&mut st.stack);
            let res = word_sub(&a, &b);
            push_word(&mut st.stack, res);
            proof {
                assert(st.stack@ =~= s.take(n - 2).push(res));
            }
            None
        },
        Instruction::Mul => {
            let a = pop_word(&mut st.stack);
            let b = pop_word(&mut st.stack);
            let res = word_mul(&a, &b);
            push_word(&mut st.stack, res);
            proof {
                assert(st.stack@ =~= s.take(n - 2).push(res));
            }
            None
        },
        Instruction::Div => {
            let a = pop_word(&mut st.stack);
            let b = pop_word(&mut st.stack);
            let res = word_div(&a, &b);
            push_word(&mut st.stack, res);
            proof {
                assert(st.stack@ =~= s.take(n - 2).push(res));
            }
            None
        },
        Instruction::Mod => {
            let a = pop_word(&mut st.stack);
            let b = pop_word(&mut st.stack);
            let res = word_mod(&a, &b);
            push_word(&mut st.stack, res);
            proof {
                assert(st.stack@ =~= s.take(n - 2).push(res));
            }
            None
        },
        Instruction::Lt => {
            let a = pop_word(&mut st.stack);
            let b = pop_word(&mut st.stack);
            let res = Word::from_bool(a.lt_word(&b));
            push_word(&mut st.stack, res);
            proof {
                assert(st.stack@ =~= s.take(n - 2).push(res));
            }
            None
        },
        Instruction::Gt => {
            let a = pop_word(&mut st.stack);
            let b = pop_word(&mut st.stack);
            let res = Word::from_bool(b.lt_word(&a));
            push_word(&mut st.stack, res);
            proof {
                assert(st.stack@ =~= s.take(n - 2).push(res));
            }
            None
        },
        Instruction::Eq => {
            let a = pop_word(&mut st.stack);
            let b = pop_word(&mut st.stack);
            let res = Word::from_bool(a.eq_word(&b));
            push_word(&mut st.stack, res);
            proof {
                assert(st.stack@ =~= s.take(n - 2).push(res));
            }
            None
        },
        Instruction::IsZero => {
            let a = pop_word(&mut st.stack);
            let res = Word::from_bool(a.is_zero());
            push_word(&mut st.stack, res);
            proof {
                assert(st.stack@ =~= s.take(n - 1).push(res));
            }
            None
        },
        Instruction::And => {
            let a = pop_word(&mut st.stack);
            let b = pop_word(&mut st.stack);
            let res = word_and(&a, &b);
            push_word(&mut st.stack, res);
            proof {
                assert(st.stack@ =~= s.take(n - 2).push(res));
            }
            None
        },
        Instruction::Or => {
            let a = pop_word(&mut st.stack);
            let b = pop_word(&mut st.stack);
            let res = word_or(&a, &b);
            push_word(&mut st.stack, res);
            proof {
                assert(st.stack@ =~= s.take(n - 2).push(res));
            }
            None
        },
        Instruction::Xor => {
            let a = pop_word(&mut st.stack);
            let b = pop_word(&mut st.stack);
            let res = word_xor(&a, &b);
            push_word(&mut st.stack, res);
            proof {
                assert(st.stack@ =~= s.take(n - 2).push(res));
            }
            None
        },
        Instruction::Not => {
            let a = pop_word(&mut st.stack);
            let res = word_not(&a);
            push_word(&mut st.stack, res);
            proof {
                assert(st.stack@ =~= s.take(n - 1).push(res));
            }
            None
        },
        Instruction::Byte => {
            let a = pop_word(&mut st.stack);
            let b = pop_word(&mut st.stack);
            let res = match a.as_u64_checked() {
                Some(i) => {
                    if i < 32 {
                        Word::from_u64(b.bytes[i as usize] as u64)
                    } else {
                        Word::zero()
                    }
                },
                None => Word::zero(),
            };
            push_word(&mut st.stack, res);
            proof {
                assert(st.stack@ =~= s.take(n - 2).push(res));
            }
            None
        },
        Instruction::Address => {
            let res = st.context.address.to_word();
            push_word(&mut st.stack, res);
            proof {
                assert(s.take(n) =~= s);
            }
            None
        },
        Instruction::Origin => {
            let res = st.context.origin.to_word();
            push_word(&mut st.stack, res);
            proof {
                assert(s.take(n) =~= s);
            }
            None
        },
        Instruction::Caller => {
            let res = st.context.caller.to_word();
            push_word(&mut st.stack, res);
            proof {
                assert(s.take(n) =~= s);
            }
            None
        },
        Instruction::CallValue => {
            let res = st.context.value;
            push_word(&mut st.stack, res);
            None
        },
        Instruction::CallDataSize => {
            let res = Word::from_u64(st.context.data.len() as u64);
            push_word(&mut st.stack, res);
            proof {
                assert(s.take(n) =~= s);
            }
            None
        },
        Instruction::CallDataLoad => {
            let a = pop_word(&mut st.stack);
            let mut bytes: [u8; 32] = [0; 32];
            match a.as_u64_checked() {
                Some(iv) => {
                    let mut j: usize = 0;
                    while j < 32
                        invariant
                            0 <= j <= 32,
                            bytes@.len() == 32,
                            forall|jj: int|
                                0 <= jj < j ==> bytes@[jj] == data_load_bytes(
                                    st.context.data@,
                                    iv as nat,
                                )[jj],
                            forall|jj: int| j <= jj < 32 ==> bytes@[jj] == 0,
                        decreases 32 - j,
                    {
                        let idx: u128 = iv as u128 + j as u128;
                        if idx < st.context.data.len() as u128 {
                            bytes[j] = st.context.data[idx as usize];
                        }
                        j = j + 1;
                    }
                },
                None => {
                    let dlen = st.context.data.len();
                    proof {
                        assert(st.context.data@.len() == dlen);
                        assert(a.value() >= 0x10000000000000000);
                    }
                },
            }
            let res = Word { bytes };
            proof {
                assert(res.bytes@ =~= data_load_bytes(st.context.data@, a.value()));
            }
            push_word(&mut st.stack, res);
            proof {
                assert(st.stack@ =~= s.take(n - 1).push(res));
            }
            None
        },
        Instruction::Balance => {
            let a = pop_word(&mut st.stack);
            let target = a.to_address();
            let bal = match st.account_state.balance(&target) {
                Ok(w) => w,
                Err(_) => vstd::pervasive::unreached(),
            };
            push_word(&mut st.stack, bal);
            proof {
                assert(st.stack@ =~= s.take(n - 1).push(bal));
            }
            None
        },
        Instruction::Blockhash => {
            let a = pop_word(&mut st.stack);
            let h = match st.blockhash_state.get(&a) {
                Ok(w) => w,
                Err(_) => vstd::pervasive::unreached(),
            };
            push_word(&mut st.stack, h);
            proof {
                assert(st.stack@ =~= s.take(n - 1).push(h));
            }
            None
        },
        Instruction::Coinbase => {
            let res = st.block.beneficiary.to_word();
            push_word(&mut st.stack, res);
            proof {
                assert(s.take(n) =~= s);
            }
            None
        },
        Instruction::Timestamp => {
            let res = st.block.timestamp;
            push_word(&mut st.stack, res);
            None
        },
        Instruction::Number => {
            let res = st.block.number;
            push_word(&mut st.stack, res);
            None
        },
        Instruction::Difficulty => {
            let res = st.block.difficulty;
            push_word(&mut st.stack, res);
            None
        },
        Instruction::GasLimit => {
            let res = st.block.gas_limit;
            push_word(&mut st.stack, res);
            None
        },
        Instruction::Pop => {
            let _ = pop_word(&mut st.stack);
            proof {
                assert(st.stack@ =~= s.take(n - 1));
            }
            None
        },
        Instruction::MLoad => {
            let a = pop_word(&mut st.stack);
            proof {
                lemma_affordable_range(pre.memory_cost as nat, a.value(), 32);
            }
            let off = match a.as_u64_checked() {
                Some(o) => o,
                None => vstd::pervasive::unreached(),
            };
            st.memory.expand(off + 32);
            let w = st.memory.read_word(off);
            proof {
                assert(w.bytes@ =~= mem_range(pre, a.value(), 32));
            }
            push_word(&mut st.stack, w);
            proof {
                assert(st.stack@ =~= s.take(n - 1).push(w));
            }
            None
        },
        Instruction::MStore => {
            let a = pop_word(&mut st.stack);
            let b = pop_word(&mut st.stack);
            proof {
                lemma_affordable_range(pre.memory_cost as nat, a.value(), 32);
            }
            let off = match a.as_u64_checked() {
                Some(o) => o,
                None => vstd::pervasive::unreached(),
            };
            st.memory.write_word(off, &b);
            proof {
                assert(st.stack@ =~= s.take(n - 2));
            }
            None
        },
        Instruction::MStore8 => {
            let a = pop_word(&mut st.stack);
            let b = pop_word(&mut st.stack);
            proof {
                lemma_affordable_range(pre.memory_cost as nat, a.value(), 1);
            }
            let off = match a.as_u64_checked() {
                Some(o) => o,
                None => vstd::pervasive::unreached(),
            };
            st.memory.write_byte(off, b.bytes[31]);
            proof {
                assert(st.stack@ =~= s.take(n - 2));
            }
            None
        },
        Instruction::SLoad => {
            let a = pop_word(&mut st.stack);
            let v = match st.account_state.storage_read(&st.context.address, &a) {
                Ok(w) => w,
                Err(_) => vstd::pervasive::unreached(),
            };
            push_word(&mut st.stack, v);
            proof {
                assert(st.stack@ =~= s.take(n - 1).push(v));
            }
            None
        },
        Instruction::SStore => {
            let a = pop_word(&mut st.stack);
            let b = pop_word(&mut st.stack);
            match st.account_state.storage_write(&st.context.address, &a, b) {
                Ok(u) => u,
                Err(_) => vstd::pervasive::unreached(),
            }
            proof {
                assert(st.stack@ =~= s.take(n - 2));
            }
            None
        },
        Instruction::Jump => {
            let a = pop_word(&mut st.stack);
            proof {
                assert(st.stack@ =~= s.take(n - 1));
            }
            Some(Control::Jump(a))
        },
        Instruction::JumpI => {
            let a = pop_word(&mut st.stack);
            let cond = pop_word(&mut st.stack);
            proof {
                assert(st.stack@ =~= s.take(n - 2));
            }
            if !cond.is_zero() {
                Some(Control::Jump(a))
            } else {
                None
            }
        },
        Instruction::Pc => {
            let res = Word::from_u64(position as u64);
            push_word(&mut st.stack, res);
            proof {
                assert(s.take(n) =~= s);
            }
            None
        },
        Instruction::MSize => {
            let res = Word::from_u64(st.memory.len() as u64);
            push_word(&mut st.stack, res);
            proof {
                assert(s.take(n) =~= s);
            }
            None
        },
        Instruction::Gas => {
            let res = Word::from_u64(after_gas);
            push_word(&mut st.stack, res);
            proof {
                assert(s.take(n) =~= s);
            }
            None
        },
        Instruction::JumpDest => None,
        Instruction::Push(_, w) => {
            push_word(&mut st.stack, w);
            None
        },
        Instruction::Dup(m) => {
            let w = peek_word(&st.stack, m - 1);
            push_word(&mut st.stack, w);
            None
        },
        Instruction::Swap(m) => {
            let top = peek_word(&st.stack, 0);
            let other = peek_word(&st.stack, m);
            match st.stack.set(0, other) {
                Ok(u) => u,
                Err(_) => vstd::pervasive::unreached(),
            }
            match st.stack.set(m, top) {
                Ok(u) => u,
                Err(_) => vstd::pervasive::unreached(),
            }
            proof {
                assert(st.stack@ =~= s.update(n - 1, s[n - 1 - m]).update(n - 1 - m, s[n - 1]));
            }
            None
        },
        Instruction::Log(t) => {
            let a = pop_word(&mut st.stack);
            let b = pop_word(&mut st.stack);
            let mut topics: Vec<Word> = Vec::new();
            let mut j: usize = 0;
            while j < t
                invariant
                    0 <= j <= t,
                    topics@.len() == j,
                    forall|jj: int| 0 <= jj < j ==> topics@[jj] == s[n - 3 - jj],
                    st.stack@ =~= s.take(n - 2 - j),
                    st.memory == pre.memory,
                    st.context == pre.context,
                    st.logs == pre.logs,
                    st.out == pre.out,
                    st.account_state == pre.account_state,
                    st.blockhash_state == pre.blockhash_state,
                    st.removed == pre.removed,
                    st.block == pre.block,
                    st.memory_cost == pre.memory_cost,
                    st.used_gas == pre.used_gas,
                    st.refunded_gas == pre.refunded_gas,
                    st.depth == pre.depth,
                decreases t - j,
            {
                let w = pop_word(&mut st.stack);
                topics.push(w);
                j = j + 1;
                proof {
                    assert(st.stack@ =~= s.take(n - 2 - j));
                }
            }
            let data: Vec<u8> = if b.is_zero() {
                Vec::new()
            } else {
                proof {
                    lemma_affordable_range(pre.memory_cost as nat, a.value(), b.value());
                }
                let off = match a.as_u64_checked() {
                    Some(o) => o,
                    None => vstd::pervasive::unreached(),
                };
                let len = match b.as_u64_checked() {
                    Some(l) => l,
                    None => vstd::pervasive::unreached(),
                };
                st.memory.expand(off + len);
                st.memory.read_bytes(off, len)
            };
            proof {
                assert(data@ =~= mem_range(pre, a.value(), b.value()));
            }
            let entry = Log { address: st.context.address, topics, data };
            let ghost oldlogs = st.logs@;
            st.logs.push(entry);
            proof {
                assert(st.stack@ =~= s.take(n - (t + 2)));
                assert(logs_model(st.logs@) =~~= logs_model(oldlogs).push(entry.model()));
                assert(entry.model().topics =~= Seq::new(t as nat, |jj: int| s[n - 3 - jj].value()));
                assert(logs_model(st.logs@) =~~= logs_model(pre.logs@).push(
                    LogModel {
                        address: pre.context.address.value(),
                        topics: Seq::new(t as nat, |jj: int| s[n - 3 - jj].value()),
                        data: mem_range(pre, peek_val(pre, 0), peek_val(pre, 1)),
                    },
                ));
            }
            None
        },
        Instruction::Create => {
            let value_w = pop_word(&mut st.stack);
            let off_w = pop_word(&mut st.stack);
            let len_w = pop_word(&mut st.stack);
            let code: Vec<u8> = if len_w.is_zero() {
                Vec::new()
            } else {
                proof {
                    lemma_affordable_range(pre.memory_cost as nat, off_w.value(), len_w.value());
                }
                let off = match off_w.as_u64_checked() {
                    Some(o) => o,
                    None => vstd::pervasive::unreached(),
                };
                let len = match len_w.as_u64_checked() {
                    Some(l) => l,
                    None => vstd::pervasive::unreached(),
                };
                st.memory.expand(off + len);
                st.memory.read_bytes(off, len)
            };
            proof {
                assert(code@ =~= mem_range(pre, peek_val(pre, 1), peek_val(pre, 2)));
                assert(st.stack@ =~= s.take(n - 3));
            }
            let ctx = Context {
                address: Address::zero(),
                caller: st.context.address,
                value: value_w,
                data: Vec::new(),
                code,
                gas_limit: after_gas,
                origin: st.context.origin,
                gas_price: st.context.gas_price,
            };
            proof {
                assert(ctx.model().data =~= Seq::<u8>::empty());
            }
            Some(Control::InvokeCreate(ctx))
        },
        Instruction::Call => {
            let gas_w = pop_word(&mut st.stack);
            let to_w = pop_word(&mut st.stack);
            let value_w = pop_word(&mut st.stack);
            let in_off_w = pop_word(&mut st.stack);
            let in_len_w = pop_word(&mut st.stack);
            let out_off_w = pop_word(&mut st.stack);
            let out_len_w = pop_word(&mut st.stack);
            let target = to_w.to_address();
            let code = match st.account_state.code(&target) {
                Ok(c) => c,
                Err(_) => vstd::pervasive::unreached(),
            };
            proof {
                let cur = pre.memory_cost as nat;
                let first = mem_words(cur, peek_val(pre, 3), peek_val(pre, 4));
                let outer = mem_words(first, peek_val(pre, 5), peek_val(pre, 6));
                assert(outer >= first) by {
                    assert(first <= u128::MAX as nat);
                }
                lemma_memory_gas_monotone(first, outer);
            }
            let data: Vec<u8> = if in_len_w.is_zero() {
                Vec::new()
            } else {
                proof {
                    lemma_affordable_range(
                        pre.memory_cost as nat,
                        in_off_w.value(),
                        in_len_w.value(),
                    );
                }
                let off = match in_off_w.as_u64_checked() {
                    Some(o) => o,
                    None => vstd::pervasive::unreached(),
                };
                let len = match in_len_w.as_u64_checked() {
                    Some(l) => l,
                    None => vstd::pervasive::unreached(),
                };
                st.memory.expand(off + len);
                st.memory.read_bytes(off, len)
            };
            proof {
                assert(data@ =~= mem_range(pre, peek_val(pre, 3), peek_val(pre, 4)));
                assert(st.stack@ =~= s.take(n - 7));
            }
            let gas_req = match gas_w.as_u64_checked() {
                Some(g) => g,
                None => vstd::pervasive::unreached(),
            };
            let ctx = Context {
                address: target,
                caller: st.context.address,
                value: value_w,
                data,
                code,
                gas_limit: gas_req + gas_stipend,
                origin: st.context.origin,
                gas_price: st.context.gas_price,
            };
            Some(Control::InvokeCall(ctx, (out_off_w, out_len_w)))
        },
        Instruction::Return => {
            let a = pop_word(&mut st.stack);
            let b = pop_word(&mut st.stack);
            let out: Vec<u8> = if b.is_zero() {
                Vec::new()
            } else {
                proof {
                    lemma_affordable_range(pre.memory_cost as nat, a.value(), b.value());
                }
                let off = match a.as_u64_checked() {
                    Some(o) => o,
                    None => vstd::pervasive::unreached(),
                };
                let len = match b.as_u64_checked() {
                    Some(l) => l,
                    None => vstd::pervasive::unreached(),
                };
                st.memory.expand(off + len);
                st.memory.read_bytes(off, len)
            };
            proof {
                assert(out@ =~= mem_range(pre, a.value(), b.value()));
                assert(st.stack@ =~= s.take(n - 2));
            }
            st.out = out;
            Some(Control::Stop)
        },
    }
}

} // verus!
