//! The runtime state aggregate and the orchestrating state machine.
use vstd::prelude::*;
use crate::word::{Address, Word};
use crate::stack::Stack;
use crate::memory::Memory;
use crate::context::{Context, ContextModel, HeaderModel, HeaderParams, Log, LogModel, logs_model,
    removed_model};
use crate::commit::{AccountCommitment, AccountModel, AccountState, BlockhashState,
    balance_of, code_of, commit_conflicts, exists_of, nonce_of, others_unchanged, slot_has,
    slot_val, storage_of};
use crate::cost::{gas_cost, gas_refund, gas_stipend, memory_cost, memory_gas_of, spec_gas_cost,
    spec_gas_refund, spec_gas_stipend, spec_memory_cost, spec_memory_gas};
use crate::check::{check_opcode, check_support, extra_check_opcode, spec_check,
    spec_extra_check_fails, CheckOutcome};
use crate::run::{run_opcode, run_rel};
use crate::pc::{decodes, lemma_decode_deterministic, op_defined, scan_next, valid_dest,
    Instruction, PC};
use crate::patch::{identity_gas, run_precompiled, Patch, PrecompiledKind};
use crate::errors::{CommitError, NotSupportedError, OnChainError, RequireError, RuntimeError,
    EvalOnChainError};
use crate::util::bytes_eq;

verus! {

/// The current runtime status. Every state but `Running` is terminal for
/// this machine instance.
pub enum MachineStatus {
    /// The machine is actively running or has just been started.
    Running,
    /// The machine has exited successfully.
    ExitedOk,
    /// The machine has exited with an on-chain failure.
    ExitedErr(OnChainError),
    /// The machine has exited on an instruction the rule set disables.
    ExitedNotSupported(NotSupportedError),
    /// The machine asks for a sub-machine running a contract creation.
    InvokeCreate(Context),
    /// The machine asks for a sub-machine running a message call, with
    /// the memory range its output is to be written back to.
    InvokeCall(Context, (Word, Word)),
}

/// Mathematical model of a machine status.
#[verifier::ext_equal]
pub ghost enum StatusModel {
    Running,
    ExitedOk,
    ExitedErr(OnChainError),
    ExitedNotSupported(NotSupportedError),
    InvokeCreate(ContextModel),
    InvokeCall(ContextModel, (nat, nat)),
}

/// The model of a machine status.
pub open spec fn status_model(s: MachineStatus) -> StatusModel {
    match s {
        MachineStatus::Running => StatusModel::Running,
        MachineStatus::ExitedOk => StatusModel::ExitedOk,
        MachineStatus::ExitedErr(e) => StatusModel::ExitedErr(e),
        MachineStatus::ExitedNotSupported(e) => StatusModel::ExitedNotSupported(e),
        MachineStatus::InvokeCreate(c) => StatusModel::InvokeCreate(c.model()),
        MachineStatus::InvokeCall(c, range) => StatusModel::InvokeCall(
            c.model(),
            (range.0.value(), range.1.value()),
        ),
    }
}

/// What the checker hands the machine for control-transfer instructions:
/// a jump target to resolve against the cursor.
pub enum ControlCheck {
    Jump(Word),
}

/// The transient per-step signal the executor produces and the machine
/// consumes immediately: stop, jump, or invoke a sub-machine.
pub enum Control {
    Stop,
    Jump(Word),
    InvokeCreate(Context),
    InvokeCall(Context, (Word, Word)),
}

/// The mutable runtime aggregate of one frame: everything a step can
/// observe or change, except the instruction cursor.
pub struct State {
    /// Memory of this runtime.
    pub memory: Memory,
    /// Stack of this runtime.
    pub stack: Stack,
    /// Per-frame call context.
    pub context: Context,
    /// Block header environment.
    pub block: HeaderParams,
    /// The current output value.
    pub out: Vec<u8>,
    /// The current memory cost, counted in words. Distinct from the
    /// memory gas it implies.
    pub memory_cost: u64,
    /// Used gas, excluding memory gas.
    pub used_gas: u64,
    /// Refunded gas.
    pub refunded_gas: u64,
    /// The account commitment cache.
    pub account_state: AccountState,
    /// The block-hash commitment cache.
    pub blockhash_state: BlockhashState,
    /// Logs appended so far, in emission order.
    pub logs: Vec<Log>,
    /// Accounts marked for removal.
    pub removed: Vec<Address>,
    /// Call depth of this runtime.
    pub depth: usize,
}

/// Mathematical model of a whole runtime state.
#[verifier::ext_equal]
pub ghost struct StateModel {
    pub memory: Seq<u8>,
    pub stack: Seq<nat>,
    pub context: ContextModel,
    pub block: HeaderModel,
    pub out: Seq<u8>,
    pub memory_cost: nat,
    pub used_gas: nat,
    pub refunded_gas: nat,
    pub accounts: Seq<AccountModel>,
    pub blockhashes: Seq<(nat, nat)>,
    pub logs: Seq<LogModel>,
    pub removed: Seq<nat>,
    pub depth: nat,
}

/// The values a word stack denotes, bottom first.
pub open spec fn stack_values(s: Seq<Word>) -> Seq<nat> {
    Seq::new(s.len(), |i: int| s[i].value())
}

impl State {
    /// The model of this state.
    pub open spec fn model(self) -> StateModel {
        StateModel {
            memory: self.memory@,
            stack: stack_values(self.stack@),
            context: self.context.model(),
            block: self.block.model(),
            out: self.out@,
            memory_cost: self.memory_cost as nat,
            used_gas: self.used_gas as nat,
            refunded_gas: self.refunded_gas as nat,
            accounts: self.account_state.model(),
            blockhashes: self.blockhash_state.model(),
            logs: logs_model(self.logs@),
            removed: removed_model(self.removed@),
            depth: self.depth as nat,
        }
    }

    /// A well-formed state: its parts are well formed and the stack is
    /// within its capacity.
    pub open spec fn wf(self) -> bool {
        &&& self.stack@.len() <= 1024
        &&& self.memory.wf()
        &&& self.account_state.wf()
        &&& self.blockhash_state.wf()
        &&& self.context.wf()
    }

    /// The gas consumed so far, memory gas included, stays within the
    /// frame's gas limit. Holds of every running machine.
    pub open spec fn within_gas(self) -> bool {
        spec_memory_gas(self.memory_cost as nat) + self.used_gas <= self.context.gas_limit
    }

    /// Memory gas, part of total used gas.
    pub fn memory_gas(&self) -> (r: u64)
        requires
            self.within_gas(),
        ensures
            r == spec_memory_gas(self.memory_cost as nat),
    {
        let c: u128 = self.memory_cost as u128;
        proof {
            assert(c < 0x10000000000000000);
            assert(c * c <= (0x10000000000000000u128 - 1) * (0x10000000000000000u128 - 1))
                by (nonlinear_arith)
                requires
                    c <= 0x10000000000000000u128 - 1,
            ;
        }
        let g: u128 = 3 * c + (c * c) / 512;
        g as u64
    }

    /// Available gas at this moment.
    pub fn available_gas(&self) -> (r: u64)
        requires
            self.within_gas(),
        ensures
            r == self.context.gas_limit - spec_memory_gas(self.memory_cost as nat)
                - self.used_gas,
    {
        self.context.gas_limit - self.memory_gas() - self.used_gas
    }

    /// Total used gas, memory gas included.
    pub fn total_used_gas(&self) -> (r: u64)
        requires
            self.within_gas(),
        ensures
            r == spec_memory_gas(self.memory_cost as nat) + self.used_gas,
    {
        self.memory_gas() + self.used_gas
    }
}


/// Whether entry `i` of the rule set is bound to the frame: same address,
/// and the code gate, when present, equal to the frame's code.
pub open spec fn precompiled_matches_at<P: Patch>(i: int, address: nat, code: Seq<u8>) -> bool {
    &&& 0 <= i < P::spec_precompiled_len()
    &&& P::spec_precompiled_address(i) == address
    &&& (P::spec_precompiled_code(i) is None || P::spec_precompiled_code(i) == Some(code))
}

/// Whether some precompiled entry of the rule set is bound to the frame.
pub open spec fn precompiled_any<P: Patch>(address: nat, code: Seq<u8>) -> bool {
    exists|i: int| #[trigger] precompiled_matches_at::<P>(i, address, code)
}

/// Whether a checker outcome lets the step proceed: it passed, and any
/// jump target it carries lands on a valid destination.
pub open spec fn jump_ok(o: CheckOutcome, code: Seq<u8>) -> bool {
    match o {
        CheckOutcome::Pass(t) => match t {
            Some(w) => w.value() <= usize::MAX && valid_dest(code, w.value() as int),
            None => true,
        },
        _ => false,
    }
}

/// Where the cursor stands after reading the instruction at `pos`.
pub open spec fn advanced_position(code: Seq<u8>, pos: int) -> int {
    if scan_next(code, pos) > code.len() {
        code.len() as int
    } else {
        scan_next(code, pos)
    }
}

/// A machine: the runtime state, the code cursor, and the status,
/// parameterized by the active hardfork rule set.
pub struct Machine<P: Patch> {
    state: State,
    pc: PC,
    status: MachineStatus,
    patch: core::marker::PhantomData<P>,
}

impl<P: Patch> Machine<P> {
    /// The runtime state.
    pub closed spec fn state_spec(self) -> State {
        self.state
    }

    /// The code cursor.
    pub closed spec fn pc_spec(self) -> PC {
        self.pc
    }

    /// The current status.
    pub closed spec fn status_spec(self) -> MachineStatus {
        self.status
    }

    /// A well-formed machine: a well-formed state and cursor, with the
    /// cursor running over the frame's code.
    pub open spec fn wf(self) -> bool {
        &&& self.state_spec().wf()
        &&& self.pc_spec().wf()
        &&& self.pc_spec().code_spec() == self.state_spec().context.code@
        &&& self.status_spec() is Running ==> self.state_spec().within_gas()
    }

    /// Create a new machine with empty commitment caches.
    pub fn new(context: Context, block: HeaderParams, depth: usize) -> (r: Machine<P>)
        requires
            context.wf(),
        ensures
            r.wf(),
            r.status_spec() is Running,
            r.state_spec().context == context,
            r.state_spec().block == block,
            r.state_spec().depth == depth,
            r.state_spec().stack@ =~= Seq::<Word>::empty(),
            r.state_spec().memory@ =~= Seq::<u8>::empty(),
            r.state_spec().out@ =~= Seq::<u8>::empty(),
            r.state_spec().memory_cost == 0 && r.state_spec().used_gas == 0
                && r.state_spec().refunded_gas == 0,
            r.state_spec().account_state.model() =~= Seq::<AccountModel>::empty(),
            r.state_spec().blockhash_state.model() =~= Seq::<(nat, nat)>::empty(),
            r.state_spec().logs@ =~= Seq::<Log>::empty(),
            r.state_spec().removed@ =~= Seq::<Address>::empty(),
            r.pc_spec().position_spec() == 0,
    {
        Self::with_states(context, block, depth, AccountState::new(), BlockhashState::new())
    }

    /// Create a new machine with the given commitment caches.
    pub fn with_states(
        context: Context,
        block: HeaderParams,
        depth: usize,
        account_state: AccountState,
        blockhash_state: BlockhashState,
    ) -> (r: Machine<P>)
        requires
            context.wf(),
            account_state.wf(),
            blockhash_state.wf(),
        ensures
            r.wf(),
            r.status_spec() is Running,
            r.state_spec().context == context,
            r.state_spec().block == block,
            r.state_spec().depth == depth,
            r.state_spec().stack@ =~= Seq::<Word>::empty(),
            r.state_spec().memory@ =~= Seq::<u8>::empty(),
            r.state_spec().out@ =~= Seq::<u8>::empty(),
            r.state_spec().memory_cost == 0 && r.state_spec().used_gas == 0
                && r.state_spec().refunded_gas == 0,
            r.state_spec().account_state == account_state,
            r.state_spec().blockhash_state == blockhash_state,
            r.state_spec().logs@ =~= Seq::<Log>::empty(),
            r.state_spec().removed@ =~= Seq::<Address>::empty(),
            r.pc_spec().position_spec() == 0,
    {
        let pc = PC::new(&context.code);
        Machine {
            pc,
            status: MachineStatus::Running,
            state: State {
                memory: Memory::new(),
                stack: Stack::new(),
                context,
                block,
                out: Vec::new(),
                memory_cost: 0,
                used_gas: 0,
                refunded_gas: 0,
                account_state,
                blockhash_state,
                logs: Vec::new(),
                removed: Vec::new(),
                depth,
            },
            patch: core::marker::PhantomData,
        }
    }

    /// Derive a sub-machine for a nested call or creation: fresh memory,
    /// stack, output and gas accounting, the parent's committed facts,
    /// logs and removal set copied by value, and the depth one deeper.
    /// The parent is not modified, and later parent mutations do not
    /// affect the child. The consensus maximum on call depth is the
    /// host's to enforce before deriving; this core only counts.
    pub fn derive(&self, context: Context) -> (r: Machine<P>)
        requires
            self.wf(),
            context.wf(),
            self.state_spec().depth < usize::MAX,
        ensures
            r.wf(),
            r.status_spec() is Running,
            r.state_spec().depth == self.state_spec().depth + 1,
            r.state_spec().stack@ =~= Seq::<Word>::empty(),
            r.state_spec().memory@ =~= Seq::<u8>::empty(),
            r.state_spec().out@ =~= Seq::<u8>::empty(),
            r.state_spec().memory_cost == 0 && r.state_spec().used_gas == 0
                && r.state_spec().refunded_gas == 0,
            r.state_spec().context == context,
            r.state_spec().block.model() == self.state_spec().block.model(),
            r.state_spec().account_state.model() == self.state_spec().account_state.model(),
            r.state_spec().blockhash_state.model() == self.state_spec().blockhash_state.model(),
            logs_model(r.state_spec().logs@) == logs_model(self.state_spec().logs@),
            removed_model(r.state_spec().removed@) == removed_model(self.state_spec().removed@),
            r.pc_spec().position_spec() == 0,
    {
        let pc = PC::new(&context.code);
        let r = Machine {
            pc,
            status: MachineStatus::Running,
            state: State {
                memory: Memory::new(),
                stack: Stack::new(),
                context,
                block: self.state.block.duplicate(),
                out: Vec::new(),
                memory_cost: 0,
                used_gas: 0,
                refunded_gas: 0,
                account_state: self.state.account_state.duplicate(),
                blockhash_state: self.state.blockhash_state.duplicate(),
                logs: crate::context::copy_logs(&self.state.logs),
                removed: crate::context::copy_addresses(&self.state.removed),
                depth: self.state.depth + 1,
            },
            patch: core::marker::PhantomData,
        };
        proof {
            assert(removed_model(r.state.removed@) =~= removed_model(self.state.removed@));
        }
        r
    }

    /// Commit a new account fact into this machine. Everything but the
    /// account cache is untouched; a conflicting fact is refused with the
    /// cache unchanged.
    pub fn commit_account(&mut self, commitment: AccountCommitment) -> (r: Result<(), CommitError>)
        requires
            old(self).wf(),
        ensures
            final(self).wf(),
            final(self).status_spec() == old(self).status_spec(),
            final(self).pc_spec() == old(self).pc_spec(),
            final(self).state_spec().stack == old(self).state_spec().stack,
            final(self).state_spec().memory == old(self).state_spec().memory,
            final(self).state_spec().context == old(self).state_spec().context,
            final(self).state_spec().block == old(self).state_spec().block,
            final(self).state_spec().out == old(self).state_spec().out,
            final(self).state_spec().memory_cost == old(self).state_spec().memory_cost,
            final(self).state_spec().used_gas == old(self).state_spec().used_gas,
            final(self).state_spec().refunded_gas == old(self).state_spec().refunded_gas,
            final(self).state_spec().blockhash_state == old(self).state_spec().blockhash_state,
            final(self).state_spec().logs == old(self).state_spec().logs,
            final(self).state_spec().removed == old(self).state_spec().removed,
            final(self).state_spec().depth == old(self).state_spec().depth,
            r is Ok <==> !commit_conflicts(
                old(self).state_spec().account_state.model(),
                commitment,
            ),
            r is Err ==> r == Err::<(), CommitError>(CommitError::AlreadyCommitted)
                && final(self).state_spec().account_state.model() == old(
                self,
            ).state_spec().account_state.model(),
            commitment matches AccountCommitment::Full { address, balance, nonce, code } ==> (r
                is Ok ==> {
                &&& balance_of(
                    final(self).state_spec().account_state.model(),
                    address.value(),
                ) == Some(balance.value())
                &&& nonce_of(final(self).state_spec().account_state.model(), address.value())
                    == Some(nonce.value())
                &&& code_of(final(self).state_spec().account_state.model(), address.value())
                    == Some(code@)
                &&& exists_of(final(self).state_spec().account_state.model(), address.value())
                    == Some(true)
                &&& forall|k: nat|
                    #[trigger] storage_of(
                        final(self).state_spec().account_state.model(),
                        address.value(),
                        k,
                    ) == storage_of(
                        old(self).state_spec().account_state.model(),
                        address.value(),
                        k,
                    )
                &&& others_unchanged(
                    old(self).state_spec().account_state.model(),
                    final(self).state_spec().account_state.model(),
                    address.value(),
                )
            }),
            commitment matches AccountCommitment::Nonexist(address) ==> (r is Ok ==> {
                &&& balance_of(
                    final(self).state_spec().account_state.model(),
                    address.value(),
                ) == Some(0nat)
                &&& nonce_of(final(self).state_spec().account_state.model(), address.value())
                    == Some(0nat)
                &&& code_of(final(self).state_spec().account_state.model(), address.value())
                    == Some(Seq::<u8>::empty())
                &&& exists_of(final(self).state_spec().account_state.model(), address.value())
                    == Some(false)
                &&& forall|k: nat|
                    #[trigger] storage_of(
                        final(self).state_spec().account_state.model(),
                        address.value(),
                        k,
                    ) == Some(0nat)
                &&& others_unchanged(
                    old(self).state_spec().account_state.model(),
                    final(self).state_spec().account_state.model(),
                    address.value(),
                )
            }),
            commitment matches AccountCommitment::Storage { address, index, value } ==> (r is Ok
                ==> {
                &&& storage_of(
                    final(self).state_spec().account_state.model(),
                    address.value(),
                    index.value(),
                ) == Some(value.value())
                &&& forall|k: nat|
                    k != index.value() ==> #[trigger] storage_of(
                        final(self).state_spec().account_state.model(),
                        address.value(),
                        k,
                    ) == storage_of(
                        old(self).state_spec().account_state.model(),
                        address.value(),
                        k,
                    )
                &&& balance_of(final(self).state_spec().account_state.model(), address.value())
                    == balance_of(
                    old(self).state_spec().account_state.model(),
                    address.value(),
                )
                &&& nonce_of(final(self).state_spec().account_state.model(), address.value())
                    == nonce_of(old(self).state_spec().account_state.model(), address.value())
                &&& code_of(final(self).state_spec().account_state.model(), address.value())
                    == code_of(old(self).state_spec().account_state.model(), address.value())
                &&& exists_of(final(self).state_spec().account_state.model(), address.value())
                    == exists_of(
                    old(self).state_spec().account_state.model(),
                    address.value(),
                )
                &&& others_unchanged(
                    old(self).state_spec().account_state.model(),
                    final(self).state_spec().account_state.model(),
                    address.value(),
                )
            }),
            commitment matches AccountCommitment::Code { address, code } ==> (r is Ok ==> {
                &&& code_of(final(self).state_spec().account_state.model(), address.value())
                    == Some(code@)
                &&& exists_of(final(self).state_spec().account_state.model(), address.value())
                    == Some(true)
                &&& balance_of(final(self).state_spec().account_state.model(), address.value())
                    == balance_of(
                    old(self).state_spec().account_state.model(),
                    address.value(),
                )
                &&& nonce_of(final(self).state_spec().account_state.model(), address.value())
                    == nonce_of(old(self).state_spec().account_state.model(), address.value())
                &&& forall|k: nat|
                    #[trigger] storage_of(
                        final(self).state_spec().account_state.model(),
                        address.value(),
                        k,
                    ) == storage_of(
                        old(self).state_spec().account_state.model(),
                        address.value(),
                        k,
                    )
                &&& others_unchanged(
                    old(self).state_spec().account_state.model(),
                    final(self).state_spec().account_state.model(),
                    address.value(),
                )
            }),
    {
        self.state.account_state.commit(commitment)
    }

    /// Commit a new block hash into this machine. Everything but the
    /// block-hash cache is untouched; a second hash for the same number
    /// is refused with the cache unchanged.
    pub fn commit_blockhash(&mut self, number: Word, hash: Word) -> (r: Result<(), CommitError>)
        requires
            old(self).wf(),
        ensures
            final(self).wf(),
            final(self).status_spec() == old(self).status_spec(),
            final(self).pc_spec() == old(self).pc_spec(),
            final(self).state_spec().account_state == old(self).state_spec().account_state,
            final(self).state_spec().stack == old(self).state_spec().stack,
            final(self).state_spec().memory == old(self).state_spec().memory,
            final(self).state_spec().context == old(self).state_spec().context,
            final(self).state_spec().block == old(self).state_spec().block,
            final(self).state_spec().out == old(self).state_spec().out,
            final(self).state_spec().logs == old(self).state_spec().logs,
            final(self).state_spec().removed == old(self).state_spec().removed,
            final(self).state_spec().used_gas == old(self).state_spec().used_gas,
            final(self).state_spec().memory_cost == old(self).state_spec().memory_cost,
            final(self).state_spec().refunded_gas == old(self).state_spec().refunded_gas,
            final(self).state_spec().depth == old(self).state_spec().depth,
            r is Ok <==> !slot_has(
                old(self).state_spec().blockhash_state.model(),
                number.value(),
            ),
            r is Err ==> r == Err::<(), CommitError>(CommitError::AlreadyCommitted)
                && final(self).state_spec().blockhash_state.model() =~= old(
                self,
            ).state_spec().blockhash_state.model(),
            r is Ok ==> slot_has(final(self).state_spec().blockhash_state.model(), number.value())
                && slot_val(final(self).state_spec().blockhash_state.model(), number.value())
                == hash.value(),
            r is Ok ==> forall|x: nat|
                x != number.value() ==> #[trigger] slot_has(
                    final(self).state_spec().blockhash_state.model(),
                    x,
                ) == slot_has(old(self).state_spec().blockhash_state.model(), x) && (slot_has(
                    old(self).state_spec().blockhash_state.model(),
                    x,
                ) ==> slot_val(final(self).state_spec().blockhash_state.model(), x) == slot_val(
                    old(self).state_spec().blockhash_state.model(),
                    x,
                )),
    {
        self.state.blockhash_state.commit(number, hash)
    }

    /// Get the runtime state.
    pub fn state(&self) -> (r: &State)
        ensures
            *r == self.state_spec(),
    {
        &self.state
    }

    /// Get the runtime cursor.
    pub fn pc(&self) -> (r: &PC)
        ensures
            *r == self.pc_spec(),
    {
        &self.pc
    }

    /// Get the current runtime status, as a value-identical copy.
    pub fn status(&self) -> (r: MachineStatus)
        ensures
            status_model(r) == status_model(self.status_spec()),
    {
        match &self.status {
            MachineStatus::Running => MachineStatus::Running,
            MachineStatus::ExitedOk => MachineStatus::ExitedOk,
            MachineStatus::ExitedErr(e) => MachineStatus::ExitedErr(*e),
            MachineStatus::ExitedNotSupported(e) => MachineStatus::ExitedNotSupported(*e),
            MachineStatus::InvokeCreate(c) => {
                let r = MachineStatus::InvokeCreate(c.duplicate());
                proof {
                    assert(status_model(r) =~~= status_model(self.status_spec()));
                }
                r
            },
            MachineStatus::InvokeCall(c, range) => {
                let r = MachineStatus::InvokeCall(c.duplicate(), (range.0, range.1));
                proof {
                    assert(status_model(r) =~~= status_model(self.status_spec()));
                }
                r
            },
        }
    }


    /// Step one instruction. The outcome is reflected in the machine
    /// status; an error is returned only when external facts must be
    /// committed first, and then the machine is byte-for-byte unchanged,
    /// so the caller can commit and retry.
    ///
    /// In order: precompiled dispatch; end of code; decoding; the
    /// checker, with jump targets resolved against the cursor; the gas
    /// limit, memory growth included; hardfork support; the
    /// affordability check; then execution, gas accounting, and the
    /// control signal.
    #[verifier::loop_isolation(false)]
    #[verifier::rlimit(100)]
    #[verifier::spinoff_prover]
    pub fn step(&mut self) -> (r: Result<(), RequireError>)
        requires
            old(self).wf(),
            old(self).status_spec() is Running,
        ensures
            final(self).wf(),
            r is Err ==> *final(self) == *old(self),
            final(self).state_spec().context == old(self).state_spec().context,
            final(self).state_spec().block == old(self).state_spec().block,
            final(self).state_spec().depth == old(self).state_spec().depth,
            final(self).state_spec().memory_cost >= old(self).state_spec().memory_cost,
            final(self).pc_spec().code_spec() == old(self).pc_spec().code_spec(),
            ({
                let st = old(self).state_spec();
                let code = old(self).pc_spec().code_spec();
                let pos = old(self).pc_spec().position_spec();
                let sch = P::spec_schedule();
                let pre_any = precompiled_any::<P>(st.context.address.value(), st.context.code@);
                &&& (pre_any ==> r is Ok && Self::precompiled_post(*old(self), *final(self)))
                &&& (!pre_any && pos >= code.len() ==> r is Ok && final(self).status_spec()
                    is ExitedOk && final(self).state_spec() == st && final(self).pc_spec() == old(
                    self,
                ).pc_spec())
                &&& (!pre_any && pos < code.len() && !op_defined(code[pos]) ==> r is Ok
                    && final(self).status_spec() == MachineStatus::ExitedErr(
                    OnChainError::InvalidOpcode,
                ) && final(self).state_spec() == st && final(self).pc_spec() == old(
                    self,
                ).pc_spec())
                &&& forall|inst: Instruction|
                    (!pre_any && pos < code.len() && #[trigger] decodes(code, pos, inst)) ==> {
                        let o = spec_check(inst, st);
                        let mc = spec_memory_cost(inst, st);
                        let all = spec_memory_gas(mc) + st.used_gas + spec_gas_cost(inst, st, sch);
                        let after = (st.context.gas_limit - all) as u64;
                        &&& (o matches CheckOutcome::Fail(e) ==> r is Ok
                            && final(self).status_spec() == MachineStatus::ExitedErr(e)
                            && final(self).state_spec() == st && final(self).pc_spec() == old(
                            self,
                        ).pc_spec())
                        &&& (o matches CheckOutcome::NeedAccount(a) ==> (r matches Err(
                            RequireError::Account(ad),
                        ) && ad.value() == a))
                        &&& (o matches CheckOutcome::NeedCode(a) ==> (r matches Err(
                            RequireError::AccountCode(ad),
                        ) && ad.value() == a))
                        &&& (o matches CheckOutcome::NeedStorage(a, k) ==> (r matches Err(
                            RequireError::AccountStorage(ad, kw),
                        ) && ad.value() == a && kw.value() == k))
                        &&& (o matches CheckOutcome::NeedBlockhash(nb) ==> (r matches Err(
                            RequireError::Blockhash(nw),
                        ) && nw.value() == nb))
                        &&& (o is Pass && !jump_ok(o, code) ==> r is Ok
                            && final(self).status_spec() == MachineStatus::ExitedErr(
                            OnChainError::BadJumpDest,
                        ) && final(self).state_spec() == st && final(self).pc_spec() == old(
                            self,
                        ).pc_spec())
                        &&& (jump_ok(o, code) && st.context.gas_limit < all ==> r is Ok
                            && final(self).status_spec() == MachineStatus::ExitedErr(
                            OnChainError::EmptyGas,
                        ) && final(self).state_spec() == st && final(self).pc_spec() == old(
                            self,
                        ).pc_spec())
                        &&& (jump_ok(o, code) && st.context.gas_limit >= all && !P::spec_enabled(
                            inst,
                        ) ==> r is Ok && final(self).status_spec()
                            == MachineStatus::ExitedNotSupported(NotSupportedError::OpcodeDisabled)
                            && final(self).state_spec() == st && final(self).pc_spec() == old(
                            self,
                        ).pc_spec())
                        &&& (jump_ok(o, code) && st.context.gas_limit >= all && P::spec_enabled(
                            inst,
                        ) && spec_extra_check_fails(inst, st, after) ==> r is Ok
                            && final(self).status_spec() == MachineStatus::ExitedErr(
                            OnChainError::EmptyGas,
                        ) && final(self).state_spec() == st && final(self).pc_spec() == old(
                            self,
                        ).pc_spec())
                        &&& (jump_ok(o, code) && st.context.gas_limit >= all && P::spec_enabled(
                            inst,
                        ) && !spec_extra_check_fails(inst, st, after) ==> r is Ok && (exists|
                            mid: State,
                            ctl: Option<Control>,
                            pos2: usize,
                            stip2: u64,
                            after2: u64,
                        |
                            {
                                &&& #[trigger] run_rel(inst, pos2, st, mid, ctl, stip2, after2)
                                &&& pos2 == pos
                                &&& stip2 == spec_gas_stipend(inst, st, sch)
                                &&& after2 == after
                                &&& final(self).state_spec().stack == mid.stack
                                &&& final(self).state_spec().memory == mid.memory
                                &&& final(self).state_spec().out == mid.out
                                &&& final(self).state_spec().logs == mid.logs
                                &&& final(self).state_spec().account_state == mid.account_state
                                &&& final(self).state_spec().used_gas == st.used_gas
                                    + spec_gas_cost(inst, st, sch) - spec_gas_stipend(
                                    inst,
                                    st,
                                    sch,
                                )
                                &&& final(self).state_spec().memory_cost == mc
                                &&& final(self).state_spec().refunded_gas == (if st.refunded_gas
                                    + spec_gas_refund(inst, st, sch) > u64::MAX {
                                    u64::MAX as nat
                                } else {
                                    (st.refunded_gas + spec_gas_refund(inst, st, sch)) as nat
                                })
                                &&& (match ctl {
                                    None => final(self).status_spec() is Running
                                        && final(self).pc_spec().position_spec()
                                        == advanced_position(code, pos),
                                    Some(Control::Jump(w)) => final(self).status_spec()
                                        is Running && final(self).pc_spec().position_spec()
                                        == w.value(),
                                    Some(Control::Stop) => final(self).status_spec() is ExitedOk
                                        && final(self).pc_spec().position_spec()
                                        == advanced_position(code, pos),
                                    Some(Control::InvokeCreate(c)) => status_model(
                                        final(self).status_spec(),
                                    ) == StatusModel::InvokeCreate(c.model())
                                        && final(self).pc_spec().position_spec()
                                        == advanced_position(code, pos),
                                    Some(Control::InvokeCall(c, range)) => status_model(
                                        final(self).status_spec(),
                                    ) == StatusModel::InvokeCall(
                                        c.model(),
                                        (range.0.value(), range.1.value()),
                                    ) && final(self).pc_spec().position_spec()
                                        == advanced_position(code, pos),
                                })
                            }))
                    }
            }),
    {
        match &self.status {
            MachineStatus::Running => {},
            _ => {
                vstd::pervasive::unreached::<()>()
            },
        }
        if self.step_precompiled() {
            return Ok(());
        }
        if self.pc.is_end() {
            self.status = MachineStatus::ExitedOk;
            return Ok(());
        }
        let ghost code = self.pc.code_spec();
        let ghost pos = self.pc.position_spec();
        let instruction = match self.pc.peek() {
            Ok(val) => val,
            Err(err) => {
                self.status = MachineStatus::ExitedErr(err);
                return Ok(());
            },
        };
        proof {
            assert forall|inst2: Instruction| #[trigger]
                decodes(code, pos, inst2) implies inst2 == instruction by {
                crate::pc::lemma_decode_deterministic(code, pos, inst2, instruction);
            }
            assert(crate::word::pow256(8) == 0x10000000000000000) by {
                reveal_with_fuel(crate::word::pow256, 9);
            }
        }
        match check_opcode(&instruction, &self.state) {
            Ok(None) => {},
            Ok(Some(ControlCheck::Jump(dest))) => {
                let valid: bool = match dest.as_u64_checked() {
                    Some(d) => {
                        if d <= usize::MAX as u64 {
                            self.pc.is_valid(d as usize)
                        } else {
                            false
                        }
                    },
                    None => false,
                };
                if !valid {
                    self.status = MachineStatus::ExitedErr(OnChainError::BadJumpDest);
                    return Ok(());
                }
            },
            Err(EvalOnChainError::OnChain(error)) => {
                self.status = MachineStatus::ExitedErr(error);
                return Ok(());
            },
            Err(EvalOnChainError::Require(error)) => {
                return Err(error);
            },
        }
        let position = self.pc.position();
        let sch = P::schedule();
        let mc = memory_cost(&instruction, &self.state);
        let mg = memory_gas_of(mc);
        let cost = gas_cost(&instruction, &self.state, &sch);
        let stipend = gas_stipend(&instruction, &self.state, &sch);
        let refund = gas_refund(&instruction, &self.state, &sch);
        proof {
            crate::cost::lemma_gas_cost_bound(instruction, self.state, sch);
        }
        let used_plus_cost: u128 = self.state.used_gas as u128 + cost;
        let exceeded: bool = if mg > u128::MAX - used_plus_cost {
            true
        } else {
            (self.state.context.gas_limit as u128) < mg + used_plus_cost
        };
        if exceeded {
            self.status = MachineStatus::ExitedErr(OnChainError::EmptyGas);
            return Ok(());
        }
        match check_support::<P>(&instruction) {
            Ok(u) => u,
            Err(err) => {
                self.status = MachineStatus::ExitedNotSupported(err);
                return Ok(());
            },
        }
        let all: u128 = mg + used_plus_cost;
        let after_gas: u64 = ((self.state.context.gas_limit as u128) - all) as u64;
        match extra_check_opcode(&instruction, &self.state, stipend, after_gas) {
            Ok(u) => u,
            Err(err) => {
                self.status = MachineStatus::ExitedErr(err);
                return Ok(());
            },
        }
        let instruction2 = match self.pc.read() {
            Ok(val) => val,
            Err(_) => vstd::pervasive::unreached(),
        };
        proof {
            crate::pc::lemma_decode_deterministic(code, pos, instruction2, instruction);
            crate::run::lemma_memory_cost_monotone(instruction, self.state);
        }
        let result = run_opcode(&instruction2, position, &mut self.state, stipend, after_gas);
        let ghost mid = self.state;
        proof {
            assert(stipend <= cost) by {
                assert(sch.wf());
            }
            let st0 = old(self).state_spec();
            assert(run_rel(instruction, position, st0, mid, result, stipend, after_gas));
            assert(stipend == spec_gas_stipend(instruction, st0, P::spec_schedule()));
            assert(cost == spec_gas_cost(instruction, st0, P::spec_schedule()));
            assert(mc == spec_memory_cost(instruction, st0));
            assert(refund == spec_gas_refund(instruction, st0, P::spec_schedule()));
        }
        self.state.used_gas = self.state.used_gas + (cost as u64) - stipend;
        self.state.memory_cost = mc as u64;
        self.state.refunded_gas = if self.state.refunded_gas > u64::MAX - refund {
            u64::MAX
        } else {
            self.state.refunded_gas + refund
        };
        match result {
            None => Ok(()),
            Some(Control::Jump(dest)) => {
                let d = match dest.as_u64_checked() {
                    Some(d) => d,
                    None => vstd::pervasive::unreached(),
                };
                self.pc.jump(d as usize);
                Ok(())
            },
            Some(Control::InvokeCall(context, range)) => {
                self.status = MachineStatus::InvokeCall(context, range);
                Ok(())
            },
            Some(Control::InvokeCreate(context)) => {
                self.status = MachineStatus::InvokeCreate(context);
                Ok(())
            },
            Some(Control::Stop) => {
                self.status = MachineStatus::ExitedOk;
                Ok(())
            },
        }
    }

    /// What a precompiled dispatch does to the machine: everything but
    /// the gas consumed, the output and the status is untouched, the
    /// cursor included, and the first matching entry's routine decides
    /// the terminal outcome exactly. The gas consumed never exceeds the
    /// frame's gas limit.
    pub open spec fn precompiled_post(pre: Machine<P>, post: Machine<P>) -> bool {
        let st = pre.state_spec();
        &&& post.state_spec().stack == st.stack
        &&& post.state_spec().memory == st.memory
        &&& post.state_spec().context == st.context
        &&& post.state_spec().block == st.block
        &&& post.state_spec().memory_cost == st.memory_cost
        &&& post.state_spec().refunded_gas == st.refunded_gas
        &&& post.state_spec().account_state == st.account_state
        &&& post.state_spec().blockhash_state == st.blockhash_state
        &&& post.state_spec().logs == st.logs
        &&& post.state_spec().removed == st.removed
        &&& post.state_spec().depth == st.depth
        &&& post.pc_spec() == pre.pc_spec()
        &&& post.state_spec().used_gas <= st.context.gas_limit
        &&& exists|i: int|
            {
                &&& #[trigger] precompiled_matches_at::<P>(
                    i,
                    st.context.address.value(),
                    st.context.code@,
                )
                &&& forall|j: int|
                    0 <= j < i ==> !precompiled_matches_at::<P>(
                        j,
                        st.context.address.value(),
                        st.context.code@,
                    )
                &&& match P::spec_precompiled_kind(i) {
                    PrecompiledKind::Identity => {
                        &&& identity_gas(st.context.data@.len()) <= st.context.gas_limit ==> {
                            &&& post.status_spec() is ExitedOk
                            &&& post.state_spec().used_gas == identity_gas(st.context.data@.len())
                            &&& post.state_spec().out@ == st.context.data@
                        }
                        &&& identity_gas(st.context.data@.len()) > st.context.gas_limit ==> {
                            &&& post.status_spec() == MachineStatus::ExitedErr(
                                OnChainError::EmptyGas,
                            )
                            &&& post.state_spec().used_gas == st.context.gas_limit
                            &&& post.state_spec().out == st.out
                        }
                    },
                }
            }
    }

    /// Try the precompiled dispatch: when the frame's address is bound to
    /// a precompiled entry of the rule set, run it directly, bypassing
    /// the cursor, and translate its result into a terminal status.
    /// Returns whether such an entry matched; without a match the machine
    /// is untouched.
    pub fn step_precompiled(&mut self) -> (r: bool)
        requires
            old(self).wf(),
            old(self).status_spec() is Running,
        ensures
            final(self).wf(),
            r == precompiled_any::<P>(
                old(self).state_spec().context.address.value(),
                old(self).state_spec().context.code@,
            ),
            !r ==> *final(self) == *old(self),
            r ==> Self::precompiled_post(*old(self), *final(self)),
    {
        let entries = P::precompileds();
        let mut i: usize = 0;
        while i < entries.len()
            invariant
                old(self).wf(),
                *self == *old(self),
                0 <= i <= entries@.len(),
                entries@.len() == P::spec_precompiled_len(),
                forall|j: int|
                    0 <= j < entries@.len() ==> {
                        &&& (#[trigger] entries@[j]).address.value()
                            == P::spec_precompiled_address(j)
                        &&& match entries@[j].required_code {
                            Some(c) => P::spec_precompiled_code(j) == Some(c@),
                            None => P::spec_precompiled_code(j) is None,
                        }
                        &&& entries@[j].kind == P::spec_precompiled_kind(j)
                    },
                forall|j: int|
                    0 <= j < i ==> !(#[trigger] precompiled_matches_at::<P>(
                        j,
                        old(self).state_spec().context.address.value(),
                        old(self).state_spec().context.code@,
                    )),
            decreases entries@.len() - i,
        {
            let entry = &entries[i];
            let addr_matches = self.state.context.address.eq_address(&entry.address);
            let code_matches: bool = match &entry.required_code {
                None => true,
                Some(c) => bytes_eq(c, self.pc.code()),
            };
            if addr_matches && code_matches {
                proof {
                    assert(precompiled_matches_at::<P>(
                        i as int,
                        old(self).state_spec().context.address.value(),
                        old(self).state_spec().context.code@,
                    ));
                }
                match run_precompiled(&entry.kind, &self.state.context.data, self.state.context.gas_limit) {
                    Err(RuntimeError::OnChain(err)) => {
                        self.state.used_gas = self.state.context.gas_limit;
                        self.status = MachineStatus::ExitedErr(err);
                    },
                    Err(RuntimeError::NotSupported(_)) => {
                        vstd::pervasive::unreached::<()>()
                    },
                    Ok((gas, ret)) => {
                        self.state.used_gas = gas;
                        self.state.out = ret;
                        self.status = MachineStatus::ExitedOk;
                    },
                }
                return true;
            }
            i = i + 1;
        }
        proof {
            if precompiled_any::<P>(
                old(self).state_spec().context.address.value(),
                old(self).state_spec().context.code@,
            ) {
                let j = choose|j: int|
                    precompiled_matches_at::<P>(
                        j,
                        old(self).state_spec().context.address.value(),
                        old(self).state_spec().context.code@,
                    );
                assert(false);
            }
        }
        false
    }
}

} // verus!
