//! The hardfork rule set: a strategy interface supplying the gas-cost
//! schedule, the enabled-instruction predicate, and the ordered list of
//! precompiled contracts, plus two embedded rule sets.
use vstd::prelude::*;
use crate::word::{Address, Word};
use crate::pc::Instruction;
use crate::errors::{OnChainError, RuntimeError};
use crate::util::copy_bytes;

verus! {

/// The gas-cost schedule of one rule set.
#[derive(Clone, Copy, Debug, PartialEq, Eq, Structural)]
pub struct CostSchedule {
    /// Cost of the cheapest instructions.
    pub g_base: u64,
    /// Cost of very cheap instructions.
    pub g_verylow: u64,
    /// Cost of cheap instructions.
    pub g_low: u64,
    /// Cost of middling instructions.
    pub g_mid: u64,
    /// Cost of expensive instructions.
    pub g_high: u64,
    /// Cost of a balance read.
    pub g_balance: u64,
    /// Cost of a storage read.
    pub g_sload: u64,
    /// Cost of setting a storage slot from zero to non-zero.
    pub g_sstore_set: u64,
    /// Cost of any other storage write.
    pub g_sstore_reset: u64,
    /// Refund for clearing a storage slot.
    pub r_sclear: u64,
    /// Cost of the jump-destination marker.
    pub g_jumpdest: u64,
    /// Cost of a block-hash read.
    pub g_blockhash: u64,
    /// Base cost of a call.
    pub g_call: u64,
    /// Surcharge for a value-transferring call.
    pub g_callvalue: u64,
    /// Allowance forwarded to a value-receiving callee.
    pub g_callstipend: u64,
    /// Surcharge for touching an account that does not exist.
    pub g_newaccount: u64,
    /// Cost of a contract creation.
    pub g_create: u64,
    /// Base cost of a log.
    pub g_log: u64,
    /// Cost per logged byte.
    pub g_logdata: u64,
    /// Cost per log topic.
    pub g_logtopic: u64,
}

impl CostSchedule {
    /// Every fee is small enough that no per-instruction cost formula
    /// can overflow its arithmetic.
    pub open spec fn wf(self) -> bool {
        &&& self.g_base <= 0x100000000
        &&& self.g_verylow <= 0x100000000
        &&& self.g_low <= 0x100000000
        &&& self.g_mid <= 0x100000000
        &&& self.g_high <= 0x100000000
        &&& self.g_balance <= 0x100000000
        &&& self.g_sload <= 0x100000000
        &&& self.g_sstore_set <= 0x100000000
        &&& self.g_sstore_reset <= 0x100000000
        &&& self.r_sclear <= 0x100000000
        &&& self.g_jumpdest <= 0x100000000
        &&& self.g_blockhash <= 0x100000000
        &&& self.g_call <= 0x100000000
        &&& self.g_callvalue <= 0x100000000
        &&& self.g_callstipend <= 0x100000000
        &&& self.g_newaccount <= 0x100000000
        &&& self.g_create <= 0x100000000
        &&& self.g_log <= 0x100000000
        &&& self.g_logdata <= 0x100000000
        &&& self.g_logtopic <= 0x100000000
        &&& self.g_callstipend <= self.g_call + self.g_callvalue
    }
}

/// One entry of a rule set's precompiled-contract list: an address, an
/// optional exact code the frame must carry, and the built-in routine.
pub struct PrecompiledEntry {
    pub address: Address,
    pub required_code: Option<Vec<u8>>,
    pub kind: PrecompiledKind,
}

/// The built-in routines a rule set can bind to an address.
#[derive(Clone, Copy, Debug, PartialEq, Eq)]
pub enum PrecompiledKind {
    /// Returns its input unchanged.
    Identity,
}

/// The gas an identity-precompile run costs: a base fee plus a per-word
/// fee on the input.
pub open spec fn identity_gas(len: nat) -> nat {
    15 + 3 * ((len + 31) / 32)
}

/// Run a precompiled routine on input bytes under a gas allowance.
/// Returns the gas consumed and the output, or an on-chain failure when
/// the allowance cannot cover the cost.
pub fn run_precompiled(kind: &PrecompiledKind, data: &Vec<u8>, gas_limit: u64) -> (r: Result<
    (u64, Vec<u8>),
    RuntimeError,
>)
    ensures
        match *kind {
            PrecompiledKind::Identity => {
                &&& identity_gas(data@.len()) <= gas_limit ==> (r matches Ok((g, out)) && g
                    == identity_gas(data@.len()) && out@ == data@)
                &&& identity_gas(data@.len()) > gas_limit ==> r == Err::<
                    (u64, Vec<u8>),
                    RuntimeError,
                >(RuntimeError::OnChain(OnChainError::EmptyGas))
            },
        },
        r matches Ok((g, out)) ==> g <= gas_limit,
{
    match *kind {
        PrecompiledKind::Identity => {
            let len = data.len();
            let words: u128 = ((len as u128) + 31) / 32;
            let gas: u128 = 15 + 3 * words;
            proof {
                assert(gas == identity_gas(data@.len()));
            }
            if gas > gas_limit as u128 {
                Err(RuntimeError::OnChain(OnChainError::EmptyGas))
            } else {
                Ok(((gas as u64), copy_bytes(data)))
            }
        },
    }
}

/// A hardfork rule set: gas costs, the enabled-instruction predicate, and
/// the ordered precompiled-contract list.
pub trait Patch {
    /// The gas-cost schedule, as a specification.
    spec fn spec_schedule() -> CostSchedule;

    /// Whether an instruction is enabled, as a specification.
    spec fn spec_enabled(inst: Instruction) -> bool;

    /// The number of precompiled entries, as a specification.
    spec fn spec_precompiled_len() -> nat;

    /// The address of one precompiled entry, as a specification.
    spec fn spec_precompiled_address(i: int) -> nat;

    /// The code gate of one precompiled entry, as a specification.
    spec fn spec_precompiled_code(i: int) -> Option<Seq<u8>>;

    /// The routine of one precompiled entry, as a specification.
    spec fn spec_precompiled_kind(i: int) -> PrecompiledKind;

    /// The gas-cost schedule. Its fees are bounded so that cost
    /// formulas cannot overflow.
    fn schedule() -> (r: CostSchedule)
        ensures
            r == Self::spec_schedule(),
            r.wf(),
    ;

    /// Whether an instruction is enabled under this rule set.
    fn enabled(inst: &Instruction) -> (r: bool)
        ensures
            r == Self::spec_enabled(*inst),
    ;

    /// The ordered list of precompiled contracts.
    fn precompileds() -> (r: Vec<PrecompiledEntry>)
        ensures
            r@.len() == Self::spec_precompiled_len(),
            forall|i: int|
                0 <= i < r@.len() ==> {
                    &&& (#[trigger] r@[i]).address.value() == Self::spec_precompiled_address(i)
                    &&& match r@[i].required_code {
                        Some(c) => Self::spec_precompiled_code(i) == Some(c@),
                        None => Self::spec_precompiled_code(i) is None,
                    }
                    &&& r@[i].kind == Self::spec_precompiled_kind(i)
                },
    ;
}

/// The cost schedule both embedded rule sets use.
pub open spec fn spec_default_schedule() -> CostSchedule {
    CostSchedule {
        g_base: 2,
        g_verylow: 3,
        g_low: 5,
        g_mid: 8,
        g_high: 10,
        g_balance: 20,
        g_sload: 50,
        g_sstore_set: 20000,
        g_sstore_reset: 5000,
        r_sclear: 15000,
        g_jumpdest: 1,
        g_blockhash: 20,
        g_call: 40,
        g_callvalue: 9000,
        g_callstipend: 2300,
        g_newaccount: 25000,
        g_create: 32000,
        g_log: 375,
        g_logdata: 8,
        g_logtopic: 375,
    }
}

/// The default rule set: every decoded instruction enabled, and the
/// identity routine bound to its conventional address.
pub struct DefaultPatch;

impl Patch for DefaultPatch {
    open spec fn spec_schedule() -> CostSchedule {
        spec_default_schedule()
    }

    open spec fn spec_enabled(inst: Instruction) -> bool {
        true
    }

    open spec fn spec_precompiled_len() -> nat {
        1
    }

    open spec fn spec_precompiled_address(i: int) -> nat {
        4
    }

    open spec fn spec_precompiled_code(i: int) -> Option<Seq<u8>> {
        None
    }

    open spec fn spec_precompiled_kind(i: int) -> PrecompiledKind {
        PrecompiledKind::Identity
    }

    fn schedule() -> (r: CostSchedule) {
        CostSchedule {
            g_base: 2,
            g_verylow: 3,
            g_low: 5,
            g_mid: 8,
            g_high: 10,
            g_balance: 20,
            g_sload: 50,
            g_sstore_set: 20000,
            g_sstore_reset: 5000,
            r_sclear: 15000,
            g_jumpdest: 1,
            g_blockhash: 20,
            g_call: 40,
            g_callvalue: 9000,
            g_callstipend: 2300,
            g_newaccount: 25000,
            g_create: 32000,
            g_log: 375,
            g_logdata: 8,
            g_logtopic: 375,
        }
    }

    fn enabled(inst: &Instruction) -> (r: bool) {
        true
    }

    fn precompileds() -> (r: Vec<PrecompiledEntry>) {
        let mut v: Vec<PrecompiledEntry> = Vec::new();
        v.push(
            PrecompiledEntry {
                address: Address::from_u64(4),
                required_code: None,
                kind: PrecompiledKind::Identity,
            },
        );
        v
    }
}

/// An embedded rule set: no nested calls, no creation, and no precompiled
/// contracts, for hosts that run single frames only.
pub struct EmbeddedPatch;

impl Patch for EmbeddedPatch {
    open spec fn spec_schedule() -> CostSchedule {
        spec_default_schedule()
    }

    open spec fn spec_enabled(inst: Instruction) -> bool {
        !(inst matches Instruction::Call) && !(inst matches Instruction::Create)
    }

    open spec fn spec_precompiled_len() -> nat {
        0
    }

    open spec fn spec_precompiled_address(i: int) -> nat {
        0
    }

    open spec fn spec_precompiled_code(i: int) -> Option<Seq<u8>> {
        None
    }

    open spec fn spec_precompiled_kind(i: int) -> PrecompiledKind {
        PrecompiledKind::Identity
    }

    fn schedule() -> (r: CostSchedule) {
        CostSchedule {
            g_base: 2,
            g_verylow: 3,
            g_low: 5,
            g_mid: 8,
            g_high: 10,
            g_balance: 20,
            g_sload: 50,
            g_sstore_set: 20000,
            g_sstore_reset: 5000,
            r_sclear: 15000,
            g_jumpdest: 1,
            g_blockhash: 20,
            g_call: 40,
            g_callvalue: 9000,
            g_callstipend: 2300,
            g_newaccount: 25000,
            g_create: 32000,
            g_log: 375,
            g_logdata: 8,
            g_logtopic: 375,
        }
    }

    fn enabled(inst: &Instruction) -> (r: bool) {
        match *inst {
            Instruction::Call => false,
            Instruction::Create => false,
            _ => true,
        }
    }

    fn precompileds() -> (r: Vec<PrecompiledEntry>) {
        Vec::new()
    }
}

} // verus!
