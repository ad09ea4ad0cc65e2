//! The disjoint error kinds of the machine: recoverable requirements for
//! missing external facts, protocol-defined on-chain failures, hardfork
//! support gaps, and commitment conflicts.
use vstd::prelude::*;
use crate::word::{Address, Word};

verus! {

/// A protocol-defined execution failure. It terminates the machine.
#[derive(Clone, Copy, Debug, PartialEq, Eq)]
pub enum OnChainError {
    /// Pop or peek on a stack without enough items.
    StackUnderflow,
    /// Push beyond the stack capacity.
    StackOverflow,
    /// A jump to an offset that is not a live jump-destination marker.
    BadJumpDest,
    /// A byte that does not decode to any instruction.
    InvalidOpcode,
    /// The gas limit cannot cover the next instruction's cost.
    EmptyGas,
}

/// An instruction that is protocol-valid but disabled under the active
/// hardfork rule set. Distinct from an on-chain failure.
#[derive(Clone, Copy, Debug, PartialEq, Eq)]
pub enum NotSupportedError {
    /// The rule set does not enable the instruction at this code offset.
    OpcodeDisabled,
}

/// An external fact that must be committed before the step can proceed.
/// The machine state is unchanged when this is signalled.
#[derive(Clone, Copy, Debug, PartialEq, Eq)]
pub enum RequireError {
    /// The account's balance, nonce and code are needed.
    Account(Address),
    /// One storage slot of the account is needed.
    AccountStorage(Address, Word),
    /// The account's code is needed.
    AccountCode(Address),
    /// The hash of the block with the given number is needed.
    Blockhash(Word),
}

/// A newly supplied fact conflicts with one already recorded for the key.
#[derive(Clone, Copy, Debug, PartialEq, Eq)]
pub enum CommitError {
    AlreadyCommitted,
}

/// Outcome classification for a precompiled contract run.
#[derive(Clone, Copy, Debug, PartialEq, Eq)]
pub enum RuntimeError {
    OnChain(OnChainError),
    NotSupported(NotSupportedError),
}

/// What the precondition checker can signal: an on-chain failure, or a
/// requirement for an external fact.
#[derive(Clone, Copy, Debug, PartialEq, Eq)]
pub enum EvalOnChainError {
    OnChain(OnChainError),
    Require(RequireError),
}

} // verus!
