//! Core of a deterministic stack-machine bytecode interpreter: a code cursor
//! with jump-target validation, a bounded value stack, growable word-aligned
//! memory with its gas cost model, lazily committed external account and
//! block-hash data, and the orchestrating state machine stepped one
//! instruction at a time.
pub mod check;
pub mod commit;
pub mod context;
pub mod cost;
pub mod errors;
pub mod machine;
pub mod memory;
pub mod patch;
pub mod pc;
pub mod run;
pub mod stack;
pub mod util;
pub mod word;

pub use commit::{AccountCommitment, AccountState, BlockhashState};
pub use context::{Context, HeaderParams, Log};
pub use errors::{CommitError, EvalOnChainError, NotSupportedError, OnChainError, RequireError,
    RuntimeError};
pub use machine::{Control, ControlCheck, Machine, MachineStatus, State};
pub use memory::Memory;
pub use patch::{CostSchedule, DefaultPatch, EmbeddedPatch, Patch};
pub use pc::{Instruction, PC};
pub use stack::Stack;
pub use word::{Address, Word};
