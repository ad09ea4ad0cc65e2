//! Per-frame call context, block header environment, and execution logs,
//! with the mathematical models their contracts speak of.
use vstd::prelude::*;
use crate::word::{Address, Word};
use crate::util::{copy_bytes, copy_words};

verus! {

/// Immutable per-frame inputs: who executes what, with which value, input
/// data, code and gas, plus the transaction-level origin and gas price.
pub struct Context {
    /// The executing address.
    pub address: Address,
    /// The direct caller.
    pub caller: Address,
    /// The value transferred into this frame.
    pub value: Word,
    /// The call input data.
    pub data: Vec<u8>,
    /// The executable code.
    pub code: Vec<u8>,
    /// The gas limit of this frame.
    pub gas_limit: u64,
    /// The transaction-level originator.
    pub origin: Address,
    /// The transaction-level gas price.
    pub gas_price: Word,
}

/// Mathematical model of a context.
#[verifier::ext_equal]
pub ghost struct ContextModel {
    pub address: nat,
    pub caller: nat,
    pub value: nat,
    pub data: Seq<u8>,
    pub code: Seq<u8>,
    pub gas_limit: nat,
    pub origin: nat,
    pub gas_price: nat,
}

impl Context {
    /// The model of this context.
    pub open spec fn model(self) -> ContextModel {
        ContextModel {
            address: self.address.value(),
            caller: self.caller.value(),
            value: self.value.value(),
            data: self.data@,
            code: self.code@,
            gas_limit: self.gas_limit as nat,
            origin: self.origin.value(),
            gas_price: self.gas_price.value(),
        }
    }

    /// The code must leave room for cursor arithmetic, and the gas limit
    /// for stipend arithmetic. The gas-limit bound is a modelling limit
    /// of this library's 64-bit gas accounting, far above any gas limit
    /// a block allows.
    pub open spec fn wf(self) -> bool {
        &&& self.code@.len() + 34 <= usize::MAX
        &&& self.gas_limit <= 0x8000000000000000
    }

    /// A value-identical copy.
    pub fn duplicate(&self) -> (r: Context)
        ensures
            r.model() =~= self.model(),
            r.wf() == self.wf(),
    {
        Context {
            address: self.address,
            caller: self.caller,
            value: self.value,
            data: copy_bytes(&self.data),
            code: copy_bytes(&self.code),
            gas_limit: self.gas_limit,
            origin: self.origin,
            gas_price: self.gas_price,
        }
    }
}

/// Block-level environment, shared read-only across a call tree.
pub struct HeaderParams {
    /// The block's beneficiary address.
    pub beneficiary: Address,
    /// The block's timestamp.
    pub timestamp: Word,
    /// The block's number.
    pub number: Word,
    /// The block's difficulty.
    pub difficulty: Word,
    /// The block-level gas limit.
    pub gas_limit: Word,
}

/// Mathematical model of a block header environment.
#[verifier::ext_equal]
pub ghost struct HeaderModel {
    pub beneficiary: nat,
    pub timestamp: nat,
    pub number: nat,
    pub difficulty: nat,
    pub gas_limit: nat,
}

impl HeaderParams {
    /// The model of this header.
    pub open spec fn model(self) -> HeaderModel {
        HeaderModel {
            beneficiary: self.beneficiary.value(),
            timestamp: self.timestamp.value(),
            number: self.number.value(),
            difficulty: self.difficulty.value(),
            gas_limit: self.gas_limit.value(),
        }
    }

    /// A value-identical copy.
    pub fn duplicate(&self) -> (r: HeaderParams)
        ensures
            r.model() =~= self.model(),
    {
        HeaderParams {
            beneficiary: self.beneficiary,
            timestamp: self.timestamp,
            number: self.number,
            difficulty: self.difficulty,
            gas_limit: self.gas_limit,
        }
    }
}

/// One log entry: emitting address, ordered topics, opaque data.
pub struct Log {
    pub address: Address,
    pub topics: Vec<Word>,
    pub data: Vec<u8>,
}

/// Mathematical model of a log entry.
#[verifier::ext_equal]
pub ghost struct LogModel {
    pub address: nat,
    pub topics: Seq<nat>,
    pub data: Seq<u8>,
}

impl Log {
    /// The model of this log entry.
    pub open spec fn model(self) -> LogModel {
        LogModel {
            address: self.address.value(),
            topics: Seq::new(self.topics@.len(), |i: int| self.topics@[i].value()),
            data: self.data@,
        }
    }

    /// A value-identical copy.
    pub fn duplicate(&self) -> (r: Log)
        ensures
            r.model() =~= self.model(),
    {
        Log {
            address: self.address,
            topics: copy_words(&self.topics),
            data: copy_bytes(&self.data),
        }
    }
}

/// The model of a sequence of log entries.
pub open spec fn logs_model(s: Seq<Log>) -> Seq<LogModel> {
    Seq::new(s.len(), |i: int| s[i].model())
}

/// The model of a sequence of removed addresses.
pub open spec fn removed_model(s: Seq<Address>) -> Seq<nat> {
    Seq::new(s.len(), |i: int| s[i].value())
}

/// An element-wise copy of a log vector.
pub fn copy_logs(v: &Vec<Log>) -> (r: Vec<Log>)
    ensures
        logs_model(r@) =~~= logs_model(v@),
{
    let mut out: Vec<Log> = Vec::new();
    let mut i: usize = 0;
    while i < v.len()
        invariant
            0 <= i <= v@.len(),
            out@.len() == i,
            forall|j: int| 0 <= j < i ==> (#[trigger] out@[j]).model() =~~= v@[j].model(),
        decreases v@.len() - i,
    {
        let entry = Log {
            address: v[i].address,
            topics: copy_words(&v[i].topics),
            data: copy_bytes(&v[i].data),
        };
        out.push(entry);
        i = i + 1;
    }
    proof {
        assert forall|j: int| 0 <= j < v@.len() implies logs_model(out@)[j] =~~= logs_model(v@)[j]
        by {
            assert(out@[j].model() =~~= v@[j].model());
        }
    }
    out
}

/// An element-wise copy of an address vector.
pub fn copy_addresses(v: &Vec<Address>) -> (r: Vec<Address>)
    ensures
        r@ =~= v@,
{
    let mut out: Vec<Address> = Vec::new();
    let mut i: usize = 0;
    while i < v.len()
        invariant
            0 <= i <= v@.len(),
            out@.len() == i,
            forall|j: int| 0 <= j < i ==> out@[j] == v@[j],
        decreases v@.len() - i,
    {
        out.push(v[i]);
        i = i + 1;
    }
    out
}

} // verus!
