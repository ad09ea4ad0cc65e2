//! The code cursor: holds the executable byte sequence, tracks the current
//! position, decodes instructions, and validates jump targets against a
//! linear pre-scan that separates instruction starts from the bytes of
//! push-immediate operands.
use vstd::prelude::*;
use crate::word::{lemma_word_bytes_eq, Word};
use crate::errors::OnChainError;

verus! {

/// Opcode of the jump-destination marker.
pub const JUMPDEST_OPCODE: u8 = 0x5b;

/// One decoded instruction.
#[derive(Clone, Copy, Debug, PartialEq, Eq)]
pub enum Instruction {
    Stop,
    Add,
    Mul,
    Sub,
    Div,
    Mod,
    Lt,
    Gt,
    Eq,
    IsZero,
    And,
    Or,
    Xor,
    Not,
    Byte,
    Address,
    Balance,
    Origin,
    Caller,
    CallValue,
    CallDataLoad,
    CallDataSize,
    Blockhash,
    Coinbase,
    Timestamp,
    Number,
    Difficulty,
    GasLimit,
    Pop,
    MLoad,
    MStore,
    MStore8,
    SLoad,
    SStore,
    Jump,
    JumpI,
    Pc,
    MSize,
    Gas,
    JumpDest,
    /// A push of the following `n` immediate bytes, already decoded into a
    /// word; `1 <= n <= 32`.
    Push(usize, Word),
    /// Duplicate the `n`-th item from the top; `1 <= n <= 16`.
    Dup(usize),
    /// Swap the top with the `n + 1`-th item; `1 <= n <= 16`.
    Swap(usize),
    /// Append a log with `n` topics; `0 <= n <= 4`.
    Log(usize),
    Create,
    Call,
    Return,
}

/// The payload ranges a decoded instruction can carry.
pub open spec fn inst_wf(inst: Instruction) -> bool {
    match inst {
        Instruction::Push(n, _) => 1 <= n <= 32,
        Instruction::Dup(n) => 1 <= n <= 16,
        Instruction::Swap(n) => 1 <= n <= 16,
        Instruction::Log(n) => n <= 4,
        _ => true,
    }
}

/// Whether the byte is a push opcode.
pub open spec fn is_push_op(b: u8) -> bool {
    0x60 <= b <= 0x7f
}

/// How many immediate bytes follow the opcode.
pub open spec fn op_immediate_len(b: u8) -> nat {
    if is_push_op(b) {
        (b - 0x5f) as nat
    } else {
        0
    }
}

/// The decoding of every opcode that carries no immediate.
pub open spec fn decode_simple(b: u8) -> Option<Instruction> {
    if b == 0x00 {
        Some(Instruction::Stop)
    } else if b == 0x01 {
        Some(Instruction::Add)
    } else if b == 0x02 {
        Some(Instruction::Mul)
    } else if b == 0x03 {
        Some(Instruction::Sub)
    } else if b == 0x04 {
        Some(Instruction::Div)
    } else if b == 0x06 {
        Some(Instruction::Mod)
    } else if b == 0x10 {
        Some(Instruction::Lt)
    } else if b == 0x11 {
        Some(Instruction::Gt)
    } else if b == 0x14 {
        Some(Instruction::Eq)
    } else if b == 0x15 {
        Some(Instruction::IsZero)
    } else if b == 0x16 {
        Some(Instruction::And)
    } else if b == 0x17 {
        Some(Instruction::Or)
    } else if b == 0x18 {
        Some(Instruction::Xor)
    } else if b == 0x19 {
        Some(Instruction::Not)
    } else if b == 0x1a {
        Some(Instruction::Byte)
    } else if b == 0x30 {
        Some(Instruction::Address)
    } else if b == 0x31 {
        Some(Instruction::Balance)
    } else if b == 0x32 {
        Some(Instruction::Origin)
    } else if b == 0x33 {
        Some(Instruction::Caller)
    } else if b == 0x34 {
        Some(Instruction::CallValue)
    } else if b == 0x35 {
        Some(Instruction::CallDataLoad)
    } else if b == 0x36 {
        Some(Instruction::CallDataSize)
    } else if b == 0x40 {
        Some(Instruction::Blockhash)
    } else if b == 0x41 {
        Some(Instruction::Coinbase)
    } else if b == 0x42 {
        Some(Instruction::Timestamp)
    } else if b == 0x43 {
        Some(Instruction::Number)
    } else if b == 0x44 {
        Some(Instruction::Difficulty)
    } else if b == 0x45 {
        Some(Instruction::GasLimit)
    } else if b == 0x50 {
        Some(Instruction::Pop)
    } else if b == 0x51 {
        Some(Instruction::MLoad)
    } else if b == 0x52 {
        Some(Instruction::MStore)
    } else if b == 0x53 {
        Some(Instruction::MStore8)
    } else if b == 0x54 {
        Some(Instruction::SLoad)
    } else if b == 0x55 {
        Some(Instruction::SStore)
    } else if b == 0x56 {
        Some(Instruction::Jump)
    } else if b == 0x57 {
        Some(Instruction::JumpI)
    } else if b == 0x58 {
        Some(Instruction::Pc)
    } else if b == 0x59 {
        Some(Instruction::MSize)
    } else if b == 0x5a {
        Some(Instruction::Gas)
    } else if b == 0x5b {
        Some(Instruction::JumpDest)
    } else if 0x80 <= b <= 0x8f {
        Some(Instruction::Dup((b - 0x7f) as usize))
    } else if 0x90 <= b <= 0x9f {
        Some(Instruction::Swap((b - 0x8f) as usize))
    } else if 0xa0 <= b <= 0xa4 {
        Some(Instruction::Log((b - 0xa0) as usize))
    } else if b == 0xf0 {
        Some(Instruction::Create)
    } else if b == 0xf1 {
        Some(Instruction::Call)
    } else if b == 0xf3 {
        Some(Instruction::Return)
    } else {
        None
    }
}

/// Whether the byte decodes to an instruction at all.
pub open spec fn op_defined(b: u8) -> bool {
    is_push_op(b) || decode_simple(b) is Some
}

/// The 32 bytes a push at `p` loads: its immediate bytes right-aligned,
/// with missing bytes (past the code end) read as zero.
pub open spec fn push_word_bytes(code: Seq<u8>, p: int, n: int) -> Seq<u8> {
    Seq::new(
        32,
        |i: int|
            if i < 32 - n {
                0u8
            } else if p + 1 + (i - (32 - n)) < code.len() {
                code[p + 1 + (i - (32 - n))]
            } else {
                0u8
            },
    )
}

/// Whether `inst` is the decoding of the code at position `p`.
pub open spec fn decodes(code: Seq<u8>, p: int, inst: Instruction) -> bool {
    &&& 0 <= p < code.len()
    &&& if is_push_op(code[p]) {
        inst matches Instruction::Push(n, w) && n == op_immediate_len(code[p]) && w.bytes@
            == push_word_bytes(code, p, n as int)
    } else {
        decode_simple(code[p]) == Some(inst)
    }
}

/// A position decodes to at most one instruction.
pub proof fn lemma_decode_deterministic(code: Seq<u8>, p: int, i1: Instruction, i2: Instruction)
    requires
        decodes(code, p, i1),
        decodes(code, p, i2),
    ensures
        i1 == i2,
{
    if is_push_op(code[p]) {
        match i1 {
            Instruction::Push(na, wa) => {
                match i2 {
                    Instruction::Push(nb, wb) => {
                        assert(na == nb);
                        assert(wa.bytes@ == wb.bytes@);
                        lemma_word_bytes_eq(wa, wb);
                    },
                    _ => {
                        assert(false);
                    },
                }
            },
            _ => {
                assert(false);
            },
        }
    }
}

/// Where the linear scan stands after leaving position `p`.
pub open spec fn scan_next(code: Seq<u8>, p: int) -> int {
    if 0 <= p < code.len() {
        p + 1 + op_immediate_len(code[p])
    } else {
        p + 1
    }
}

/// The position of the linear scan after `k` steps from the start.
pub open spec fn scan_pos(code: Seq<u8>, k: nat) -> int
    decreases k,
{
    if k == 0 {
        0
    } else {
        scan_next(code, scan_pos(code, (k - 1) as nat))
    }
}

/// Whether offset `i` is live: an instruction start reached by the scan,
/// not a byte inside a push immediate.
pub open spec fn live(code: Seq<u8>, i: int) -> bool {
    exists|k: nat| scan_pos(code, k) == i
}

/// Whether offset `i` is a valid jump destination: in bounds, live, and
/// holding the jump-destination marker.
pub open spec fn valid_dest(code: Seq<u8>, i: int) -> bool {
    &&& 0 <= i < code.len()
    &&& live(code, i)
    &&& code[i] == JUMPDEST_OPCODE
}

/// The scan moves strictly forward.
pub proof fn lemma_scan_pos_increases(code: Seq<u8>, k1: nat, k2: nat)
    requires
        k1 < k2,
    ensures
        scan_pos(code, k1) < scan_pos(code, k2),
    decreases k2,
{
    if k2 == k1 + 1 {
        assert(scan_pos(code, k2) == scan_next(code, scan_pos(code, k1)));
    } else {
        lemma_scan_pos_increases(code, k1, (k2 - 1) as nat);
        assert(scan_pos(code, k2) == scan_next(code, scan_pos(code, (k2 - 1) as nat)));
    }
}

/// A byte inside a push-immediate operand is never live, and so never a
/// valid jump target, even when its value equals the jump-destination
/// marker opcode.
pub proof fn lemma_push_data_never_destination(code: Seq<u8>, j: int, i: int)
    requires
        live(code, j),
        0 <= j < code.len(),
        is_push_op(code[j]),
        j < i <= j + op_immediate_len(code[j]),
    ensures
        !live(code, i),
        !valid_dest(code, i),
{
    if live(code, i) {
        let kj = choose|k: nat| scan_pos(code, k) == j;
        let ki = choose|k: nat| scan_pos(code, k) == i;
        if ki <= kj {
            if ki < kj {
                lemma_scan_pos_increases(code, ki, kj);
            }
            assert(false);
        } else {
            assert(scan_pos(code, kj + 1) == scan_next(code, j));
            assert(scan_next(code, j) == j + 1 + op_immediate_len(code[j]));
            if ki > kj + 1 {
                lemma_scan_pos_increases(code, kj + 1, ki);
            }
            assert(scan_pos(code, ki) >= j + 1 + op_immediate_len(code[j]));
            assert(false);
        }
    }
}

/// The code cursor. Holds the executable bytes, the current position, and
/// the pre-computed liveness of every offset.
pub struct PC {
    code: Vec<u8>,
    position: usize,
    valids: Vec<bool>,
}

impl PC {
    /// The executable byte sequence.
    pub closed spec fn code_spec(self) -> Seq<u8> {
        self.code@
    }

    /// The current position.
    pub closed spec fn position_spec(self) -> int {
        self.position as int
    }

    /// The cursor is well formed: the liveness table mirrors the scan, the
    /// position stays within the code, and the code leaves room for
    /// position arithmetic.
    pub open spec fn wf(self) -> bool {
        &&& self.valids_spec().len() == self.code_spec().len()
        &&& forall|i: int|
            0 <= i < self.code_spec().len() ==> (self.valids_spec()[i] <==> live(
                self.code_spec(),
                i,
            ))
        &&& 0 <= self.position_spec() <= self.code_spec().len()
        &&& self.code_spec().len() + 34 <= usize::MAX
    }

    /// The pre-computed liveness of every offset.
    pub closed spec fn valids_spec(self) -> Seq<bool> {
        self.valids@
    }

    /// Build a cursor over a copy of `code`, with the liveness of every
    /// offset computed by one linear scan.
    pub fn new(code: &Vec<u8>) -> (r: PC)
        requires
            code@.len() + 34 <= usize::MAX,
        ensures
            r.wf(),
            r.code_spec() =~= code@,
            r.position_spec() == 0,
    {
        let n = code.len();
        let mut own: Vec<u8> = Vec::new();
        let mut ci: usize = 0;
        while ci < n
            invariant
                0 <= ci <= n,
                n == code@.len(),
                own@.len() == ci,
                forall|i: int| 0 <= i < ci ==> own@[i] == code@[i],
            decreases n - ci,
        {
            own.push(code[ci]);
            ci = ci + 1;
        }
        proof {
            assert(own@ =~= code@);
        }
        let mut valids: Vec<bool> = Vec::new();
        let mut vi: usize = 0;
        while vi < n
            invariant
                0 <= vi <= n,
                valids@.len() == vi,
                forall|i: int| 0 <= i < vi ==> valids@[i] == false,
            decreases n - vi,
        {
            valids.push(false);
            vi = vi + 1;
        }
        let ghost cseq = own@;
        let mut p: usize = 0;
        let ghost mut k: nat = 0nat;
        while p < n
            invariant
                n == cseq.len(),
                own@ == cseq,
                n + 34 <= usize::MAX,
                valids@.len() == n,
                scan_pos(cseq, k) >= p,
                p < n ==> scan_pos(cseq, k) == p,
                forall|i: int|
                    0 <= i < n ==> (valids@[i] <==> exists|k2: nat|
                        k2 < k && scan_pos(cseq, k2) == i),
            decreases n - p,
        {
            valids.set(p, true);
            let b = own[p];
            let step: usize = if 0x60 <= b && b <= 0x7f {
                1 + (b - 0x5f) as usize
            } else {
                1
            };
            proof {
                assert(scan_next(cseq, p as int) == p + step);
                assert(scan_pos(cseq, k + 1) == p + step);
            }
            let next = p + step;
            let ghost oldk = k;
            proof {
                k = k + 1nat;
                assert forall|i: int| 0 <= i < n implies (valids@[i] <==> exists|k2: nat|
                    k2 < k && scan_pos(cseq, k2) == i) by {
                    if i == p {
                        assert(scan_pos(cseq, oldk) == i && oldk < k);
                    } else {
                        if valids@[i] {
                            let k2 = choose|k2: nat| k2 < oldk && scan_pos(cseq, k2) == i;
                            assert(k2 < k && scan_pos(cseq, k2) == i);
                        } else {
                            if exists|k2: nat| k2 < k && scan_pos(cseq, k2) == i {
                                let k2 = choose|k2: nat| k2 < k && scan_pos(cseq, k2) == i;
                                assert(k2 == oldk || k2 < oldk);
                            }
                        }
                    }
                }
            }
            if next > n {
                p = n;
            } else {
                p = next;
            }
        }
        let r = PC { code: own, position: 0, valids };
        proof {
            assert forall|i: int| 0 <= i < r.code_spec().len() implies (r.valids_spec()[i] <==>
                live(r.code_spec(), i)) by {
                if r.valids_spec()[i] {
                    let k2 = choose|k2: nat| k2 < k && scan_pos(cseq, k2) == i;
                    assert(live(cseq, i));
                } else {
                    if live(cseq, i) {
                        let k2 = choose|k2: nat| scan_pos(cseq, k2) == i;
                        if k2 >= k {
                            if k2 > k {
                                lemma_scan_pos_increases(cseq, k, k2);
                            }
                            assert(scan_pos(cseq, k2) >= p);
                            assert(false);
                        }
                    }
                }
            }
        }
        r
    }

    /// The current position.
    pub fn position(&self) -> (r: usize)
        ensures
            r == self.position_spec(),
    {
        self.position
    }

    /// The executable bytes.
    pub fn code(&self) -> (r: &Vec<u8>)
        ensures
            r@ == self.code_spec(),
    {
        &self.code
    }

    /// Whether the position has reached the code's end.
    pub fn is_end(&self) -> (r: bool)
        requires
            self.wf(),
        ensures
            r <==> self.position_spec() >= self.code_spec().len(),
    {
        self.position >= self.code.len()
    }

    /// Whether `target` is a valid jump destination: in bounds, live, and
    /// the jump-destination marker.
    pub fn is_valid(&self, target: usize) -> (r: bool)
        requires
            self.wf(),
        ensures
            r == valid_dest(self.code_spec(), target as int),
    {
        if target >= self.code.len() {
            return false;
        }
        if !self.valids[target] {
            return false;
        }
        self.code[target] == JUMPDEST_OPCODE
    }

    /// Reposition the cursor onto `target`, assumed already validated.
    pub fn jump(&mut self, target: usize)
        requires
            old(self).wf(),
            target < old(self).code_spec().len(),
        ensures
            final(self).wf(),
            final(self).code_spec() == old(self).code_spec(),
            final(self).valids_spec() == old(self).valids_spec(),
            final(self).position_spec() == target,
    {
        self.position = target;
    }

    /// Decode the instruction at the current position without advancing.
    /// Fails with `InvalidOpcode` on a byte that decodes to nothing.
    pub fn peek(&self) -> (r: Result<Instruction, OnChainError>)
        requires
            self.wf(),
            self.position_spec() < self.code_spec().len(),
        ensures
            r is Ok <==> op_defined(self.code_spec()[self.position_spec()]),
            r matches Ok(inst) ==> decodes(self.code_spec(), self.position_spec(), inst)
                && inst_wf(inst),
            r is Err ==> r == Err::<Instruction, OnChainError>(OnChainError::InvalidOpcode),
    {
        let b = self.code[self.position];
        if 0x60 <= b && b <= 0x7f {
            let count: usize = (b - 0x5f) as usize;
            let mut bytes: [u8; 32] = [0; 32];
            let mut i: usize = 0;
            while i < count
                invariant
                    self.wf(),
                    self.position_spec() < self.code_spec().len(),
                    1 <= count <= 32,
                    0 <= i <= count,
                    bytes@.len() == 32,
                    forall|j: int| 0 <= j < 32 - count ==> bytes@[j] == 0,
                    forall|j: int|
                        32 - count <= j < 32 - count + i ==> bytes@[j] == push_word_bytes(
                            self.code_spec(),
                            self.position_spec(),
                            count as int,
                        )[j],
                    forall|j: int| 32 - count + i <= j < 32 ==> bytes@[j] == 0,
                decreases count - i,
            {
                let src = self.position + 1 + i;
                if src < self.code.len() {
                    bytes[32 - count + i] = self.code[src];
                }
                i = i + 1;
            }
            let w = Word { bytes };
            proof {
                assert(w.bytes@ =~= push_word_bytes(
                    self.code_spec(),
                    self.position_spec(),
                    count as int,
                ));
            }
            Ok(Instruction::Push(count, w))
        } else {
            match Self::decode_simple_exec(b) {
                Some(inst) => Ok(inst),
                None => Err(OnChainError::InvalidOpcode),
            }
        }
    }

    /// Decode at the current position and advance past the instruction,
    /// including any immediate bytes, capped at the code's end.
    pub fn read(&mut self) -> (r: Result<Instruction, OnChainError>)
        requires
            old(self).wf(),
            old(self).position_spec() < old(self).code_spec().len(),
        ensures
            final(self).wf(),
            final(self).code_spec() == old(self).code_spec(),
            final(self).valids_spec() == old(self).valids_spec(),
            r is Ok <==> op_defined(old(self).code_spec()[old(self).position_spec()]),
            r matches Ok(inst) ==> decodes(old(self).code_spec(), old(self).position_spec(), inst)
                && inst_wf(inst),
            r is Err ==> r == Err::<Instruction, OnChainError>(OnChainError::InvalidOpcode)
                && final(self).position_spec() == old(self).position_spec(),
            r is Ok ==> final(self).position_spec() == if scan_next(
                old(self).code_spec(),
                old(self).position_spec(),
            ) > old(self).code_spec().len() {
                old(self).code_spec().len() as int
            } else {
                scan_next(old(self).code_spec(), old(self).position_spec())
            },
    {
        let r = self.peek();
        match r {
            Ok(inst) => {
                let b = self.code[self.position];
                let step: usize = if 0x60 <= b && b <= 0x7f {
                    1 + (b - 0x5f) as usize
                } else {
                    1
                };
                let next = self.position + step;
                if next > self.code.len() {
                    self.position = self.code.len();
                } else {
                    self.position = next;
                }
                Ok(inst)
            },
            Err(e) => Err(e),
        }
    }

    /// Decode a byte that carries no immediate.
    fn decode_simple_exec(b: u8) -> (r: Option<Instruction>)
        ensures
            r == decode_simple(b),
            r matches Some(i) ==> inst_wf(i),
    {
        if b == 0x00 {
            Some(Instruction::Stop)
        } else if b == 0x01 {
            Some(Instruction::Add)
        } else if b == 0x02 {
            Some(Instruction::Mul)
        } else if b == 0x03 {
            Some(Instruction::Sub)
        } else if b == 0x04 {
            Some(Instruction::Div)
        } else if b == 0x06 {
            Some(Instruction::Mod)
        } else if b == 0x10 {
            Some(Instruction::Lt)
        } else if b == 0x11 {
            Some(Instruction::Gt)
        } else if b == 0x14 {
            Some(Instruction::Eq)
        } else if b == 0x15 {
            Some(Instruction::IsZero)
        } else if b == 0x16 {
            Some(Instruction::And)
        } else if b == 0x17 {
            Some(Instruction::Or)
        } else if b == 0x18 {
            Some(Instruction::Xor)
        } else if b == 0x19 {
            Some(Instruction::Not)
        } else if b == 0x1a {
            Some(Instruction::Byte)
        } else if b == 0x30 {
            Some(Instruction::Address)
        } else if b == 0x31 {
            Some(Instruction::Balance)
        } else if b == 0x32 {
            Some(Instruction::Origin)
        } else if b == 0x33 {
            Some(Instruction::Caller)
        } else if b == 0x34 {
            Some(Instruction::CallValue)
        } else if b == 0x35 {
            Some(Instruction::CallDataLoad)
        } else if b == 0x36 {
            Some(Instruction::CallDataSize)
        } else if b == 0x40 {
            Some(Instruction::Blockhash)
        } else if b == 0x41 {
            Some(Instruction::Coinbase)
        } else if b == 0x42 {
            Some(Instruction::Timestamp)
        } else if b == 0x43 {
            Some(Instruction::Number)
        } else if b == 0x44 {
            Some(Instruction::Difficulty)
        } else if b == 0x45 {
            Some(Instruction::GasLimit)
        } else if b == 0x50 {
            Some(Instruction::Pop)
        } else if b == 0x51 {
            Some(Instruction::MLoad)
        } else if b == 0x52 {
            Some(Instruction::MStore)
        } else if b == 0x53 {
            Some(Instruction::MStore8)
        } else if b == 0x54 {
            Some(Instruction::SLoad)
        } else if b == 0x55 {
            Some(Instruction::SStore)
        } else if b == 0x56 {
            Some(Instruction::Jump)
        } else if b == 0x57 {
            Some(Instruction::JumpI)
        } else if b == 0x58 {
            Some(Instruction::Pc)
        } else if b == 0x59 {
            Some(Instruction::MSize)
        } else if b == 0x5a {
            Some(Instruction::Gas)
        } else if b == 0x5b {
            Some(Instruction::JumpDest)
        } else if 0x80 <= b && b <= 0x8f {
            Some(Instruction::Dup((b - 0x7f) as usize))
        } else if 0x90 <= b && b <= 0x9f {
            Some(Instruction::Swap((b - 0x8f) as usize))
        } else if 0xa0 <= b && b <= 0xa4 {
            Some(Instruction::Log((b - 0xa0) as usize))
        } else if b == 0xf0 {
            Some(Instruction::Create)
        } else if b == 0xf1 {
            Some(Instruction::Call)
        } else if b == 0xf3 {
            Some(Instruction::Return)
        } else {
            None
        }
    }
}

} // verus!
