//! 256-bit machine words and 160-bit addresses, stored as big-endian bytes.
//!
//! Arithmetic that wraps modulo 2^256 is delegated to the `bigint` crate's
//! `M256` type; each delegated operation is a trusted wrapper whose contract
//! states the result's numeric value exactly.
use vstd::prelude::*;

verus! {

/// 256^n.
pub open spec fn pow256(n: nat) -> nat
    decreases n,
{
    if n == 0 {
        1
    } else {
        256 * pow256((n - 1) as nat)
    }
}

/// The number a byte sequence denotes when read as a big-endian integer.
pub open spec fn be_val(s: Seq<u8>) -> nat
    decreases s.len(),
{
    if s.len() == 0 {
        0nat
    } else {
        be_val(s.drop_last()) * 256 + s.last() as nat
    }
}

pub proof fn lemma_pow256_pos(n: nat)
    ensures
        pow256(n) >= 1,
    decreases n,
{
    if n > 0 {
        lemma_pow256_pos((n - 1) as nat);
    }
}

/// A big-endian number is bounded by 256 to the power of its width.
pub proof fn lemma_be_val_bound(s: Seq<u8>)
    ensures
        be_val(s) < pow256(s.len()),
    decreases s.len(),
{
    if s.len() > 0 {
        lemma_be_val_bound(s.drop_last());
        assert(be_val(s.drop_last()) * 256 <= (pow256((s.len() - 1) as nat) - 1) * 256) by (nonlinear_arith)
            requires
                be_val(s.drop_last()) <= pow256((s.len() - 1) as nat) - 1,
        ;
    }
}

/// A big-endian number is zero exactly when every byte is zero.
pub proof fn lemma_be_val_zero_iff(s: Seq<u8>)
    ensures
        be_val(s) == 0 <==> (forall|i: int| 0 <= i < s.len() ==> s[i] == 0),
    decreases s.len(),
{
    if s.len() > 0 {
        lemma_be_val_zero_iff(s.drop_last());
        if be_val(s) == 0 {
            assert(forall|i: int| 0 <= i < s.len() - 1 ==> s[i] == s.drop_last()[i]);
        } else {
            if forall|i: int| 0 <= i < s.len() ==> s[i] == 0 {
                assert(forall|i: int| 0 <= i < s.len() - 1 ==> s.drop_last()[i] == s[i]);
                assert(be_val(s.drop_last()) == 0);
                assert(s.last() == 0);
            }
        }
    }
}

/// Splitting a byte string splits its value: the prefix is scaled by the
/// width of the suffix.
pub proof fn lemma_be_val_split(s: Seq<u8>, k: int)
    requires
        0 <= k <= s.len(),
    ensures
        be_val(s) == be_val(s.take(k)) * pow256((s.len() - k) as nat) + be_val(s.skip(k)),
    decreases s.len(),
{
    if k == s.len() {
        assert(s.take(k) =~= s);
        assert(s.skip(k) =~= Seq::<u8>::empty());
        assert(be_val(s.skip(k)) == 0);
        assert(pow256((s.len() - k) as nat) == 1);
        assert(be_val(s.take(k)) == be_val(s));
        assert(be_val(s) == be_val(s) * pow256((s.len() - k) as nat) + be_val(s.skip(k)))
            by (nonlinear_arith)
            requires
                be_val(s.skip(k)) == 0,
                pow256((s.len() - k) as nat) == 1,
        ;
    } else {
        let d = s.drop_last();
        lemma_be_val_split(d, k);
        assert(d.take(k) =~= s.take(k));
        assert(s.skip(k).drop_last() =~= d.skip(k));
        assert(s.skip(k).last() == s.last());
        let a = be_val(s.take(k));
        let b = be_val(d.skip(k));
        let c = s.last() as nat;
        let p = pow256((s.len() - 1 - k) as nat);
        assert(be_val(s.skip(k)) == b * 256 + c);
        assert(be_val(s) == be_val(d) * 256 + c);
        assert(be_val(d) == a * p + b);
        assert((a * p + b) * 256 + c == a * (p * 256) + (b * 256 + c)) by (nonlinear_arith);
        lemma_pow256_mul_256((s.len() - 1 - k) as nat);
        assert(p * 256 == pow256((s.len() - k) as nat));
        assert(be_val(s) == a * pow256((s.len() - k) as nat) + be_val(s.skip(k)));
    }
}

proof fn lemma_pow256_mul_256(n: nat)
    ensures
        pow256(n) * 256 == pow256(n + 1),
    decreases n,
{
    if n > 0 {
        lemma_pow256_mul_256((n - 1) as nat);
        assert(pow256(n) * 256 == (256 * pow256((n - 1) as nat)) * 256);
        assert((256 * pow256((n - 1) as nat)) * 256 == 256 * (pow256((n - 1) as nat) * 256))
            by (nonlinear_arith);
    }
}

/// Two byte strings of equal width that agree up to position `k`, where the
/// first holds the smaller byte, denote numbers in the same order.
pub proof fn lemma_be_val_lt(s: Seq<u8>, t: Seq<u8>, k: int)
    requires
        s.len() == t.len(),
        0 <= k < s.len(),
        forall|i: int| 0 <= i < k ==> s[i] == t[i],
        s[k] < t[k],
    ensures
        be_val(s) < be_val(t),
{
    let n = s.len() as int;
    lemma_be_val_split(s, k + 1);
    lemma_be_val_split(t, k + 1);
    let p = pow256((n - k - 1) as nat);
    lemma_be_val_split(s.take(k + 1), k);
    lemma_be_val_split(t.take(k + 1), k);
    assert(s.take(k + 1).take(k) =~= t.take(k + 1).take(k));
    assert(s.take(k + 1).skip(k) =~= seq![s[k]]);
    assert(t.take(k + 1).skip(k) =~= seq![t[k]]);
    assert(be_val(seq![s[k]]) == s[k]) by {
        reveal_with_fuel(be_val, 2);
        assert(seq![s[k]].drop_last() =~= Seq::<u8>::empty());
    }
    assert(be_val(seq![t[k]]) == t[k]) by {
        reveal_with_fuel(be_val, 2);
        assert(seq![t[k]].drop_last() =~= Seq::<u8>::empty());
    }
    assert(be_val(s.take(k + 1)) + 1 <= be_val(t.take(k + 1)));
    lemma_be_val_bound(s.skip(k + 1));
    assert(s.skip(k + 1).len() == n - k - 1);
    assert((be_val(s.take(k + 1)) + 1) * p <= be_val(t.take(k + 1)) * p) by (nonlinear_arith)
        requires
            be_val(s.take(k + 1)) + 1 <= be_val(t.take(k + 1)),
            p >= 1,
    ;
    assert((be_val(s.take(k + 1)) + 1) * p == be_val(s.take(k + 1)) * p + p) by (nonlinear_arith);
    lemma_pow256_pos((n - k - 1) as nat);
}

/// Words with equal byte views are the same word.
pub proof fn lemma_word_bytes_eq(w1: Word, w2: Word)
    requires
        w1.bytes@ == w2.bytes@,
    ensures
        w1 == w2,
{
    vstd::array::axiom_array_ext_equal::<u8, 32>(w1.bytes, w2.bytes);
    assert(forall|i: int| 0 <= i < 32 ==> w1.bytes[i] == w2.bytes[i]);
    assert(w1.bytes =~= w2.bytes);
}

/// Equal big-endian values of equal width have equal bytes.
pub proof fn lemma_be_val_injective(s: Seq<u8>, t: Seq<u8>)
    requires
        s.len() == t.len(),
        be_val(s) == be_val(t),
    ensures
        s =~= t,
{
    if exists|i: int| 0 <= i < s.len() && s[i] != t[i] {
        lemma_first_diff(s, t, 0);
        let k = first_diff(s, t, 0);
        if s[k] < t[k] {
            lemma_be_val_lt(s, t, k);
        } else {
            lemma_be_val_lt(t, s, k);
        }
    }
}

spec fn first_diff(s: Seq<u8>, t: Seq<u8>, from: int) -> int
    decreases s.len() - from,
{
    if from < 0 || from >= s.len() {
        from
    } else if s[from] != t[from] {
        from
    } else {
        first_diff(s, t, from + 1)
    }
}

proof fn lemma_first_diff(s: Seq<u8>, t: Seq<u8>, from: int)
    requires
        s.len() == t.len(),
        0 <= from <= s.len(),
        exists|i: int| from <= i < s.len() && s[i] != t[i],
        forall|i: int| 0 <= i < from ==> s[i] == t[i],
    ensures
        from <= first_diff(s, t, from) < s.len(),
        s[first_diff(s, t, from)] != t[first_diff(s, t, from)],
        forall|i: int| 0 <= i < first_diff(s, t, from) ==> s[i] == t[i],
    decreases s.len() - from,
{
    if from < s.len() && s[from] == t[from] {
        lemma_first_diff(s, t, from + 1);
    }
}

/// One 256-bit word of the machine, as 32 big-endian bytes.
#[derive(Clone, Copy, Debug, PartialEq, Eq, Hash)]
pub struct Word {
    pub bytes: [u8; 32],
}

/// One 160-bit account address, as 20 big-endian bytes.
#[derive(Clone, Copy, Debug, PartialEq, Eq, Hash)]
pub struct Address {
    pub bytes: [u8; 20],
}

impl Word {
    /// The number this word denotes.
    pub open spec fn value(self) -> nat {
        be_val(self.bytes@)
    }

    /// The zero word.
    pub fn zero() -> (r: Word)
        ensures
            r.value() == 0,
    {
        let bytes: [u8; 32] = [0; 32];
        let r = Word { bytes };
        proof {
            lemma_be_val_zero_iff(r.bytes@);
        }
        r
    }

    /// The word denoting a 64-bit number.
    pub fn from_u64(v: u64) -> (r: Word)
        ensures
            r.value() == v,
    {
        let mut bytes: [u8; 32] = [0; 32];
        let mut i: usize = 0;
        let mut acc: u64 = v;
        proof {
            assert(bytes@.skip(32) =~= Seq::<u8>::empty());
            assert(pow256(0) == 1);
            assert(v < pow256(8)) by {
                reveal_with_fuel(pow256, 9);
            }
        }
        while i < 8
            invariant
                0 <= i <= 8,
                bytes@.len() == 32,
                v == acc * pow256(i as nat) + be_val(bytes@.skip(32 - i as int)),
                forall|j: int| 0 <= j < 32 - i ==> bytes@[j] == 0,
                acc < pow256((8 - i) as nat),
            decreases 8 - i,
        {
            let ghost prev = bytes@;
            let ghost prev_acc = acc;
            let b: u8 = (acc & 0xff) as u8;
            bytes[31 - i] = b;
            acc = acc >> 8;
            proof {
                assert(b == prev_acc % 256 && acc == prev_acc / 256) by (bit_vector)
                    requires
                        b == (prev_acc & 0xff) as u8,
                        acc == prev_acc >> 8,
                ;
                let s_old = prev.skip(32 - i as int);
                let s_new = bytes@.skip(31 - i as int);
                assert(s_new.skip(1) =~= s_old);
                lemma_be_val_split(s_new, 1);
                assert(s_new.take(1) =~= seq![b]);
                assert(be_val(seq![b]) == b) by {
                    reveal_with_fuel(be_val, 2);
                    assert(seq![b].drop_last() =~= Seq::<u8>::empty());
                }
                assert(be_val(s_new) == b * pow256(i as nat) + be_val(s_old));
                assert(prev_acc * pow256(i as nat) == (acc * 256 + b) * pow256(i as nat));
                assert((acc * 256 + b) * pow256(i as nat) == acc * (256 * pow256(i as nat)) + b
                    * pow256(i as nat)) by (nonlinear_arith);
                assert(acc < pow256((7 - i) as nat)) by {
                    assert(prev_acc < pow256((8 - i) as nat));
                    assert(pow256((8 - i) as nat) == 256 * pow256((7 - i) as nat));
                    assert(prev_acc / 256 < pow256((7 - i) as nat)) by (nonlinear_arith)
                        requires
                            prev_acc < 256 * pow256((7 - i) as nat),
                    ;
                }
            }
            i = i + 1;
        }
        let r = Word { bytes };
        proof {
            assert(acc == 0) by {
                assert(pow256(0) == 1);
            }
            assert(r.bytes@.skip(24) =~= bytes@.skip(32 - 8));
            lemma_be_val_split(r.bytes@, 24);
            lemma_be_val_zero_iff(r.bytes@.take(24));
            assert(forall|j: int| 0 <= j < 24 ==> r.bytes@.take(24)[j] == 0);
            assert(pow256(8nat) >= 1) by {
                lemma_pow256_pos(8nat);
            }
        }
        r
    }

    /// The low 64 bits of the word, when nothing above them is set.
    pub fn as_u64_checked(&self) -> (r: Option<u64>)
        ensures
            r is Some <==> self.value() < pow256(8),
            r is Some ==> r->0 == self.value(),
    {
        let mut i: usize = 0;
        let mut high_zero: bool = true;
        while i < 24
            invariant
                0 <= i <= 24,
                high_zero <==> (forall|j: int| 0 <= j < i ==> self.bytes@[j] == 0),
            decreases 24 - i,
        {
            if self.bytes[i] != 0 {
                high_zero = false;
            }
            i = i + 1;
        }
        proof {
            lemma_be_val_split(self.bytes@, 24);
            lemma_be_val_zero_iff(self.bytes@.take(24));
            lemma_be_val_bound(self.bytes@.skip(24));
            assert(self.bytes@.skip(24).len() == 8);
            if high_zero {
                assert(forall|j: int| 0 <= j < 24 ==> self.bytes@.take(24)[j] == 0);
                assert(be_val(self.bytes@.take(24)) == 0);
            } else {
                let j = choose|j: int| 0 <= j < 24 && self.bytes@[j] != 0;
                assert(self.bytes@.take(24)[j] != 0);
                assert(be_val(self.bytes@.take(24)) >= 1);
                assert(be_val(self.bytes@) >= pow256(8)) by (nonlinear_arith)
                    requires
                        be_val(self.bytes@) == be_val(self.bytes@.take(24)) * pow256(8) + be_val(
                            self.bytes@.skip(24),
                        ),
                        be_val(self.bytes@.take(24)) >= 1,
                ;
            }
        }
        if !high_zero {
            return None;
        }
        let mut acc: u64 = 0;
        let mut k: usize = 24;
        while k < 32
            invariant
                24 <= k <= 32,
                acc == be_val(self.bytes@.subrange(24, k as int)),
                acc < pow256((k - 24) as nat),
            decreases 32 - k,
        {
            proof {
                lemma_pow256_pos((k - 24) as nat);
                assert(pow256((k - 24) as nat) <= pow256(7nat)) by {
                    lemma_pow256_increases((k - 24) as nat, 7nat);
                }
                assert(pow256(7nat) == 0x100000000000000) by {
                    reveal_with_fuel(pow256, 8);
                }
            }
            let b = self.bytes[k];
            proof {
                let s_old = self.bytes@.subrange(24, k as int);
                let s_new = self.bytes@.subrange(24, k as int + 1);
                assert(s_new.drop_last() =~= s_old);
                assert(s_new.last() == b);
            }
            acc = acc * 256 + (b as u64);
            k = k + 1;
        }
        proof {
            assert(self.bytes@.subrange(24, 32) =~= self.bytes@.skip(24));
        }
        Some(acc)
    }

    /// Whether this word is zero.
    pub fn is_zero(&self) -> (r: bool)
        ensures
            r <==> self.value() == 0,
    {
        let mut i: usize = 0;
        let mut all_zero: bool = true;
        while i < 32
            invariant
                0 <= i <= 32,
                all_zero <==> (forall|j: int| 0 <= j < i ==> self.bytes@[j] == 0),
            decreases 32 - i,
        {
            if self.bytes[i] != 0 {
                all_zero = false;
            }
            i = i + 1;
        }
        proof {
            lemma_be_val_zero_iff(self.bytes@);
        }
        all_zero
    }

    /// Whether two words are equal, decided on their bytes.
    pub fn eq_word(&self, other: &Word) -> (r: bool)
        ensures
            r <==> self.value() == other.value(),
            r <==> self.bytes@ =~= other.bytes@,
    {
        let mut i: usize = 0;
        let mut same: bool = true;
        while i < 32
            invariant
                0 <= i <= 32,
                same <==> (forall|j: int| 0 <= j < i ==> self.bytes@[j] == other.bytes@[j]),
            decreases 32 - i,
        {
            if self.bytes[i] != other.bytes[i] {
                same = false;
            }
            i = i + 1;
        }
        proof {
            if same {
                assert(self.bytes@ =~= other.bytes@);
            } else {
                if self.value() == other.value() {
                    lemma_be_val_injective(self.bytes@, other.bytes@);
                }
            }
        }
        same
    }

    /// Whether this word denotes a strictly smaller number than the other.
    pub fn lt_word(&self, other: &Word) -> (r: bool)
        ensures
            r <==> self.value() < other.value(),
    {
        let mut i: usize = 0;
        while i < 32
            invariant
                0 <= i <= 32,
                forall|j: int| 0 <= j < i ==> self.bytes@[j] == other.bytes@[j],
            decreases 32 - i,
        {
            if self.bytes[i] < other.bytes[i] {
                proof {
                    lemma_be_val_lt(self.bytes@, other.bytes@, i as int);
                }
                return true;
            }
            if self.bytes[i] > other.bytes[i] {
                proof {
                    lemma_be_val_lt(other.bytes@, self.bytes@, i as int);
                }
                return false;
            }
            i = i + 1;
        }
        proof {
            assert(self.bytes@ =~= other.bytes@);
        }
        false
    }

    /// The word for a condition: one when true, zero when false.
    pub fn from_bool(b: bool) -> (r: Word)
        ensures
            b ==> r.value() == 1,
            !b ==> r.value() == 0,
    {
        if b {
            Word::from_u64(1)
        } else {
            Word::zero()
        }
    }

    /// The address held in the low 20 bytes of this word.
    pub fn to_address(&self) -> (r: Address)
        ensures
            r.bytes@ =~= self.bytes@.skip(12),
            r.value() == self.value() % pow256(20),
    {
        let mut bytes: [u8; 20] = [0; 20];
        let mut i: usize = 0;
        while i < 20
            invariant
                0 <= i <= 20,
                bytes@.len() == 20,
                forall|j: int| 0 <= j < i ==> bytes@[j] == self.bytes@[12 + j],
            decreases 20 - i,
        {
            bytes[i] = self.bytes[12 + i];
            i = i + 1;
        }
        let r = Address { bytes };
        proof {
            assert(r.bytes@ =~= self.bytes@.skip(12));
            lemma_be_val_split(self.bytes@, 12);
            lemma_be_val_bound(self.bytes@.skip(12));
            lemma_pow256_pos(20nat);
            let q = be_val(self.bytes@.take(12)) as int;
            let rem = be_val(self.bytes@.skip(12)) as int;
            let m = pow256(20nat) as int;
            assert(self.bytes@.skip(12).len() == 20);
            assert(self.value() == q * m + rem);
            assert(q * m == m * q) by (nonlinear_arith);
            vstd::arithmetic::div_mod::lemma_mod_multiples_vanish(q, rem, m);
            vstd::arithmetic::div_mod::lemma_small_mod(
                be_val(self.bytes@.skip(12)),
                pow256(20nat),
            );
            assert(self.value() % pow256(20nat) == rem);
        }
        r
    }
}

pub proof fn lemma_pow256_increases(a: nat, b: nat)
    requires
        a <= b,
    ensures
        pow256(a) <= pow256(b),
    decreases b,
{
    if a < b && b > 0 {
        lemma_pow256_increases(a, (b - 1) as nat);
        lemma_pow256_pos((b - 1) as nat);
    }
}

impl Address {
    /// The number this address denotes.
    pub open spec fn value(self) -> nat {
        be_val(self.bytes@)
    }

    /// The address whose low bytes hold a 64-bit number.
    pub fn from_u64(v: u64) -> (r: Address)
        ensures
            r.value() == v,
    {
        let w = Word::from_u64(v);
        let a = w.to_address();
        proof {
            lemma_be_val_split(w.bytes@, 12);
            lemma_be_val_zero_iff(w.bytes@.take(12));
            assert(forall|j: int| 0 <= j < 12 ==> w.bytes@.take(12)[j] == w.bytes@[j]);
            assert(v < pow256(8) ==> be_val(w.bytes@.take(12)) == 0) by {
                if forall|j: int| 0 <= j < 12 ==> w.bytes@[j] == 0 {
                } else {
                    let j = choose|j: int| 0 <= j < 12 && w.bytes@[j] != 0;
                    lemma_be_val_split(w.bytes@, j + 1);
                    lemma_be_val_split(w.bytes@.take(j + 1), j);
                    assert(w.bytes@.take(j + 1).skip(j) =~= seq![w.bytes@[j]]);
                    assert(be_val(seq![w.bytes@[j]]) == w.bytes@[j]) by {
                        reveal_with_fuel(be_val, 2);
                        assert(seq![w.bytes@[j]].drop_last() =~= Seq::<u8>::empty());
                    }
                    assert(be_val(w.bytes@.take(j + 1)) >= 1);
                    lemma_pow256_pos((32 - j - 1) as nat);
                    assert(be_val(w.bytes@) >= pow256((32 - j - 1) as nat)) by (nonlinear_arith)
                        requires
                            be_val(w.bytes@) == be_val(w.bytes@.take(j + 1)) * pow256(
                                (32 - j - 1) as nat,
                            ) + be_val(w.bytes@.skip(j + 1)),
                            be_val(w.bytes@.take(j + 1)) >= 1,
                            pow256((32 - j - 1) as nat) >= 1,
                    ;
                    lemma_pow256_increases(20nat, (32 - j - 1) as nat);
                    lemma_pow256_increases(8nat, 20nat);
                    assert(pow256(20nat) > pow256(8nat)) by {
                        lemma_pow256_increases(8nat, 19nat);
                        lemma_pow256_pos(19nat);
                    }
                }
            }
            assert(u64::MAX < pow256(8)) by {
                reveal_with_fuel(pow256, 9);
            }
            assert(a.bytes@ =~= w.bytes@.skip(12));
        }
        a
    }

    /// Whether two addresses are equal, decided on their bytes.
    pub fn eq_address(&self, other: &Address) -> (r: bool)
        ensures
            r <==> self.bytes@ =~= other.bytes@,
            r <==> *self == *other,
            r <==> self.value() == other.value(),
    {
        let mut i: usize = 0;
        let mut same: bool = true;
        while i < 20
            invariant
                0 <= i <= 20,
                same <==> (forall|j: int| 0 <= j < i ==> self.bytes@[j] == other.bytes@[j]),
            decreases 20 - i,
        {
            if self.bytes[i] != other.bytes[i] {
                same = false;
            }
            i = i + 1;
        }
        proof {
            if same {
                assert(self.bytes@ =~= other.bytes@);
                assert(*self == *other) by {
                    assert(self.bytes@ == other.bytes@);
                    assert(self.bytes =~= other.bytes);
                }
            } else {
                if self.value() == other.value() {
                    lemma_be_val_injective(self.bytes@, other.bytes@);
                }
            }
        }
        same
    }
}


impl Address {
    /// The all-zero address.
    pub fn zero() -> (r: Address)
        ensures
            r.value() == 0,
    {
        let bytes: [u8; 20] = [0; 20];
        let r = Address { bytes };
        proof {
            lemma_be_val_zero_iff(r.bytes@);
        }
        r
    }

    /// The word holding this address in its low 20 bytes.
    pub fn to_word(&self) -> (r: Word)
        ensures
            r.value() == self.value(),
            r.bytes@.skip(12) =~= self.bytes@,
    {
        let mut bytes: [u8; 32] = [0; 32];
        let mut i: usize = 0;
        while i < 20
            invariant
                0 <= i <= 20,
                bytes@.len() == 32,
                forall|j: int| 0 <= j < 12 ==> bytes@[j] == 0,
                forall|j: int| 0 <= j < i ==> bytes@[12 + j] == self.bytes@[j],
            decreases 20 - i,
        {
            bytes[12 + i] = self.bytes[i];
            i = i + 1;
        }
        let r = Word { bytes };
        proof {
            assert(r.bytes@.skip(12) =~= self.bytes@);
            lemma_be_val_split(r.bytes@, 12);
            lemma_be_val_zero_iff(r.bytes@.take(12));
            assert(forall|j: int| 0 <= j < 12 ==> r.bytes@.take(12)[j] == 0);
        }
        r
    }
}

/// The byte-wise conjunction of two words.
pub fn word_and(a: &Word, b: &Word) -> (r: Word)
    ensures
        forall|i: int| 0 <= i < 32 ==> r.bytes@[i] == (a.bytes@[i] & b.bytes@[i]),
{
    let mut bytes: [u8; 32] = [0; 32];
    let mut i: usize = 0;
    while i < 32
        invariant
            0 <= i <= 32,
            bytes@.len() == 32,
            forall|j: int| 0 <= j < i ==> bytes@[j] == (a.bytes@[j] & b.bytes@[j]),
        decreases 32 - i,
    {
        bytes[i] = a.bytes[i] & b.bytes[i];
        i = i + 1;
    }
    Word { bytes }
}

/// The byte-wise disjunction of two words.
pub fn word_or(a: &Word, b: &Word) -> (r: Word)
    ensures
        forall|i: int| 0 <= i < 32 ==> r.bytes@[i] == (a.bytes@[i] | b.bytes@[i]),
{
    let mut bytes: [u8; 32] = [0; 32];
    let mut i: usize = 0;
    while i < 32
        invariant
            0 <= i <= 32,
            bytes@.len() == 32,
            forall|j: int| 0 <= j < i ==> bytes@[j] == (a.bytes@[j] | b.bytes@[j]),
        decreases 32 - i,
    {
        bytes[i] = a.bytes[i] | b.bytes[i];
        i = i + 1;
    }
    Word { bytes }
}

/// The byte-wise exclusive disjunction of two words.
pub fn word_xor(a: &Word, b: &Word) -> (r: Word)
    ensures
        forall|i: int| 0 <= i < 32 ==> r.bytes@[i] == (a.bytes@[i] ^ b.bytes@[i]),
{
    let mut bytes: [u8; 32] = [0; 32];
    let mut i: usize = 0;
    while i < 32
        invariant
            0 <= i <= 32,
            bytes@.len() == 32,
            forall|j: int| 0 <= j < i ==> bytes@[j] == (a.bytes@[j] ^ b.bytes@[j]),
        decreases 32 - i,
    {
        bytes[i] = a.bytes[i] ^ b.bytes[i];
        i = i + 1;
    }
    Word { bytes }
}

/// The byte-wise complement of a word.
pub fn word_not(a: &Word) -> (r: Word)
    ensures
        forall|i: int| 0 <= i < 32 ==> r.bytes@[i] == !a.bytes@[i],
{
    let mut bytes: [u8; 32] = [0; 32];
    let mut i: usize = 0;
    while i < 32
        invariant
            0 <= i <= 32,
            bytes@.len() == 32,
            forall|j: int| 0 <= j < i ==> bytes@[j] == !a.bytes@[j],
        decreases 32 - i,
    {
        bytes[i] = !a.bytes[i];
        i = i + 1;
    }
    Word { bytes }
}

/// Relies on bigint's `M256` addition: 256-bit wrapping add
/// (`M256::add`, built on `U256::overflowing_add`).
#[verifier::external_body]
pub fn word_add(a: &Word, b: &Word) -> (r: Word)
    ensures
        r.value() == (a.value() + b.value()) % pow256(32),
{
    let x = bigint::M256::from(&a.bytes[..]) + bigint::M256::from(&b.bytes[..]);
    Word { bytes: bigint::H256::from(x).0 }
}

/// Relies on bigint's `M256` subtraction: 256-bit wrapping subtract
/// (`M256::sub` wraps around the modulus when the subtrahend is larger).
#[verifier::external_body]
pub fn word_sub(a: &Word, b: &Word) -> (r: Word)
    ensures
        r.value() == (a.value() + pow256(32) - b.value()) % pow256(32) as int,
{
    let x = bigint::M256::from(&a.bytes[..]) - bigint::M256::from(&b.bytes[..]);
    Word { bytes: bigint::H256::from(x).0 }
}

/// Relies on bigint's `M256` multiplication: 256-bit wrapping multiply
/// (`M256::mul`, built on `U256::overflowing_mul`).
#[verifier::external_body]
pub fn word_mul(a: &Word, b: &Word) -> (r: Word)
    ensures
        r.value() == (a.value() * b.value()) % pow256(32),
{
    let x = bigint::M256::from(&a.bytes[..]) * bigint::M256::from(&b.bytes[..]);
    Word { bytes: bigint::H256::from(x).0 }
}

/// Relies on bigint's `M256` division: flooring divide, zero when the
/// divisor is zero (`M256::div`).
#[verifier::external_body]
pub fn word_div(a: &Word, b: &Word) -> (r: Word)
    ensures
        b.value() == 0 ==> r.value() == 0,
        b.value() != 0 ==> r.value() == a.value() / b.value(),
{
    let x = bigint::M256::from(&a.bytes[..]) / bigint::M256::from(&b.bytes[..]);
    Word { bytes: bigint::H256::from(x).0 }
}

/// Relies on bigint's `M256` remainder: zero when the divisor is zero
/// (`M256::rem`).
#[verifier::external_body]
pub fn word_mod(a: &Word, b: &Word) -> (r: Word)
    ensures
        b.value() == 0 ==> r.value() == 0,
        b.value() != 0 ==> r.value() == a.value() % b.value(),
{
    let x = bigint::M256::from(&a.bytes[..]) % bigint::M256::from(&b.bytes[..]);
    Word { bytes: bigint::H256::from(x).0 }
}

} // verus!
