//! Byte-addressable, growable, word-aligned memory.
//!
//! Memory is conceptually infinite and zero-filled; physical growth happens
//! on demand in 32-byte word increments. Reads beyond the physical size see
//! zeroes; writes grow the store first.
use vstd::prelude::*;
use crate::word::Word;

verus! {

/// The smallest multiple of 32 at or above `n`.
pub open spec fn ceil32(n: nat) -> nat {
    ((n + 31) / 32) * 32
}

/// Growable zero-filled memory. The view is the physical byte store; the
/// logical content is `byte`, which extends it with zeroes.
pub struct Memory {
    data: Vec<u8>,
}

impl View for Memory {
    type V = Seq<u8>;

    closed spec fn view(&self) -> Seq<u8> {
        self.data@
    }
}

impl Memory {
    /// Physical growth happens in whole words.
    pub open spec fn wf(self) -> bool {
        self@.len() % 32 == 0
    }

    /// The logical byte at offset `i`: zero beyond the physical size.
    pub open spec fn byte(self, i: int) -> u8 {
        if 0 <= i < self@.len() {
            self@[i]
        } else {
            0
        }
    }

    /// Empty memory.
    pub fn new() -> (r: Memory)
        ensures
            r@ =~= Seq::<u8>::empty(),
            r.wf(),
    {
        Memory { data: Vec::new() }
    }

    /// The physical size in bytes, a multiple of 32.
    pub fn len(&self) -> (r: usize)
        ensures
            r == self@.len(),
    {
        self.data.len()
    }

    /// Grow the physical store with zeroes until it covers `end` bytes,
    /// rounded up to a whole word. Never shrinks and never changes the
    /// logical content.
    pub fn expand(&mut self, end: u64)
        requires
            old(self).wf(),
        ensures
            final(self).wf(),
            final(self)@.len() == if ceil32(end as nat) > old(self)@.len() {
                ceil32(end as nat)
            } else {
                old(self)@.len()
            },
            final(self)@.len() >= end,
            forall|i: int| final(self).byte(i) == old(self).byte(i),
    {
        let needed: u128 = ((end as u128) + 31) / 32 * 32;
        proof {
            assert(needed == ceil32(end as nat));
            assert(ceil32(end as nat) >= end);
        }
        while (self.data.len() as u128) < needed
            invariant
                old(self)@.len() <= self.data@.len(),
                self.data@.len() <= if needed > old(self)@.len() {
                    needed as nat
                } else {
                    old(self)@.len()
                },
                forall|i: int| 0 <= i < old(self)@.len() ==> self.data@[i] == old(self)@[i],
                forall|i: int| old(self)@.len() <= i < self.data@.len() ==> self.data@[i] == 0,
            decreases needed - self.data@.len(),
        {
            self.data.push(0u8);
        }
        proof {
            assert(old(self).wf());
            assert(needed % 32 == 0);
            if needed > old(self)@.len() {
                assert(self.data@.len() == needed);
            } else {
                assert(self.data@.len() == old(self)@.len());
            }
        }
    }

    /// Write one word as 32 big-endian bytes at `off`, growing first.
    pub fn write_word(&mut self, off: u64, w: &Word)
        requires
            old(self).wf(),
            off + 32 <= usize::MAX,
        ensures
            final(self).wf(),
            final(self)@.len() == if ceil32((off + 32) as nat) > old(self)@.len() {
                ceil32((off + 32) as nat)
            } else {
                old(self)@.len()
            },
            forall|i: int|
                final(self).byte(i) == if off <= i < off + 32 {
                    w.bytes@[i - off]
                } else {
                    old(self).byte(i)
                },
    {
        self.expand(off + 32);
        let ghost grown = *self;
        let base: usize = off as usize;
        let mut i: usize = 0;
        while i < 32
            invariant
                self.data@.len() == grown@.len(),
                self.data@.len() >= off + 32,
                off + 32 <= usize::MAX,
                base == off,
                0 <= i <= 32,
                forall|j: int|
                    0 <= j < self.data@.len() ==> self.data@[j] == if off <= j < off + i {
                        w.bytes@[j - off]
                    } else {
                        grown@[j]
                    },
            decreases 32 - i,
        {
            self.data.set(base + i, w.bytes[i]);
            i = i + 1;
        }
    }

    /// Write one byte at `off`, growing first.
    pub fn write_byte(&mut self, off: u64, b: u8)
        requires
            old(self).wf(),
            off + 1 <= usize::MAX,
        ensures
            final(self).wf(),
            final(self)@.len() == if ceil32((off + 1) as nat) > old(self)@.len() {
                ceil32((off + 1) as nat)
            } else {
                old(self)@.len()
            },
            forall|i: int|
                final(self).byte(i) == if i == off {
                    b
                } else {
                    old(self).byte(i)
                },
    {
        self.expand(off + 1);
        self.data.set(off as usize, b);
    }

    /// Read one word of 32 big-endian bytes at `off`. Bytes beyond the
    /// physical size read as zero; the store is not touched.
    pub fn read_word(&self, off: u64) -> (r: Word)
        ensures
            forall|i: int| 0 <= i < 32 ==> r.bytes@[i] == self.byte(off + i),
    {
        let mut bytes: [u8; 32] = [0; 32];
        let mut i: usize = 0;
        while i < 32
            invariant
                0 <= i <= 32,
                bytes@.len() == 32,
                forall|j: int| 0 <= j < i ==> bytes@[j] == self.byte(off + j),
                forall|j: int| i <= j < 32 ==> bytes@[j] == 0,
            decreases 32 - i,
        {
            let idx: u128 = off as u128 + i as u128;
            if idx < self.data.len() as u128 {
                bytes[i] = self.data[idx as usize];
            }
            i = i + 1;
        }
        Word { bytes }
    }

    /// Read `len` logical bytes starting at `off`. Bytes beyond the
    /// physical size read as zero; the store is not touched.
    pub fn read_bytes(&self, off: u64, len: u64) -> (r: Vec<u8>)
        ensures
            r@.len() == len,
            forall|j: int| 0 <= j < len ==> r@[j] == self.byte(off + j),
    {
        let mut out: Vec<u8> = Vec::new();
        let mut k: u64 = 0;
        while k < len
            invariant
                0 <= k <= len,
                out@.len() == k,
                forall|j: int| 0 <= j < k ==> out@[j] == self.byte(off + j),
            decreases len - k,
        {
            let idx: u128 = off as u128 + k as u128;
            if idx < self.data.len() as u128 {
                out.push(self.data[idx as usize]);
            } else {
                out.push(0u8);
            }
            k = k + 1;
        }
        out
    }
}

impl Default for Memory {
    /// Empty memory.
    fn default() -> (r: Memory)
        ensures
            r@ =~= Seq::<u8>::empty(),
            r.wf(),
    {
        Memory::new()
    }
}

} // verus!
