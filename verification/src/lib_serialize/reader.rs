//! The positional byte cursor of the binary deserializer: big-endian
//! integer reads, length-prefixed byte slices, and lossy UTF-8 text.
use crate::value::{utf8_lossy, utf8_lossy_bytes};
use vstd::arithmetic::power2::{
    lemma2_to64, lemma2_to64_rest, lemma_pow2_adds, lemma_pow2_pos, lemma_pow2_strictly_increases,
    pow2,
};
use vstd::prelude::*;

verus! {

/// The unsigned big-endian value of a byte sequence.
pub open spec fn be_val(s: Seq<u8>) -> nat
    decreases s.len(),
{
    if s.len() == 0 {
        0
    } else {
        (be_val(s.drop_last()) * 256 + s.last()) as nat
    }
}

/// A big-endian value fits in eight bits per byte.
pub proof fn lemma_be_val_bound(s: Seq<u8>)
    ensures
        be_val(s) < pow2(8 * s.len()),
    decreases s.len(),
{
    if s.len() == 0 {
        lemma_pow2_pos(0);
    } else {
        lemma_be_val_bound(s.drop_last());
        lemma_pow2_adds(8 * (s.len() - 1) as nat, 8);
        lemma2_to64();
    }
}

pub struct SliceReader<'s> {
    pub buffer: &'s [u8],
    pub index: usize,
}

impl<'s> SliceReader<'s> {
    /// A cursor at the start of the buffer.
    pub fn new(buffer: &'s [u8]) -> (r: Self)
        ensures
            r.buffer@ == buffer@,
            r.index == 0,
    {
        Self { buffer, index: 0 }
    }

    /// The next byte, or `None` at the end of input.
    pub fn read_u8(&mut self) -> (r: Option<u8>)
        ensures
            final(self).buffer@ == old(self).buffer@,
            final(self).index >= old(self).index,
            old(self).index <= old(self).buffer@.len() ==> final(self).index <= old(
                self,
            ).buffer@.len(),
            old(self).index < old(self).buffer@.len() ==> r == Some(
                old(self).buffer@[old(self).index as int],
            ) && final(self).index == old(self).index + 1,
            old(self).index >= old(self).buffer@.len() ==> r is None && *final(self) == *old(self),
    {
        if self.index < self.buffer.len() {
            let byte = self.buffer[self.index];
            self.index += 1;
            Some(byte)
        } else {
            None
        }
    }

    /// Eight big-endian bytes as the bit pattern of a double, or
    /// `None` when fewer than eight bytes remain.
    pub fn read_f64(&mut self) -> (r: Option<u64>)
        ensures
            final(self).buffer@ == old(self).buffer@,
            final(self).index >= old(self).index,
            old(self).index <= old(self).buffer@.len() ==> final(self).index <= old(
                self,
            ).buffer@.len(),
            old(self).index + 8 <= old(self).buffer@.len() ==> r == Some(
                (be_val(old(self).buffer@.subrange(old(self).index as int, old(self).index + 8))
                    as u64),
            ) && final(self).index == old(self).index + 8,
            old(self).index + 8 > old(self).buffer@.len() ==> r is None && *final(self) == *old(
                self,
            ),
    {
        self.read_int(8)
    }

    /// `bytes` big-endian bytes as an unsigned integer, or `None` when
    /// `bytes` is not in 1..=8 or not enough input remains.
    pub fn read_int(&mut self, bytes: usize) -> (r: Option<u64>)
        ensures
            final(self).buffer@ == old(self).buffer@,
            final(self).index >= old(self).index,
            old(self).index <= old(self).buffer@.len() ==> final(self).index <= old(
                self,
            ).buffer@.len(),
            1 <= bytes <= 8 && old(self).index + bytes <= old(self).buffer@.len() ==> r == Some(
                (be_val(
                    old(self).buffer@.subrange(
                        old(self).index as int,
                        old(self).index + bytes,
                    ),
                ) as u64),
            ) && final(self).index == old(self).index + bytes,
            !(1 <= bytes <= 8 && old(self).index + bytes <= old(self).buffer@.len()) ==> r is None
                && *final(self) == *old(self),
            r matches Some(v) ==> (bytes < 8 ==> v < pow2(8 * bytes as nat)),
    {
        if bytes >= 1 && bytes <= 8 && self.index < self.buffer.len() && bytes - 1
            <= self.buffer.len() - 1 - self.index {
            let start = self.index;
            let blen = self.buffer.len();
            let mut acc: u64 = 0;
            let mut k: usize = 0;
            proof {
                lemma_pow2_pos(0);
                assert(old(self).buffer@.subrange(start as int, start as int) =~= Seq::<
                    u8,
                >::empty());
            }
            while k < bytes
                invariant
                    1 <= bytes <= 8,
                    k <= bytes,
                    start == old(self).index,
                    self.index == start,
                    self.buffer@ == old(self).buffer@,
                    start + bytes <= self.buffer@.len(),
                    blen == self.buffer@.len(),
                    acc == be_val(self.buffer@.subrange(start as int, start + k)),
                    acc < pow2(8 * k as nat),
                decreases bytes - k,
            {
                let byte = self.buffer[start + k];
                proof {
                    lemma_pow2_adds(8 * k as nat, 8);
                    lemma2_to64();
                    lemma2_to64_rest();
                    assert(self.buffer@.subrange(start as int, start + k + 1).drop_last()
                        =~= self.buffer@.subrange(start as int, start + k));
                    if 8 * (k + 1) < 64 {
                        lemma_pow2_strictly_increases(8 * (k + 1) as nat, 64);
                    }
                }
                acc = acc * 256 + byte as u64;
                k += 1;
            }
            self.index = start + bytes;
            Some(acc)
        } else {
            None
        }
    }

    /// A borrowed view of the next `len` bytes, or `None` when not
    /// enough input remains. A zero length at the end of input is
    /// refused, as the cursor's bound arithmetic has no room for it.
    pub fn read_bytes(&mut self, len: usize) -> (r: Option<&'s [u8]>)
        ensures
            final(self).buffer@ == old(self).buffer@,
            final(self).index >= old(self).index,
            old(self).index <= old(self).buffer@.len() ==> final(self).index <= old(
                self,
            ).buffer@.len(),
            len >= 1 && old(self).index + len <= old(self).buffer@.len() ==> (r matches Some(b)
                && b@ == old(self).buffer@.subrange(old(self).index as int, old(self).index + len)
                && final(self).index == old(self).index + len),
            len == 0 && 1 <= old(self).index <= old(self).buffer@.len() ==> (r matches Some(b)
                && b@ == Seq::<u8>::empty() && final(self).index == old(self).index),
            len == 0 && old(self).index == 0 ==> r is None && *final(self) == *old(self),
            len >= 1 && old(self).index + len > old(self).buffer@.len() ==> r is None
                && *final(self) == *old(self),
    {
        if len == 0 {
            if self.index >= 1 && self.index <= self.buffer.len() {
                let bytes = vstd::slice::slice_subrange(self.buffer, self.index, self.index);
                return Some(bytes);
            }
            return None;
        }
        if len <= self.buffer.len() && self.index <= self.buffer.len() - len {
            let bytes = vstd::slice::slice_subrange(self.buffer, self.index, self.index + len);
            self.index += len;
            Some(bytes)
        } else {
            None
        }
    }

    /// The next `len` bytes as lossy UTF-8 text, or `None` when not
    /// enough input remains.
    pub fn read_string(&mut self, len: usize) -> (r: Option<Vec<u8>>)
        ensures
            final(self).buffer@ == old(self).buffer@,
            final(self).index >= old(self).index,
            old(self).index <= old(self).buffer@.len() ==> final(self).index <= old(
                self,
            ).buffer@.len(),
            len >= 1 && old(self).index + len <= old(self).buffer@.len() ==> (r matches Some(b)
                && b@ == utf8_lossy(
                old(self).buffer@.subrange(old(self).index as int, old(self).index + len),
            ) && final(self).index == old(self).index + len),
            len == 0 && 1 <= old(self).index <= old(self).buffer@.len() ==> (r matches Some(b)
                && b@ == utf8_lossy(Seq::<u8>::empty()) && final(self).index == old(self).index),
            len == 0 && old(self).index == 0 ==> r is None && *final(self) == *old(self),
            len >= 1 && old(self).index + len > old(self).buffer@.len() ==> r is None
                && *final(self) == *old(self),
    {
        match self.read_bytes(len) {
            None => None,
            Some(bytes) => Some(utf8_lossy_bytes(bytes)),
        }
    }
}

} // verus!
