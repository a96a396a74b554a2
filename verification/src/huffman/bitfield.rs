//! The 64-bit staging register that variable-width codes are pulled
//! from. Only the low `len` bits are meaningful; the byte-level fill
//! paths never grow it beyond 56 bits, leaving room for a fresh byte.
use vstd::prelude::*;

verus! {

#[derive(Clone, Copy)]
pub struct Bitfield {
    pub data: u64,
    pub len: u8,
}

/// The register's invariant: at most 64 meaningful bits, and nothing
/// set above them.
pub open spec fn bf_inv(b: Bitfield) -> bool {
    b.len <= 64 && (b.len < 64 ==> b.data < (1u64 << (b.len as u64)))
}

/// The state `fill_from_iterator` drives `(data, len, pos)` to: bytes
/// are inserted at the top of the register until it holds at least 56
/// bits or the input runs out.
pub open spec fn fill_spec(data: u64, len: u8, bytes: Seq<u8>, pos: int) -> (u64, u8, int)
    decreases bytes.len() - pos,
{
    if 0 <= pos < bytes.len() && len < 56 {
        fill_spec(
            (data + ((bytes[pos] as u64) << (len as u64))) as u64,
            (len + 8) as u8,
            bytes,
            pos + 1,
        )
    } else {
        (data, len, pos)
    }
}

/// The register contents after a byte lands above the meaningful bits.
pub open spec fn merged_spec(b: Bitfield, byte: u8) -> u64 {
    (b.data + ((byte as u64) << (b.len as u64))) as u64
}

impl Bitfield {
    /// An empty register.
    pub fn new() -> (r: Self)
        ensures
            r.data == 0,
            r.len == 0,
            bf_inv(r),
    {
        proof {
            assert(0u64 < (1u64 << 0u64)) by (bit_vector);
        }
        Self { data: 0, len: 0 }
    }

    /// The raw register contents.
    pub fn get_data(&self) -> (r: u64)
        ensures
            r == self.data,
    {
        self.data
    }

    /// How many meaningful bits the register holds.
    pub fn get_len(&self) -> (r: u8)
        ensures
            r == self.len,
    {
        self.len
    }

    /// Inserts one byte above the meaningful bits; fails when fewer
    /// than eight bits of room remain.
    pub fn insert(&mut self, byte: u8) -> (r: Result<(), ()>)
        requires
            bf_inv(*old(self)),
        ensures
            bf_inv(*final(self)),
            old(self).len < 56 ==> r == Ok::<(), ()>(()) && final(self).data == old(self).data + (
            (byte as u64) << (old(self).len as u64)) && final(self).len == old(self).len + 8,
            old(self).len >= 56 ==> r == Err::<(), ()>(()) && *final(self) == *old(self),
    {
        if self.len < 56 {
            let cur_data = self.data;
            let cur_len = self.len;
            proof {
                assert(cur_data + ((byte as u64) << (cur_len as u64)) < (1u64 << ((cur_len
                    + 8) as u64))) by (bit_vector)
                    requires
                        cur_len < 56,
                        cur_data < (1u64 << (cur_len as u64)),
                ;
            }
            self.data = cur_data + ((byte as u64) << (cur_len as u64));
            self.len = cur_len + 8;
            Ok(())
        } else {
            Err(())
        }
    }

    /// Inserts bytes from `bytes` starting at `*pos` until the register
    /// holds at least 56 bits or the input is exhausted; `*pos` is
    /// advanced past the consumed bytes.
    pub fn fill_from_iterator(&mut self, bytes: &[u8], pos: &mut usize)
        requires
            bf_inv(*old(self)),
            *old(pos) <= bytes@.len(),
        ensures
            bf_inv(*final(self)),
            *final(pos) <= bytes@.len(),
            (final(self).data, final(self).len, *final(pos) as int) == fill_spec(
                old(self).data,
                old(self).len,
                bytes@,
                *old(pos) as int,
            ),
            final(self).len >= 56 || *final(pos) == bytes@.len(),
            final(self).len >= old(self).len,
            *final(pos) >= *old(pos),
            *final(pos) == *old(pos) ==> *final(self) == *old(self),
    {
        while self.len < 56 && *pos < bytes.len()
            invariant
                bf_inv(*self),
                *pos <= bytes@.len(),
                self.len >= old(self).len,
                *pos >= *old(pos),
                *pos == *old(pos) ==> *self == *old(self),
                fill_spec(self.data, self.len, bytes@, *pos as int) == fill_spec(
                    old(self).data,
                    old(self).len,
                    bytes@,
                    *old(pos) as int,
                ),
            decreases bytes@.len() - *pos,
        {
            let byte = bytes[*pos];
            let cur_data = self.data;
            let cur_len = self.len;
            proof {
                assert(cur_data + ((byte as u64) << (cur_len as u64)) < (1u64 << ((cur_len
                    + 8) as u64))) by (bit_vector)
                    requires
                        cur_len < 56,
                        cur_data < (1u64 << (cur_len as u64)),
                ;
            }
            self.data = cur_data + ((byte as u64) << (cur_len as u64));
            self.len = cur_len + 8;
            *pos = *pos + 1;
        }
    }

    /// The low eight bits of the register.
    pub fn peek_byte(&self) -> (r: u8)
        ensures
            r == (self.data & 0xFF) as u8,
            r as u64 == self.data & 0xFF,
    {
        let cur_data = self.data;
        proof {
            assert((cur_data as u8) == (cur_data & 0xFF) as u8 && ((cur_data as u8) as u64)
                == cur_data & 0xFF) by (bit_vector);
        }
        #[verifier::truncate]
        (cur_data as u8)
    }

    /// The low `bits` bits of the register.
    pub fn peek_bits(&self, bits: u8) -> (r: u64)
        requires
            bits < 64,
        ensures
            r == self.data & (((1u64 << (bits as u64)) - 1) as u64),
    {
        proof {
            assert(bits < 64 ==> (1u64 << (bits as u64)) >= 1) by (bit_vector);
        }
        self.data & ((1u64 << (bits as u64)) - 1)
    }

    /// Drops the low `bits` bits; the length saturates at zero.
    pub fn discard_bits(&mut self, bits: u8)
        requires
            bf_inv(*old(self)),
            bits < 64,
        ensures
            bf_inv(*final(self)),
            final(self).data == old(self).data >> (bits as u64),
            final(self).len == if old(self).len >= bits {
                (old(self).len - bits) as u8
            } else {
                0u8
            },
    {
        let cur_data = self.data;
        let cur_len = self.len;
        proof {
            assert((cur_len < 64 && cur_data < (1u64 << (cur_len as u64)) && bits <= cur_len ==> (
            cur_data >> (bits as u64)) < (1u64 << (((cur_len - bits) as u8) as u64))) && (cur_len
                < 64 && cur_data < (1u64 << (cur_len as u64)) && bits > cur_len ==> (cur_data >> (
            bits as u64)) < (1u64 << 0u64)) && (cur_len == 64 && 1 <= bits < 64 ==> (cur_data >> (
            bits as u64)) < (1u64 << (((64 - bits) as u8) as u64)))) by (bit_vector);
        }
        self.data = cur_data >> (bits as u64);
        self.len = if cur_len >= bits {
            cur_len - bits
        } else {
            0
        };
    }

    /// Removes and returns the low `bits` bits.
    pub fn extract_bits(&mut self, bits: u8) -> (r: u64)
        requires
            bf_inv(*old(self)),
            bits < 64,
        ensures
            bf_inv(*final(self)),
            r == old(self).data & (((1u64 << (bits as u64)) - 1) as u64),
            final(self).data == old(self).data >> (bits as u64),
            final(self).len == if old(self).len >= bits {
                (old(self).len - bits) as u8
            } else {
                0u8
            },
    {
        proof {
            assert(bits < 64 ==> (1u64 << (bits as u64)) >= 1) by (bit_vector);
        }
        let result = self.data & ((1u64 << (bits as u64)) - 1);
        self.discard_bits(bits);
        result
    }

    /// Removes and returns the low byte; fails when fewer than eight
    /// bits are buffered.
    pub fn extract_byte(&mut self) -> (r: Result<u8, ()>)
        requires
            bf_inv(*old(self)),
        ensures
            bf_inv(*final(self)),
            old(self).len >= 8 ==> r == Ok::<u8, ()>(((old(self).data & 0xFF) as u8)) && final(self).data
                == old(self).data >> 8 && final(self).len == old(self).len - 8,
            old(self).len < 8 ==> r == Err::<u8, ()>(()) && *final(self) == *old(self),
    {
        if self.len >= 8 {
            let result = self.peek_byte();
            self.discard_bits(8);
            Ok(result)
        } else {
            Err(())
        }
    }

    /// Inserts a byte and extracts the low byte in one step. The two
    /// branches differ in whether the new byte lands before or after
    /// the extraction; they must stay as they are.
    pub fn insert_and_extract_byte(&mut self, byte: u8) -> (r: u8)
        requires
            bf_inv(*old(self)),
        ensures
            bf_inv(*final(self)),
            final(self).len == old(self).len,
            old(self).len <= 56 ==> r == (merged_spec(*old(self), byte) & 0xFF) as u8 && final(self).data
                == merged_spec(*old(self), byte) >> 8,
            old(self).len > 56 ==> r == (old(self).data & 0xFF) as u8 && final(self).data == (old(self).data
                >> 8) + ((byte as u64) << ((old(self).len - 8) as u64)),
    {
        let cur_data = self.data;
        let cur_len = self.len;
        if cur_len <= 56 {
            proof {
                assert(cur_len <= 56 && cur_data < (1u64 << (cur_len as u64)) ==> cur_data + ((
                byte as u64) << (cur_len as u64)) <= 0xFFFF_FFFF_FFFF_FFFFu64) by (bit_vector);
                assert(cur_len == 0 && cur_data == 0 ==> cur_data + ((byte as u64) << (
                cur_len as u64)) <= 0xFFFF_FFFF_FFFF_FFFFu64) by (bit_vector);
                assert(cur_len <= 56 && cur_data < (1u64 << (cur_len as u64)) ==> ((cur_data + ((
                byte as u64) << (cur_len as u64))) as u64) >> 8 < (1u64 << (cur_len as u64)))
                    by (bit_vector);
                assert(forall|x: u64| #[trigger] (x as u8) == (x & 0xFF) as u8) by (bit_vector);
            }
            let merged = cur_data + ((byte as u64) << (cur_len as u64));
            let result = #[verifier::truncate] (merged as u8);
            self.data = merged >> 8;
            result
        } else {
            proof {
                assert((forall|x: u64| #[trigger] (x as u8) == (x & 0xFF) as u8) && (56 < cur_len
                    && cur_len < 64 && cur_data < (1u64 << (cur_len as u64)) ==> (cur_data >> 8) + (
                (byte as u64) << (((cur_len - 8) as u8) as u64)) < (1u64 << (cur_len as u64))) && (
                cur_len == 64 ==> (cur_data >> 8) + ((byte as u64) << (((cur_len - 8) as u8) as u64))
                    <= 0xFFFF_FFFF_FFFF_FFFFu64)) by (bit_vector);
            }
            let result = #[verifier::truncate] (cur_data as u8);
            self.data = (cur_data >> 8) + ((byte as u64) << ((cur_len - 8) as u64));
            result
        }
    }
}

} // verus!
