//! The sequential encoder: owns a bit sequence and a write cursor, and
//! appends typed values bit by bit under a fixed bit-ordering strategy.
//!
//! Every write appends at the end of the stream and advances the cursor by
//! exactly the number of bits written. The cursor counts bits written; it
//! can be repositioned manually with `advance` and `rewind` for external
//! bookkeeping, which does not move the append position. Bits already
//! written can be overwritten in place with `set_bit` and `set_bits`.
use crate::field::{export_to_bytes, import_from_bytes, store_field, unsign};
use crate::order::{
    bits_of_value, byte_bits, export_bytes, import_bits, lemma_import_bits_len,
    lemma_import_bits_snoc, to_u64, BitOrdering,
};
use crate::storage::{max_bits, raw_bits, BitBuf};
use vstd::arithmetic::div_mod::{lemma_fundamental_div_mod, lemma_hoist_over_denominator};
use vstd::prelude::*;
use vstd::string::StringSliceAdditionalSpecFns;

verus! {

/// The sequential encoder over a bit stream.
#[derive(Debug)]
pub struct BitVecWriter {
    order: BitOrdering,
    cursor: usize,
    buf: BitBuf,
}

impl BitVecWriter {
    /// The bit-ordering strategy this writer was constructed with.
    pub closed spec fn ordering(&self) -> BitOrdering {
        self.order
    }

    /// The bit stream written so far.
    pub closed spec fn sbits(&self) -> Seq<bool> {
        raw_bits(self.buf)
    }

    /// The cursor: the count of bits written, unless repositioned manually.
    pub closed spec fn spec_cursor(&self) -> nat {
        self.cursor as nat
    }

    /// A writer over a pre-built bit sequence. The cursor starts at zero:
    /// seeded bits do not count as written.
    pub fn new(order: BitOrdering, bits: BitBuf) -> (r: BitVecWriter)
        ensures
            r.ordering() == order,
            r.sbits() == raw_bits(bits),
            r.spec_cursor() == 0,
    {
        BitVecWriter { order, cursor: 0, buf: bits }
    }

    /// A writer over an empty bit sequence.
    pub fn new_empty(order: BitOrdering) -> (r: BitVecWriter)
        ensures
            r.ordering() == order,
            r.sbits() == Seq::<bool>::empty(),
            r.spec_cursor() == 0,
    {
        BitVecWriter { order, cursor: 0, buf: BitBuf::new() }
    }

    /// A writer seeded with a byte buffer: each byte contributes its eight
    /// bits under the selected ordering. The cursor starts at zero.
    pub fn from_bytes(order: BitOrdering, bytes: Vec<u8>) -> (r: BitVecWriter)
        requires
            8 * bytes@.len() <= max_bits(),
        ensures
            r.ordering() == order,
            r.sbits() == import_bits(order, bytes@),
            r.spec_cursor() == 0,
    {
        BitVecWriter { order, cursor: 0, buf: import_from_bytes(order, bytes.as_slice()) }
    }

    /// A writer seeded with a byte slice, as `from_bytes`.
    pub fn from_byte_slice(order: BitOrdering, bytes: &[u8]) -> (r: BitVecWriter)
        requires
            8 * bytes@.len() <= max_bits(),
        ensures
            r.ordering() == order,
            r.sbits() == import_bits(order, bytes@),
            r.spec_cursor() == 0,
    {
        BitVecWriter { order, cursor: 0, buf: import_from_bytes(order, bytes) }
    }

    /// Consumes the writer and exports its stream as bytes under the
    /// selected ordering; a trailing partial byte is zero-filled.
    pub fn into_bytes(self) -> (r: Vec<u8>)
        ensures
            r@ == export_bytes(self.ordering(), self.sbits()),
    {
        export_to_bytes(&self.buf, self.order)
    }

    /// Consumes the writer and yields the underlying bit sequence.
    pub fn into_bitvec(self) -> (r: BitBuf)
        ensures
            raw_bits(r) == self.sbits(),
    {
        self.buf
    }

    /// The total length of the stream in bits, seeded bits included.
    pub fn bits_len(&self) -> (r: usize)
        ensures
            r == self.sbits().len(),
    {
        self.buf.len()
    }

    /// The number of bits written so far: the cursor.
    pub fn bits_written(&self) -> (r: usize)
        ensures
            r == self.spec_cursor(),
    {
        self.cursor
    }

    /// The number of bytes written so far, rounded up to the byte:
    /// `ceil(bits_written / 8)`.
    pub fn bytes_written(&self) -> (r: usize)
        ensures
            r == (self.spec_cursor() + 7) / 8,
    {
        proof {
            let c = self.cursor as int;
            lemma_fundamental_div_mod(c, 8);
            lemma_hoist_over_denominator(c % 8 + 7, c / 8, 8);
        }
        self.cursor / 8 + (if self.cursor % 8 != 0 {
            1
        } else {
            0
        })
    }

    /// Moves the cursor forward by `n` bits without writing.
    pub fn advance(&mut self, n: usize)
        requires
            old(self).spec_cursor() + n <= usize::MAX,
        ensures
            final(self).ordering() == old(self).ordering(),
            final(self).sbits() == old(self).sbits(),
            final(self).spec_cursor() == old(self).spec_cursor() + n,
    {
        self.cursor += n;
    }

    /// Moves the cursor back by `n` bits without erasing anything.
    pub fn rewind(&mut self, n: usize)
        requires
            n <= old(self).spec_cursor(),
        ensures
            final(self).ordering() == old(self).ordering(),
            final(self).sbits() == old(self).sbits(),
            final(self).spec_cursor() == old(self).spec_cursor() - n,
    {
        self.cursor -= n;
    }

    /// Appends a single bit and advances the cursor by one.
    pub fn write_bit(&mut self, bit: bool)
        requires
            old(self).sbits().len() < max_bits(),
            old(self).spec_cursor() < usize::MAX,
        ensures
            final(self).ordering() == old(self).ordering(),
            final(self).sbits() == old(self).sbits().push(bit),
            final(self).spec_cursor() == old(self).spec_cursor() + 1,
    {
        self.buf.push(bit);
        self.cursor += 1;
    }

    /// Appends the eight bits of a byte under the selected ordering and
    /// advances the cursor by eight.
    pub fn write_byte(&mut self, byte: u8)
        requires
            old(self).sbits().len() + 8 <= max_bits(),
            old(self).spec_cursor() + 8 <= usize::MAX,
        ensures
            final(self).ordering() == old(self).ordering(),
            final(self).sbits() == old(self).sbits() + byte_bits(old(self).ordering(), byte),
            final(self).spec_cursor() == old(self).spec_cursor() + 8,
    {
        store_field(&mut self.buf, self.order, byte as u64, 8);
        self.cursor += 8;
    }

    /// Appends each byte of a buffer in turn under the selected ordering
    /// and advances the cursor by eight bits per byte.
    pub fn write_bytes(&mut self, bytes: &[u8])
        requires
            old(self).sbits().len() + 8 * bytes@.len() <= max_bits(),
            old(self).spec_cursor() + 8 * bytes@.len() <= usize::MAX,
        ensures
            final(self).ordering() == old(self).ordering(),
            final(self).sbits() == old(self).sbits() + import_bits(old(self).ordering(), bytes@),
            final(self).spec_cursor() == old(self).spec_cursor() + 8 * bytes@.len(),
    {
        let ghost orig = self.sbits();
        let ghost orig_cursor = self.spec_cursor();
        let n = bytes.len();
        let mut j: usize = 0;
        proof {
            assert(bytes@.take(0) =~= Seq::<u8>::empty());
            assert(orig + import_bits(self.ordering(), bytes@.take(0)) =~= orig);
        }
        while j < n
            invariant
                j <= n,
                n == bytes@.len(),
                self.ordering() == old(self).ordering(),
                orig == old(self).sbits(),
                orig_cursor == old(self).spec_cursor(),
                orig.len() + 8 * n <= max_bits(),
                orig_cursor + 8 * n <= usize::MAX,
                self.sbits() == orig + import_bits(self.ordering(), bytes@.take(j as int)),
                self.spec_cursor() == orig_cursor + 8 * j,
            decreases n - j,
        {
            proof {
                lemma_import_bits_len(self.ordering(), bytes@.take(j as int));
                lemma_import_bits_snoc(self.ordering(), bytes@.take(j as int), bytes@[j as int]);
                assert(bytes@.take(j as int).push(bytes@[j as int]) =~= bytes@.take(j + 1));
            }
            let b = bytes[j];
            store_field(&mut self.buf, self.order, b as u64, 8);
            self.cursor += 8;
            proof {
                assert(self.sbits() =~= orig + import_bits(self.ordering(), bytes@.take(j + 1)));
            }
            j += 1;
        }
        proof {
            assert(bytes@.take(n as int) =~= bytes@);
        }
    }

    /// Appends the low `bits` bits of an unsigned value under the selected
    /// ordering and advances the cursor by `bits`. A value that does not
    /// fit in `bits` bits is silently truncated to its low `bits` bits.
    pub fn write_uint(&mut self, value: u64, bits: usize)
        requires
            1 <= bits <= 64,
            old(self).sbits().len() + bits <= max_bits(),
            old(self).spec_cursor() + bits <= usize::MAX,
        ensures
            final(self).ordering() == old(self).ordering(),
            final(self).sbits() == old(self).sbits() + bits_of_value(
                old(self).ordering(),
                value as nat,
                bits as nat,
            ),
            final(self).spec_cursor() == old(self).spec_cursor() + bits,
    {
        store_field(&mut self.buf, self.order, value, bits);
        self.cursor += bits;
    }

    /// Appends the low `bits` bits of a signed value's 64-bit
    /// two's-complement representation under the selected ordering and
    /// advances the cursor by `bits`. A value whose magnitude does not fit
    /// in `bits` bits is silently truncated.
    pub fn write_int(&mut self, value: i64, bits: usize)
        requires
            1 <= bits <= 64,
            old(self).sbits().len() + bits <= max_bits(),
            old(self).spec_cursor() + bits <= usize::MAX,
        ensures
            final(self).ordering() == old(self).ordering(),
            final(self).sbits() == old(self).sbits() + bits_of_value(
                old(self).ordering(),
                to_u64(value),
                bits as nat,
            ),
            final(self).spec_cursor() == old(self).spec_cursor() + bits,
    {
        let u = unsign(value);
        store_field(&mut self.buf, self.order, u, bits);
        self.cursor += bits;
    }

    /// Appends a 32-bit float bit pattern at its full natural width under
    /// the selected ordering and advances the cursor by 32.
    pub fn write_float_bits(&mut self, pattern: u32)
        requires
            old(self).sbits().len() + 32 <= max_bits(),
            old(self).spec_cursor() + 32 <= usize::MAX,
        ensures
            final(self).ordering() == old(self).ordering(),
            final(self).sbits() == old(self).sbits() + bits_of_value(
                old(self).ordering(),
                pattern as nat,
                32,
            ),
            final(self).spec_cursor() == old(self).spec_cursor() + 32,
    {
        self.write_uint(pattern as u64, 32);
    }

    /// Appends a 64-bit float bit pattern at its full natural width under
    /// the selected ordering and advances the cursor by 64.
    pub fn write_double_bits(&mut self, pattern: u64)
        requires
            old(self).sbits().len() + 64 <= max_bits(),
            old(self).spec_cursor() + 64 <= usize::MAX,
        ensures
            final(self).ordering() == old(self).ordering(),
            final(self).sbits() == old(self).sbits() + bits_of_value(
                old(self).ordering(),
                pattern as nat,
                64,
            ),
            final(self).spec_cursor() == old(self).spec_cursor() + 64,
    {
        self.write_uint(pattern, 64);
    }

    /// Appends the UTF-8 encoding of a string, with no length prefix and
    /// no terminator.
    pub fn write_string(&mut self, text: &str)
        requires
            old(self).sbits().len() + 8 * text.spec_bytes().len() <= max_bits(),
            old(self).spec_cursor() + 8 * text.spec_bytes().len() <= usize::MAX,
        ensures
            final(self).ordering() == old(self).ordering(),
            final(self).sbits() == old(self).sbits() + import_bits(
                old(self).ordering(),
                text.spec_bytes(),
            ),
            final(self).spec_cursor() == old(self).spec_cursor() + 8 * text.spec_bytes().len(),
    {
        self.write_bytes(text.as_bytes());
    }

    /// Appends the UTF-8 encoding of a string followed by a single NUL
    /// byte.
    pub fn write_string_nul(&mut self, text: &str)
        requires
            old(self).sbits().len() + 8 * text.spec_bytes().len() + 8 <= max_bits(),
            old(self).spec_cursor() + 8 * text.spec_bytes().len() + 8 <= usize::MAX,
        ensures
            final(self).ordering() == old(self).ordering(),
            final(self).sbits() == old(self).sbits() + import_bits(
                old(self).ordering(),
                text.spec_bytes().push(0u8),
            ),
            final(self).spec_cursor() == old(self).spec_cursor() + 8 * text.spec_bytes().len() + 8,
    {
        proof {
            lemma_import_bits_snoc(self.ordering(), text.spec_bytes(), 0u8);
            lemma_import_bits_len(self.ordering(), text.spec_bytes());
        }
        self.write_string(text);
        self.write_byte(0);
        proof {
            assert(self.sbits() =~= old(self).sbits() + import_bits(
                old(self).ordering(),
                text.spec_bytes().push(0u8),
            ));
        }
    }

    /// Overwrites one already-written bit at an absolute bit index. The
    /// index must lie within the stream.
    pub fn set_bit(&mut self, index: usize, bit: bool)
        requires
            index < old(self).sbits().len(),
        ensures
            final(self).ordering() == old(self).ordering(),
            final(self).sbits() == old(self).sbits().update(index as int, bit),
            final(self).spec_cursor() == old(self).spec_cursor(),
    {
        self.buf.set(index, bit);
    }

    /// Overwrites a run of already-written bits starting at an absolute
    /// bit index. The whole run must lie within the stream.
    pub fn set_bits(&mut self, index: usize, bits: &[bool])
        requires
            index + bits@.len() <= old(self).sbits().len(),
        ensures
            final(self).ordering() == old(self).ordering(),
            final(self).sbits().len() == old(self).sbits().len(),
            final(self).sbits() == Seq::new(
                old(self).sbits().len(),
                |i: int|
                    if index <= i < index + bits@.len() {
                        bits@[i - index]
                    } else {
                        old(self).sbits()[i]
                    },
            ),
            final(self).spec_cursor() == old(self).spec_cursor(),
    {
        let ghost orig = self.sbits();
        let total = self.buf.len();
        let n = bits.len();
        let mut j: usize = 0;
        proof {
            assert(self.sbits() =~= Seq::new(
                orig.len(),
                |i: int|
                    if index <= i < index + 0 {
                        bits@[i - index]
                    } else {
                        orig[i]
                    },
            ));
        }
        while j < n
            invariant
                j <= n,
                n == bits@.len(),
                index + n <= orig.len(),
                total == orig.len(),
                total <= usize::MAX / 8,
                orig == old(self).sbits(),
                self.ordering() == old(self).ordering(),
                self.spec_cursor() == old(self).spec_cursor(),
                self.sbits().len() == orig.len(),
                self.sbits() == Seq::new(
                    orig.len(),
                    |i: int|
                        if index <= i < index + j {
                            bits@[i - index]
                        } else {
                            orig[i]
                        },
                ),
            decreases n - j,
        {
            self.buf.set(index + j, bits[j]);
            proof {
                assert(self.sbits() =~= Seq::new(
                    orig.len(),
                    |i: int|
                        if index <= i < index + j + 1 {
                            bits@[i - index]
                        } else {
                            orig[i]
                        },
                ));
            }
            j += 1;
        }
    }
}

impl Default for BitVecWriter {
    /// An empty most-significant-bit-first writer.
    fn default() -> (r: BitVecWriter)
        ensures
            r.ordering() == BitOrdering::MsbFirst,
            r.sbits() == Seq::<bool>::empty(),
            r.spec_cursor() == 0,
    {
        BitVecWriter::new_empty(BitOrdering::MsbFirst)
    }
}

} // verus!
