//! The sequential decoder: owns a bit sequence and a read cursor, and
//! yields typed values consumed bit by bit under a fixed bit-ordering
//! strategy.
//!
//! Every read is all-or-nothing: it either consumes exactly the bits it
//! needs and advances the cursor by that count, or fails with no value and
//! leaves the cursor unchanged. That holds for every read operation,
//! single-bit reads included. Reaching the end of the stream is the
//! expected, recoverable outcome, never a fault.
use crate::field::{load_field, import_from_bytes, export_to_bytes, sign_extend};
use crate::order::{
    chunk_at, export_bytes, import_bits, lemma_stream_value_bound, stream_value, to_signed,
    BitOrdering,
};
use crate::storage::{max_bits, raw_bits, BitBuf};
use crate::text::{lossy_utf8, push_char, string_from_utf8, string_from_utf8_lossy};
use vstd::arithmetic::div_mod::{lemma_fundamental_div_mod, lemma_hoist_over_denominator};
use vstd::arithmetic::power2::lemma2_to64;
use vstd::prelude::*;
use vstd::utf8::{decode_utf8, valid_utf8};

verus! {

/// The byte a stream yields at bit position `pos` under an ordering.
pub open spec fn byte_at(o: BitOrdering, bits: Seq<bool>, pos: nat) -> u8
    recommends
        pos + 8 <= bits.len(),
{
    stream_value(o, bits.subrange(pos as int, pos as int + 8)) as u8
}

/// The content bytes a NUL-terminated read yields from bit position `pos`:
/// bytes up to but not including the first zero byte, or up to exhaustion
/// of the stream (a trailing run of fewer than eight bits is left alone).
pub open spec fn nul_bytes(o: BitOrdering, bits: Seq<bool>, pos: nat) -> Seq<u8>
    decreases bits.len() - pos,
{
    if pos + 8 > bits.len() {
        Seq::empty()
    } else if byte_at(o, bits, pos) == 0 {
        Seq::empty()
    } else {
        seq![byte_at(o, bits, pos)] + nul_bytes(o, bits, (pos + 8) as nat)
    }
}

/// The cursor position after a NUL-terminated read from bit position
/// `pos`: just past the terminating zero byte, or at `pos` plus the whole
/// bytes consumed when the stream ran out first.
pub open spec fn nul_end(o: BitOrdering, bits: Seq<bool>, pos: nat) -> nat
    decreases bits.len() - pos,
{
    if pos + 8 > bits.len() {
        pos
    } else if byte_at(o, bits, pos) == 0 {
        pos + 8
    } else {
        nul_end(o, bits, (pos + 8) as nat)
    }
}

/// The sequential decoder over a bit stream.
#[derive(Debug)]
pub struct BitVecReader {
    order: BitOrdering,
    cursor: usize,
    buf: BitBuf,
}

impl BitVecReader {
    /// The bit-ordering strategy this reader was constructed with.
    pub closed spec fn ordering(&self) -> BitOrdering {
        self.order
    }

    /// The bit stream this reader consumes.
    pub closed spec fn sbits(&self) -> Seq<bool> {
        raw_bits(self.buf)
    }

    /// The cursor: the position of the next unread bit.
    pub closed spec fn spec_cursor(&self) -> nat {
        self.cursor as nat
    }

    /// Whether `n` more bits lie between the cursor and the end of the
    /// stream.
    pub open spec fn fits(&self, n: nat) -> bool {
        self.spec_cursor() + n <= self.sbits().len()
    }

    /// The magnitude of the `w` bits at the cursor under this reader's
    /// ordering.
    pub open spec fn field_value(&self, w: nat) -> nat
        recommends
            self.fits(w),
    {
        stream_value(
            self.ordering(),
            self.sbits().subrange(self.spec_cursor() as int, (self.spec_cursor() + w) as int),
        )
    }

    /// The `n` bytes at the cursor under this reader's ordering.
    pub open spec fn bytes_at(&self, n: nat) -> Seq<u8>
        recommends
            self.fits(8 * n),
    {
        Seq::new(n, |j: int| byte_at(self.ordering(), self.sbits(), (self.spec_cursor() + 8 * j) as nat))
    }

    /// A reader over a pre-built bit sequence, with the cursor at the
    /// first bit.
    pub fn new(order: BitOrdering, bits: BitBuf) -> (r: BitVecReader)
        ensures
            r.ordering() == order,
            r.sbits() == raw_bits(bits),
            r.spec_cursor() == 0,
    {
        BitVecReader { order, cursor: 0, buf: bits }
    }

    /// A reader over a byte buffer: each byte contributes its eight bits
    /// under the selected ordering.
    pub fn from_bytes(order: BitOrdering, bytes: Vec<u8>) -> (r: BitVecReader)
        requires
            8 * bytes@.len() <= max_bits(),
        ensures
            r.ordering() == order,
            r.sbits() == import_bits(order, bytes@),
            r.spec_cursor() == 0,
    {
        BitVecReader { order, cursor: 0, buf: import_from_bytes(order, bytes.as_slice()) }
    }

    /// Consumes the reader and exports its whole stream as bytes under the
    /// selected ordering; a trailing partial byte is zero-filled.
    pub fn into_bytes(self) -> (r: Vec<u8>)
        ensures
            r@ == export_bytes(self.ordering(), self.sbits()),
    {
        export_to_bytes(&self.buf, self.order)
    }

    /// Consumes the reader and yields the underlying bit sequence.
    pub fn into_bitvec(self) -> (r: BitBuf)
        ensures
            raw_bits(r) == self.sbits(),
    {
        self.buf
    }

    /// The total length of the stream in bits.
    pub fn bits_len(&self) -> (r: usize)
        ensures
            r == self.sbits().len(),
    {
        self.buf.len()
    }

    /// The total length of the stream in bytes, rounded up to the byte.
    pub fn bytes_len(&self) -> (r: usize)
        ensures
            r == (self.sbits().len() + 7) / 8,
    {
        ceil8(self.buf.len())
    }

    /// The number of unread bits between the cursor and the end of the
    /// stream. The cursor must not have been advanced past the end.
    pub fn bits_left(&self) -> (r: usize)
        requires
            self.spec_cursor() <= self.sbits().len(),
        ensures
            r == self.sbits().len() - self.spec_cursor(),
    {
        self.buf.len() - self.cursor
    }

    /// The number of unread bytes, rounded up to the byte. The cursor must
    /// not have been advanced past the end.
    pub fn bytes_left(&self) -> (r: usize)
        requires
            self.spec_cursor() <= self.sbits().len(),
        ensures
            r == (self.sbits().len() - self.spec_cursor() + 7) / 8,
    {
        ceil8(self.buf.len() - self.cursor)
    }

    /// The number of bits already consumed: the cursor.
    pub fn bits_read(&self) -> (r: usize)
        ensures
            r == self.spec_cursor(),
    {
        self.cursor
    }

    /// The number of bytes already consumed, rounded up to the byte.
    pub fn bytes_read(&self) -> (r: usize)
        ensures
            r == (self.spec_cursor() + 7) / 8,
    {
        ceil8(self.cursor)
    }

    /// Moves the cursor forward by `n` bits without reading. A cursor
    /// pushed past the end of the stream makes later reads fail rather
    /// than fault.
    pub fn advance(&mut self, n: usize)
        requires
            old(self).spec_cursor() + n <= usize::MAX,
        ensures
            final(self).ordering() == old(self).ordering(),
            final(self).sbits() == old(self).sbits(),
            final(self).spec_cursor() == old(self).spec_cursor() + n,
    {
        self.cursor += n;
    }

    /// Moves the cursor back by `n` bits, un-reading them.
    pub fn rewind(&mut self, n: usize)
        requires
            n <= old(self).spec_cursor(),
        ensures
            final(self).ordering() == old(self).ordering(),
            final(self).sbits() == old(self).sbits(),
            final(self).spec_cursor() == old(self).spec_cursor() - n,
    {
        self.cursor -= n;
    }

    /// Reads the `w` bits at the cursor as an unsigned magnitude, or
    /// yields nothing, leaving the cursor in place, when fewer than `w`
    /// bits remain.
    fn read_field(&mut self, w: usize) -> (r: Option<u64>)
        requires
            1 <= w <= 64,
        ensures
            final(self).ordering() == old(self).ordering(),
            final(self).sbits() == old(self).sbits(),
            old(self).fits(w as nat) ==> (r matches Some(v) && v as nat == old(self).field_value(
                w as nat,
            ) && final(self).spec_cursor() == old(self).spec_cursor() + w),
            !old(self).fits(w as nat) ==> r is None && final(self).spec_cursor() == old(
                self,
            ).spec_cursor(),
    {
        let total = self.buf.len();
        if self.cursor > total || w > total - self.cursor {
            return None;
        }
        let v = load_field(&self.buf, self.order, self.cursor, w);
        proof {
            assert(chunk_at(self.sbits(), self.spec_cursor(), w as nat) =~= self.sbits().subrange(
                self.spec_cursor() as int,
                (self.spec_cursor() + w) as int,
            ));
        }
        self.cursor += w;
        Some(v)
    }

    /// Reads a single bit, or yields nothing when the cursor is at or past
    /// the end of the stream. A failed read leaves the cursor unchanged,
    /// here as in every other read operation.
    pub fn read_bit(&mut self) -> (r: Option<bool>)
        ensures
            final(self).ordering() == old(self).ordering(),
            final(self).sbits() == old(self).sbits(),
            old(self).fits(1) ==> r == Some(old(self).sbits()[old(self).spec_cursor() as int])
                && final(self).spec_cursor() == old(self).spec_cursor() + 1,
            !old(self).fits(1) ==> r is None && final(self).spec_cursor() == old(
                self,
            ).spec_cursor(),
    {
        let total = self.buf.len();
        if self.cursor < total {
            let bit = self.buf.at(self.cursor);
            self.cursor += 1;
            Some(bit)
        } else {
            None
        }
    }

    /// Reads the `bits` bits at the cursor as an unsigned value under this
    /// reader's ordering, or yields nothing, leaving the cursor in place,
    /// when fewer than `bits` bits remain.
    pub fn read_uint(&mut self, bits: usize) -> (r: Option<u64>)
        requires
            1 <= bits <= 64,
        ensures
            final(self).ordering() == old(self).ordering(),
            final(self).sbits() == old(self).sbits(),
            old(self).fits(bits as nat) ==> (r matches Some(v) && v as nat == old(
                self,
            ).field_value(bits as nat) && final(self).spec_cursor() == old(self).spec_cursor()
                + bits),
            !old(self).fits(bits as nat) ==> r is None && final(self).spec_cursor() == old(
                self,
            ).spec_cursor(),
    {
        self.read_field(bits)
    }

    /// Reads the `bits` bits at the cursor as a signed value: the unsigned
    /// magnitude is sign-extended from bit `bits - 1`. Yields nothing,
    /// leaving the cursor in place, when fewer than `bits` bits remain.
    pub fn read_int(&mut self, bits: usize) -> (r: Option<i64>)
        requires
            1 <= bits <= 64,
        ensures
            final(self).ordering() == old(self).ordering(),
            final(self).sbits() == old(self).sbits(),
            old(self).fits(bits as nat) ==> (r matches Some(v) && v as int == to_signed(
                old(self).field_value(bits as nat),
                bits as nat,
            ) && final(self).spec_cursor() == old(self).spec_cursor() + bits),
            !old(self).fits(bits as nat) ==> r is None && final(self).spec_cursor() == old(
                self,
            ).spec_cursor(),
    {
        let ghost prior = *self;
        match self.read_field(bits) {
            None => None,
            Some(u) => {
                proof {
                    lemma_stream_value_bound(
                        prior.ordering(),
                        prior.sbits().subrange(
                            prior.spec_cursor() as int,
                            (prior.spec_cursor() + bits) as int,
                        ),
                    );
                }
                Some(sign_extend(u, bits))
            },
        }
    }

    /// Reads the eight bits at the cursor as one byte under this reader's
    /// ordering, or yields nothing, leaving the cursor in place, when
    /// fewer than eight bits remain.
    pub fn read_byte(&mut self) -> (r: Option<u8>)
        ensures
            final(self).ordering() == old(self).ordering(),
            final(self).sbits() == old(self).sbits(),
            old(self).fits(8) ==> (r matches Some(b) && b as nat == old(self).field_value(8)
                && final(self).spec_cursor() == old(self).spec_cursor() + 8),
            !old(self).fits(8) ==> r is None && final(self).spec_cursor() == old(
                self,
            ).spec_cursor(),
    {
        let ghost prior = *self;
        match self.read_field(8) {
            None => None,
            Some(u) => {
                proof {
                    lemma2_to64();
                    lemma_stream_value_bound(
                        prior.ordering(),
                        prior.sbits().subrange(
                            prior.spec_cursor() as int,
                            (prior.spec_cursor() + 8) as int,
                        ),
                    );
                }
                Some(u as u8)
            },
        }
    }

    /// Reads `len` whole bytes, all or nothing: when fewer than `8 * len`
    /// bits remain, nothing is consumed and nothing is yielded.
    pub fn read_bytes(&mut self, len: usize) -> (r: Option<Vec<u8>>)
        ensures
            final(self).ordering() == old(self).ordering(),
            final(self).sbits() == old(self).sbits(),
            old(self).fits(8 * len as nat) ==> (r matches Some(v) && v@ == old(self).bytes_at(
                len as nat,
            ) && final(self).spec_cursor() == old(self).spec_cursor() + 8 * len as nat),
            !old(self).fits(8 * len as nat) ==> r is None && final(self).spec_cursor() == old(
                self,
            ).spec_cursor(),
    {
        let ghost prior = *self;
        let total = self.buf.len();
        if self.cursor > total {
            return None;
        }
        let left = total - self.cursor;
        proof {
            lemma_fundamental_div_mod(left as int, 8);
        }
        if len > left / 8 {
            return None;
        }
        let mut out: Vec<u8> = Vec::new();
        let mut k: usize = 0;
        proof {
            assert(out@ =~= prior.bytes_at(0));
        }
        while k < len
            invariant
                k <= len,
                prior.fits(8 * len as nat),
                self.ordering() == prior.ordering(),
                self.sbits() == prior.sbits(),
                self.spec_cursor() == prior.spec_cursor() + 8 * k,
                out@ == prior.bytes_at(k as nat),
            decreases len - k,
        {
            let ghost before = *self;
            match self.read_field(8) {
                Some(u) => {
                    proof {
                        lemma2_to64();
                        lemma_stream_value_bound(
                            before.ordering(),
                            before.sbits().subrange(
                                before.spec_cursor() as int,
                                (before.spec_cursor() + 8) as int,
                            ),
                        );
                    }
                    out.push(u as u8);
                },
                None => {
                    proof {
                        assert(false);
                    }
                },
            }
            proof {
                assert(out@ =~= prior.bytes_at((k + 1) as nat));
            }
            k += 1;
        }
        Some(out)
    }

    /// Reads `len` whole bytes and decodes them as UTF-8, all or nothing:
    /// when fewer than `8 * len` bits remain, nothing is consumed and
    /// nothing is yielded. Bytes that are present but not valid UTF-8
    /// yield the encoding error instead.
    pub fn read_string(&mut self, len: usize) -> (r: Option<
        Result<String, std::string::FromUtf8Error>,
    >)
        ensures
            final(self).ordering() == old(self).ordering(),
            final(self).sbits() == old(self).sbits(),
            old(self).fits(8 * len as nat) ==> {
                &&& final(self).spec_cursor() == old(self).spec_cursor() + 8 * len as nat
                &&& (r matches Some(inner) && (inner is Ok <==> valid_utf8(
                    old(self).bytes_at(len as nat),
                )))
                &&& (r matches Some(Ok(s)) ==> s@ == decode_utf8(old(self).bytes_at(len as nat)))
            },
            !old(self).fits(8 * len as nat) ==> r is None && final(self).spec_cursor() == old(
                self,
            ).spec_cursor(),
    {
        match self.read_bytes(len) {
            None => None,
            Some(v) => Some(string_from_utf8(v)),
        }
    }

    /// Reads `len` whole bytes and decodes them as UTF-8, replacing
    /// invalid sequences with the replacement character; all or nothing as
    /// `read_string`.
    pub fn read_string_lossy(&mut self, len: usize) -> (r: Option<String>)
        ensures
            final(self).ordering() == old(self).ordering(),
            final(self).sbits() == old(self).sbits(),
            old(self).fits(8 * len as nat) ==> {
                &&& final(self).spec_cursor() == old(self).spec_cursor() + 8 * len as nat
                &&& (r matches Some(s) && s@ == lossy_utf8(old(self).bytes_at(len as nat)))
                &&& (valid_utf8(old(self).bytes_at(len as nat)) ==> (r matches Some(s) && s@
                    == decode_utf8(old(self).bytes_at(len as nat))))
            },
            !old(self).fits(8 * len as nat) ==> r is None && final(self).spec_cursor() == old(
                self,
            ).spec_cursor(),
    {
        match self.read_bytes(len) {
            None => None,
            Some(v) => Some(string_from_utf8_lossy(v.as_slice())),
        }
    }

    /// Consumes whole bytes up to and including the first zero byte — or
    /// up to exhaustion of the stream — and yields the content bytes,
    /// without the terminator.
    fn take_nul_bytes(&mut self) -> (r: Vec<u8>)
        ensures
            final(self).ordering() == old(self).ordering(),
            final(self).sbits() == old(self).sbits(),
            r@ == nul_bytes(old(self).ordering(), old(self).sbits(), old(self).spec_cursor()),
            final(self).spec_cursor() == nul_end(
                old(self).ordering(),
                old(self).sbits(),
                old(self).spec_cursor(),
            ),
    {
        let ghost o = self.ordering();
        let ghost bits = self.sbits();
        let ghost start = self.spec_cursor();
        let total = self.buf.len();
        let mut out: Vec<u8> = Vec::new();
        loop
            invariant_except_break
                nul_bytes(o, bits, start) == out@ + nul_bytes(o, bits, self.spec_cursor()),
                nul_end(o, bits, start) == nul_end(o, bits, self.spec_cursor()),
            invariant
                o == self.ordering(),
                bits == self.sbits(),
                total == bits.len(),
                total <= usize::MAX / 8,
            ensures
                out@ == nul_bytes(o, bits, start),
                self.spec_cursor() == nul_end(o, bits, start),
            decreases total - self.spec_cursor(),
        {
            if self.cursor > total || total - self.cursor < 8 {
                proof {
                    assert(nul_bytes(o, bits, self.spec_cursor()) =~= Seq::<u8>::empty());
                    assert(out@ + Seq::<u8>::empty() =~= out@);
                }
                break ;
            }
            let ghost pos = self.spec_cursor();
            let b = {
                proof {
                    lemma2_to64();
                    lemma_stream_value_bound(o, bits.subrange(pos as int, pos as int + 8));
                    assert(chunk_at(bits, pos, 8) =~= bits.subrange(pos as int, pos as int + 8));
                }
                load_field(&self.buf, self.order, self.cursor, 8) as u8
            };
            self.cursor += 8;
            if b == 0 {
                proof {
                    assert(byte_at(o, bits, pos) == 0);
                    assert(nul_bytes(o, bits, pos) =~= Seq::<u8>::empty());
                    assert(out@ + Seq::<u8>::empty() =~= out@);
                    assert(nul_end(o, bits, pos) == pos + 8);
                }
                break ;
            }
            out.push(b);
            proof {
                assert(out@.drop_last() + (seq![b] + nul_bytes(o, bits, self.spec_cursor())) =~= out@
                    + nul_bytes(o, bits, self.spec_cursor()));
            }
        }
        out
    }

    /// Reads bytes one at a time until a zero byte is consumed (not
    /// included in the result) or the stream is exhausted, then decodes
    /// the content as UTF-8. Never fails to yield a result: an exhausted
    /// or empty stream yields the empty string.
    pub fn read_nul_string(&mut self) -> (r: Option<
        Result<String, std::string::FromUtf8Error>,
    >)
        ensures
            final(self).ordering() == old(self).ordering(),
            final(self).sbits() == old(self).sbits(),
            final(self).spec_cursor() == nul_end(
                old(self).ordering(),
                old(self).sbits(),
                old(self).spec_cursor(),
            ),
            r matches Some(inner) && (inner is Ok <==> valid_utf8(
                nul_bytes(old(self).ordering(), old(self).sbits(), old(self).spec_cursor()),
            )),
            r matches Some(Ok(s)) ==> s@ == decode_utf8(
                nul_bytes(old(self).ordering(), old(self).sbits(), old(self).spec_cursor()),
            ),
    {
        let content = self.take_nul_bytes();
        Some(string_from_utf8(content))
    }

    /// As `read_nul_string`, but reads each content byte as one character
    /// directly, without UTF-8 decoding.
    pub fn read_nul_string_unchecked(&mut self) -> (r: Option<String>)
        ensures
            final(self).ordering() == old(self).ordering(),
            final(self).sbits() == old(self).sbits(),
            final(self).spec_cursor() == nul_end(
                old(self).ordering(),
                old(self).sbits(),
                old(self).spec_cursor(),
            ),
            r matches Some(s) && s@ == nul_bytes(
                old(self).ordering(),
                old(self).sbits(),
                old(self).spec_cursor(),
            ).map_values(|b: u8| b as char),
    {
        let ghost expected = nul_bytes(
            old(self).ordering(),
            old(self).sbits(),
            old(self).spec_cursor(),
        );
        let content = self.take_nul_bytes();
        let mut s = String::new();
        let n = content.len();
        let mut j: usize = 0;
        proof {
            assert(s@ =~= expected.take(0).map_values(|b: u8| b as char));
        }
        while j < n
            invariant
                j <= n,
                n == content@.len(),
                content@ == expected,
                s@ == expected.take(j as int).map_values(|b: u8| b as char),
            decreases n - j,
        {
            push_char(&mut s, content[j] as char);
            proof {
                assert(expected.take(j + 1).map_values(|b: u8| b as char) =~= expected.take(
                    j as int,
                ).map_values(|b: u8| b as char).push(expected[j as int] as char));
            }
            j += 1;
        }
        proof {
            assert(expected.take(n as int) =~= expected);
        }
        Some(s)
    }

    /// As `read_nul_string`, but decodes the content bytes as UTF-8 with
    /// invalid sequences replaced by the replacement character.
    pub fn read_nul_string_lossy(&mut self) -> (r: Option<String>)
        ensures
            final(self).ordering() == old(self).ordering(),
            final(self).sbits() == old(self).sbits(),
            final(self).spec_cursor() == nul_end(
                old(self).ordering(),
                old(self).sbits(),
                old(self).spec_cursor(),
            ),
            r matches Some(s) && s@ == lossy_utf8(
                nul_bytes(old(self).ordering(), old(self).sbits(), old(self).spec_cursor()),
            ),
            valid_utf8(nul_bytes(old(self).ordering(), old(self).sbits(), old(self).spec_cursor()))
                ==> (r matches Some(s) && s@ == decode_utf8(
                nul_bytes(old(self).ordering(), old(self).sbits(), old(self).spec_cursor()),
            )),
    {
        let content = self.take_nul_bytes();
        Some(string_from_utf8_lossy(content.as_slice()))
    }

    /// Reads the 32 bits at the cursor as a float bit pattern at its full
    /// natural width, or yields nothing, leaving the cursor in place, when
    /// fewer than 32 bits remain.
    pub fn read_float_bits(&mut self) -> (r: Option<u32>)
        ensures
            final(self).ordering() == old(self).ordering(),
            final(self).sbits() == old(self).sbits(),
            old(self).fits(32) ==> (r matches Some(p) && p as nat == old(self).field_value(32)
                && final(self).spec_cursor() == old(self).spec_cursor() + 32),
            !old(self).fits(32) ==> r is None && final(self).spec_cursor() == old(
                self,
            ).spec_cursor(),
    {
        let ghost prior = *self;
        match self.read_field(32) {
            None => None,
            Some(u) => {
                proof {
                    lemma2_to64();
                    lemma_stream_value_bound(
                        prior.ordering(),
                        prior.sbits().subrange(
                            prior.spec_cursor() as int,
                            (prior.spec_cursor() + 32) as int,
                        ),
                    );
                }
                Some(u as u32)
            },
        }
    }

    /// Reads the 64 bits at the cursor as a double bit pattern at its full
    /// natural width, or yields nothing, leaving the cursor in place, when
    /// fewer than 64 bits remain.
    pub fn read_double_bits(&mut self) -> (r: Option<u64>)
        ensures
            final(self).ordering() == old(self).ordering(),
            final(self).sbits() == old(self).sbits(),
            old(self).fits(64) ==> (r matches Some(p) && p as nat == old(self).field_value(64)
                && final(self).spec_cursor() == old(self).spec_cursor() + 64),
            !old(self).fits(64) ==> r is None && final(self).spec_cursor() == old(
                self,
            ).spec_cursor(),
    {
        self.read_field(64)
    }
}

/// `ceil(n / 8)` on machine integers.
fn ceil8(n: usize) -> (r: usize)
    ensures
        r == (n as nat + 7) / 8,
{
    proof {
        let c = n as int;
        lemma_fundamental_div_mod(c, 8);
        lemma_hoist_over_denominator(c % 8 + 7, c / 8, 8);
    }
    n / 8 + (if n % 8 != 0 {
        1
    } else {
        0
    })
}

} // verus!
