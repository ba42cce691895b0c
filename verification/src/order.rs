//! The bit-ordering strategy and the mathematical model of multi-bit values.
//!
//! A stream is a sequence of bits. A multi-bit field of width `w` maps to an
//! unsigned magnitude in one of two ways: `MsbFirst` treats the first bit of
//! the field as the most significant, `LsbFirst` treats it as the least
//! significant. Writing takes the low `w` bits of a value's two's-complement
//! representation and emits them in the selected direction; reading folds the
//! bits back into a magnitude the same way, so that a write followed by a
//! read of the same width and ordering reproduces the value modulo `2^w`.
use vstd::arithmetic::div_mod::*;
use vstd::arithmetic::power2::*;
use vstd::prelude::*;

verus! {

/// The bit-ordering strategy, fixed at construction for the lifetime of a
/// reader or writer.
#[derive(Clone, Copy, Debug, PartialEq, Eq, Structural)]
pub enum BitOrdering {
    /// The first bit of a multi-bit field is its most significant bit.
    MsbFirst,
    /// The first bit of a multi-bit field is its least significant bit.
    LsbFirst,
}

/// The numeric weight of a single bit.
pub open spec fn bit_val(b: bool) -> nat {
    if b {
        1
    } else {
        0
    }
}

/// The magnitude of a bit field whose first bit is most significant.
pub open spec fn value_msb(s: Seq<bool>) -> nat
    decreases s.len(),
{
    if s.len() == 0 {
        0
    } else {
        2 * value_msb(s.drop_last()) + bit_val(s.last())
    }
}

/// The magnitude of a bit field whose first bit is least significant.
pub open spec fn value_lsb(s: Seq<bool>) -> nat
    decreases s.len(),
{
    if s.len() == 0 {
        0
    } else {
        bit_val(s[0]) + 2 * value_lsb(s.drop_first())
    }
}

/// The magnitude of a bit field under the given ordering.
pub open spec fn stream_value(o: BitOrdering, s: Seq<bool>) -> nat {
    match o {
        BitOrdering::MsbFirst => value_msb(s),
        BitOrdering::LsbFirst => value_lsb(s),
    }
}

/// The low `w` bits of `v`, least significant first.
pub open spec fn bits_lsb(v: nat, w: nat) -> Seq<bool>
    decreases w,
{
    if w == 0 {
        Seq::empty()
    } else {
        seq![v % 2 == 1] + bits_lsb(v / 2, (w - 1) as nat)
    }
}

/// The low `w` bits of `v`, most significant first.
pub open spec fn bits_msb(v: nat, w: nat) -> Seq<bool>
    decreases w,
{
    if w == 0 {
        Seq::empty()
    } else {
        bits_msb(v / 2, (w - 1) as nat).push(v % 2 == 1)
    }
}

/// The bit field that encodes the low `w` bits of `v` under the given
/// ordering.
pub open spec fn bits_of_value(o: BitOrdering, v: nat, w: nat) -> Seq<bool> {
    match o {
        BitOrdering::MsbFirst => bits_msb(v, w),
        BitOrdering::LsbFirst => bits_lsb(v, w),
    }
}

/// The signed reading of a `w`-bit magnitude: two's-complement sign
/// extension from bit `w - 1`.
pub open spec fn to_signed(u: nat, w: nat) -> int
    recommends
        1 <= w,
        u < pow2(w),
{
    if u < pow2((w - 1) as nat) {
        u as int
    } else {
        u - pow2(w)
    }
}

/// The unsigned 64-bit two's-complement representation of a signed value.
pub open spec fn to_u64(v: i64) -> nat {
    if v >= 0 {
        v as nat
    } else {
        (v + 0x1_0000_0000_0000_0000) as nat
    }
}

pub proof fn lemma_bits_lsb_len(v: nat, w: nat)
    ensures
        bits_lsb(v, w).len() == w,
    decreases w,
{
    if w > 0 {
        lemma_bits_lsb_len(v / 2, (w - 1) as nat);
    }
}

pub proof fn lemma_bits_msb_len(v: nat, w: nat)
    ensures
        bits_msb(v, w).len() == w,
    decreases w,
{
    if w > 0 {
        lemma_bits_msb_len(v / 2, (w - 1) as nat);
    }
}

pub proof fn lemma_bits_of_value_len(o: BitOrdering, v: nat, w: nat)
    ensures
        bits_of_value(o, v, w).len() == w,
{
    lemma_bits_lsb_len(v, w);
    lemma_bits_msb_len(v, w);
}

/// A `w`-bit field holds a magnitude below `2^w`.
pub proof fn lemma_value_msb_bound(s: Seq<bool>)
    ensures
        value_msb(s) < pow2(s.len()),
    decreases s.len(),
{
    if s.len() == 0 {
        lemma2_to64();
    } else {
        lemma_value_msb_bound(s.drop_last());
        lemma_pow2_unfold(s.len());
    }
}

/// A `w`-bit field holds a magnitude below `2^w`.
pub proof fn lemma_value_lsb_bound(s: Seq<bool>)
    ensures
        value_lsb(s) < pow2(s.len()),
    decreases s.len(),
{
    if s.len() == 0 {
        lemma2_to64();
    } else {
        lemma_value_lsb_bound(s.drop_first());
        lemma_pow2_unfold(s.len());
    }
}

pub proof fn lemma_stream_value_bound(o: BitOrdering, s: Seq<bool>)
    ensures
        stream_value(o, s) < pow2(s.len()),
{
    lemma_value_msb_bound(s);
    lemma_value_lsb_bound(s);
}

/// `2 * ((v / 2) mod 2^(w-1)) + v mod 2 == v mod 2^w`: peeling the lowest
/// bit off a truncation.
proof fn lemma_mod_pow2_step(v: nat, w: nat)
    requires
        1 <= w,
    ensures
        v % pow2(w) == 2 * ((v / 2) % pow2((w - 1) as nat)) + v % 2,
{
    let half = pow2((w - 1) as nat) as int;
    let x = v as int;
    let q = (x / 2) / half;
    let r = 2 * ((x / 2) % half) + x % 2;
    lemma_pow2_pos((w - 1) as nat);
    lemma_pow2_unfold(w);
    lemma_fundamental_div_mod(x, 2);
    lemma_fundamental_div_mod(x / 2, half);
    lemma_mod_bound(x / 2, half);
    lemma_mod_bound(x, 2);
    assert(x == q * (2 * half) + r) by (nonlinear_arith)
        requires
            x == 2 * (x / 2) + x % 2,
            x / 2 == half * q + (x / 2) % half,
            r == 2 * ((x / 2) % half) + x % 2,
    ;
    lemma_fundamental_div_mod_converse(x, 2 * half, q, r);
}

/// Round trip for the MSB-first direction: loading back a stored field
/// recovers the value modulo `2^w`.
pub proof fn lemma_value_bits_msb(v: nat, w: nat)
    ensures
        value_msb(bits_msb(v, w)) == v % pow2(w),
    decreases w,
{
    if w == 0 {
        lemma2_to64();
        lemma_mod_bound(v as int, 1);
    } else {
        let s = bits_msb(v, w);
        lemma_bits_msb_len(v / 2, (w - 1) as nat);
        assert(s.drop_last() =~= bits_msb(v / 2, (w - 1) as nat));
        lemma_value_bits_msb(v / 2, (w - 1) as nat);
        lemma_mod_pow2_step(v, w);
        assert(bit_val(s.last()) == v % 2);
    }
}

/// Round trip for the LSB-first direction: loading back a stored field
/// recovers the value modulo `2^w`.
pub proof fn lemma_value_bits_lsb(v: nat, w: nat)
    ensures
        value_lsb(bits_lsb(v, w)) == v % pow2(w),
    decreases w,
{
    if w == 0 {
        lemma2_to64();
        lemma_mod_bound(v as int, 1);
    } else {
        let s = bits_lsb(v, w);
        lemma_bits_lsb_len(v / 2, (w - 1) as nat);
        assert(s.drop_first() =~= bits_lsb(v / 2, (w - 1) as nat));
        lemma_value_bits_lsb(v / 2, (w - 1) as nat);
        lemma_mod_pow2_step(v, w);
        assert(bit_val(s[0]) == v % 2);
    }
}

/// Round trip, per width and ordering, unsigned case: a value written with
/// width `w` under an ordering and read back with the same width and
/// ordering yields the original value modulo `2^w`.
pub proof fn lemma_uint_round_trip(o: BitOrdering, v: u64, w: nat)
    requires
        1 <= w <= 64,
    ensures
        bits_of_value(o, v as nat, w).len() == w,
        stream_value(o, bits_of_value(o, v as nat, w)) == (v as nat) % pow2(w),
{
    lemma_bits_of_value_len(o, v as nat, w);
    lemma_value_bits_msb(v as nat, w);
    lemma_value_bits_lsb(v as nat, w);
}

/// Powers of two grow monotonically.
pub proof fn lemma_pow2_le(a: nat, b: nat)
    requires
        a <= b,
    ensures
        pow2(a) <= pow2(b),
{
    if a < b {
        lemma_pow2_strictly_increases(a, b);
    }
}

/// `(v / 2^j) / 2 == v / 2^(j+1)`: dividing out one more bit.
pub proof fn lemma_div_pow2_chain(v: nat, j: nat)
    ensures
        (v / pow2(j)) / 2 == v / pow2(j + 1),
{
    lemma_pow2_pos(j);
    lemma_pow2_adds(j, 1);
    lemma2_to64();
    lemma_div_denominator(v as int, pow2(j) as int, 2);
    assert(pow2(j) * 2 == pow2(j + 1));
}

/// `(v / 2) / 2^j == v / 2^(j+1)`: dividing out one bit at a time.
pub proof fn lemma_div_pow2_step(v: nat, j: nat)
    ensures
        (v / 2) / pow2(j) == v / pow2(j + 1),
{
    lemma_pow2_pos(j);
    lemma_pow2_adds(1, j);
    lemma2_to64();
    lemma_div_denominator(v as int, 2, pow2(j) as int);
    assert(2 * pow2(j) == pow2(j + 1));
}

/// One more low bit: the `w+1`-bit field is the `w`-bit field with bit `w`
/// appended.
pub proof fn lemma_bits_lsb_snoc(v: nat, w: nat)
    ensures
        bits_lsb(v, w + 1) == bits_lsb(v, w).push((v / pow2(w)) % 2 == 1),
    decreases w,
{
    lemma_bits_lsb_len(v, w);
    lemma_bits_lsb_len(v / 2, w);
    if w == 0 {
        lemma2_to64();
        assert(bits_lsb(v, 1) =~= bits_lsb(v, 0).push(v % 2 == 1));
    } else {
        lemma_bits_lsb_snoc(v / 2, (w - 1) as nat);
        lemma_div_pow2_step(v, (w - 1) as nat);
        assert(bits_lsb(v, w + 1) =~= bits_lsb(v, w).push((v / pow2(w)) % 2 == 1));
    }
}

/// The bit at position `i` of an LSB-first field is bit `i` of the value.
pub proof fn lemma_bits_lsb_index(v: nat, w: nat, i: int)
    requires
        0 <= i < w,
    ensures
        bits_lsb(v, w).len() == w,
        bits_lsb(v, w)[i] == ((v / pow2(i as nat)) % 2 == 1),
    decreases w,
{
    lemma_bits_lsb_len(v, w);
    if i == 0 {
        lemma2_to64();
        lemma_div_basics(v as int);
    } else {
        lemma_bits_lsb_index(v / 2, (w - 1) as nat, i - 1);
        lemma_div_pow2_step(v, (i - 1) as nat);
    }
}

/// The bit at position `i` of an MSB-first field is bit `w - 1 - i` of the
/// value.
pub proof fn lemma_bits_msb_index(v: nat, w: nat, i: int)
    requires
        0 <= i < w,
    ensures
        bits_msb(v, w).len() == w,
        bits_msb(v, w)[i] == ((v / pow2((w - 1 - i) as nat)) % 2 == 1),
    decreases w,
{
    lemma_bits_msb_len(v, w);
    lemma_bits_msb_len(v / 2, (w - 1) as nat);
    if i == w - 1 {
        lemma2_to64();
        lemma_div_basics(v as int);
    } else {
        lemma_bits_msb_index(v / 2, (w - 1) as nat, i);
        lemma_div_pow2_step(v, (w - 2 - i) as nat);
    }
}

/// Round trip, per width and ordering, signed case: a signed value whose
/// magnitude fits in `w` bits, written with width `w` under an ordering and
/// read back (with sign extension from bit `w - 1`) with the same width and
/// ordering, is reproduced exactly.
pub proof fn lemma_int_round_trip(o: BitOrdering, v: i64, w: nat)
    requires
        1 <= w <= 64,
        -(pow2((w - 1) as nat) as int) <= v < pow2((w - 1) as nat),
    ensures
        to_signed(stream_value(o, bits_of_value(o, to_u64(v), w)), w) == v,
{
    let u0 = to_u64(v);
    let m = pow2(w) as int;
    let half = pow2((w - 1) as nat) as int;
    lemma_pow2_pos(w);
    lemma_pow2_pos((w - 1) as nat);
    lemma_pow2_unfold(w);
    assert(u0 < 0x1_0000_0000_0000_0000) by {
        lemma2_to64();
    }
    assert(stream_value(o, bits_of_value(o, u0, w)) == u0 % pow2(w)) by {
        assert(u0 <= u64::MAX as nat) by {
            lemma2_to64();
        }
        lemma_uint_round_trip(o, u0 as u64, w);
    }
    let u = u0 % pow2(w);
    lemma_mod_bound(u0 as int, m);
    if v >= 0 {
        assert(u == v) by {
            lemma_small_mod(v as nat, pow2(w));
        }
    } else {
        // u0 == v + 2^64 == (v + 2^w) + 2^w * (2^(64-w) - 1), and
        // 0 < v + 2^w < 2^w, so the truncation is exactly v + 2^w.
        assert(pow2(w) * pow2((64 - w) as nat) == pow2(64)) by {
            lemma_pow2_adds(w, (64 - w) as nat);
        }
        assert(pow2(64) == 0x1_0000_0000_0000_0000) by {
            lemma2_to64();
        }
        let k = pow2((64 - w) as nat) as int;
        assert(u0 as int == m * k + v) by (nonlinear_arith)
            requires
                u0 as int == v + m * k,
        ;
        lemma_mod_multiples_vanish(k, v as int, m);
        assert(u == (v as int) % m);
        assert((v as int) % m == v + m) by {
            lemma_mod_add_multiples_vanish(v as int, m);
            lemma_small_mod((v + m) as nat, pow2(w));
        }
        assert(u >= half);
    }
}

/// The window of `w` bits starting at `start`, reading positions past the
/// end of the stream as zero bits.
pub open spec fn chunk_at(bits: Seq<bool>, start: nat, w: nat) -> Seq<bool> {
    Seq::new(
        w,
        |i: int|
            if start + i < bits.len() {
                bits[start + i]
            } else {
                false
            },
    )
}

/// The bits a byte contributes to a stream under the given ordering: its
/// eight bits, most or least significant first.
pub open spec fn byte_bits(o: BitOrdering, b: u8) -> Seq<bool> {
    bits_of_value(o, b as nat, 8)
}

/// The bit stream that a byte buffer denotes under the given ordering: each
/// byte contributes its eight bits in turn.
pub open spec fn import_bits(o: BitOrdering, bytes: Seq<u8>) -> Seq<bool>
    decreases bytes.len(),
{
    if bytes.len() == 0 {
        Seq::empty()
    } else {
        byte_bits(o, bytes[0]) + import_bits(o, bytes.drop_first())
    }
}

/// The byte buffer that a bit stream denotes under the given ordering: the
/// stream is cut into eight-bit chunks, the trailing partial chunk is
/// zero-filled, and each chunk is loaded as a byte.
pub open spec fn export_bytes(o: BitOrdering, bits: Seq<bool>) -> Seq<u8> {
    Seq::new(
        ((bits.len() + 7) / 8) as nat,
        |j: int| stream_value(o, chunk_at(bits, (8 * j) as nat, 8)) as u8,
    )
}

pub proof fn lemma_import_bits_len(o: BitOrdering, bytes: Seq<u8>)
    ensures
        import_bits(o, bytes).len() == 8 * bytes.len(),
    decreases bytes.len(),
{
    lemma_bits_of_value_len(o, if bytes.len() > 0 {
        bytes[0] as nat
    } else {
        0
    }, 8);
    if bytes.len() > 0 {
        lemma_import_bits_len(o, bytes.drop_first());
    }
}

/// Appending one byte to a buffer appends its eight bits to the stream.
pub proof fn lemma_import_bits_snoc(o: BitOrdering, bytes: Seq<u8>, b: u8)
    ensures
        import_bits(o, bytes.push(b)) == import_bits(o, bytes) + byte_bits(o, b),
    decreases bytes.len(),
{
    if bytes.len() == 0 {
        assert(bytes.push(b)[0] == b);
        assert(bytes.push(b).drop_first() =~= Seq::<u8>::empty());
        assert(byte_bits(o, b) + import_bits(o, Seq::<u8>::empty()) =~= byte_bits(o, b));
        assert(import_bits(o, bytes) + byte_bits(o, b) =~= byte_bits(o, b));
    } else {
        assert(bytes.push(b).drop_first() =~= bytes.drop_first().push(b));
        assert(bytes.push(b)[0] == bytes[0]);
        lemma_import_bits_snoc(o, bytes.drop_first(), b);
        assert(import_bits(o, bytes.push(b)) =~= import_bits(o, bytes) + byte_bits(o, b));
    }
}

/// The eight bits at byte position `j` of an imported stream are the bits
/// of byte `j` of the buffer.
pub proof fn lemma_import_bits_chunk(o: BitOrdering, bytes: Seq<u8>, j: int)
    requires
        0 <= j < bytes.len(),
    ensures
        import_bits(o, bytes).len() == 8 * bytes.len(),
        import_bits(o, bytes).subrange(8 * j, 8 * j + 8) == byte_bits(o, bytes[j]),
    decreases j,
{
    lemma_import_bits_len(o, bytes);
    lemma_bits_of_value_len(o, bytes[0] as nat, 8);
    lemma_import_bits_len(o, bytes.drop_first());
    if j == 0 {
        assert(import_bits(o, bytes).subrange(0, 8) =~= byte_bits(o, bytes[0]));
    } else {
        lemma_import_bits_chunk(o, bytes.drop_first(), j - 1);
        assert(import_bits(o, bytes).subrange(8 * j, 8 * j + 8) =~= import_bits(
            o,
            bytes.drop_first(),
        ).subrange(8 * (j - 1), 8 * (j - 1) + 8));
        assert(bytes.drop_first()[j - 1] == bytes[j]);
    }
}

/// Full-width round trip: a 64-bit pattern written and read back at width 64
/// is reproduced exactly, bit for bit. Applied at width 32 and 64 this is
/// the bit-exactness of float and double round trips.
pub proof fn lemma_full_width_round_trip(o: BitOrdering, v: u64, w: nat)
    requires
        1 <= w <= 64,
        (v as nat) < pow2(w),
    ensures
        stream_value(o, bits_of_value(o, v as nat, w)) == v as nat,
{
    lemma_uint_round_trip(o, v, w);
    lemma_small_mod(v as nat, pow2(w));
}

} // verus!
