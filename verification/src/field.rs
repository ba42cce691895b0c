//! Loading and storing multi-bit fields, and the signed and unsigned
//! conversions between a field's magnitude and a value.
//!
//! A load folds up to 64 bits of a buffer into an unsigned magnitude in the
//! direction the ordering selects, reading positions past the end of the
//! stream as zero. A store takes the low `w` bits of a value and appends
//! them in that direction. Sign extension reconstructs a signed value from
//! a narrow two's-complement magnitude by replicating its sign bit.
use crate::order::{
    bits_lsb, bits_msb, bits_of_value, chunk_at, lemma_bits_lsb_index, lemma_bits_lsb_len,
    lemma_bits_lsb_snoc, lemma_bits_msb_index, lemma_bits_msb_len, lemma_div_pow2_chain, lemma_pow2_le,
    export_bytes, import_bits, lemma_import_bits_len, lemma_import_bits_snoc,
    lemma_stream_value_bound, stream_value, to_signed, to_u64, value_lsb, value_msb, BitOrdering,
};
use crate::storage::{max_bits, BitBuf};
use vstd::arithmetic::div_mod::lemma_div_basics;
use vstd::arithmetic::power2::*;
use vstd::bits::*;
use vstd::prelude::*;

verus! {

/// Folds the `w` bits at `start` into an unsigned magnitude under the
/// ordering, reading positions past the end of the stream as zero.
pub fn load_field(buf: &BitBuf, o: BitOrdering, start: usize, w: usize) -> (r: u64)
    requires
        w <= 64,
        start + w <= usize::MAX,
    ensures
        r as nat == stream_value(o, chunk_at(buf@, start as nat, w as nat)),
{
    let ghost chunk = chunk_at(buf@, start as nat, w as nat);
    let len = buf.len();
    let mut acc: u64 = 0;
    proof {
        lemma2_to64();
        assert(chunk.take(0) =~= Seq::<bool>::empty());
        assert(chunk.skip(w as int) =~= Seq::<bool>::empty());
    }
    match o {
        BitOrdering::MsbFirst => {
            let mut k: usize = 0;
            while k < w
                invariant
                    k <= w <= 64,
                    start + w <= usize::MAX,
                    len == buf@.len(),
                    chunk == chunk_at(buf@, start as nat, w as nat),
                    acc as nat == value_msb(chunk.take(k as int)),
                    (acc as nat) < pow2(k as nat),
                decreases w - k,
            {
                let idx = start + k;
                let bit = if idx < len {
                    buf.at(idx)
                } else {
                    false
                };
                proof {
                    lemma2_to64();
                    lemma_pow2_le((k + 1) as nat, 64);
                    assert(chunk.take(k + 1).drop_last() =~= chunk.take(k as int));
                    assert(chunk.take(k + 1).last() == chunk[k as int]);
                    lemma_pow2_unfold((k + 1) as nat);
                }
                acc = acc * 2 + (if bit {
                    1
                } else {
                    0
                });
                k += 1;
            }
            proof {
                assert(chunk.take(w as int) =~= chunk);
            }
        },
        BitOrdering::LsbFirst => {
            let mut k: usize = w;
            while k > 0
                invariant
                    k <= w <= 64,
                    start + w <= usize::MAX,
                    len == buf@.len(),
                    chunk == chunk_at(buf@, start as nat, w as nat),
                    acc as nat == value_lsb(chunk.skip(k as int)),
                    (acc as nat) < pow2((w - k) as nat),
                decreases k,
            {
                k -= 1;
                let idx = start + k;
                let bit = if idx < len {
                    buf.at(idx)
                } else {
                    false
                };
                proof {
                    lemma2_to64();
                    lemma_pow2_le((w - k) as nat, 64);
                    assert(chunk.skip(k as int).drop_first() =~= chunk.skip(k + 1));
                    assert(chunk.skip(k as int)[0] == chunk[k as int]);
                    lemma_pow2_unfold((w - k) as nat);
                }
                acc = acc * 2 + (if bit {
                    1
                } else {
                    0
                });
            }
            proof {
                assert(chunk.skip(0) =~= chunk);
            }
        },
    }
    acc
}

/// Appends the low `w` bits of `value` to the buffer in the direction the
/// ordering selects.
pub fn store_field(buf: &mut BitBuf, o: BitOrdering, value: u64, w: usize)
    requires
        w <= 64,
        old(buf)@.len() + w <= max_bits(),
    ensures
        final(buf)@ == old(buf)@ + bits_of_value(o, value as nat, w as nat),
{
    let ghost v = value as nat;
    let ghost orig = old(buf)@;
    // The low `w` bits of `value`, least significant first.
    let mut tmp: Vec<bool> = Vec::new();
    let mut cur: u64 = value;
    let mut k: usize = 0;
    proof {
        lemma2_to64();
        lemma_div_basics(v as int);
        assert(bits_lsb(v, 0) =~= tmp@);
    }
    while k < w
        invariant
            k <= w <= 64,
            tmp@ == bits_lsb(v, k as nat),
            cur as nat == v / pow2(k as nat),
        decreases w - k,
    {
        proof {
            lemma_bits_lsb_snoc(v, k as nat);
            lemma_div_pow2_chain(v, k as nat);
        }
        tmp.push(cur % 2 == 1);
        cur = cur / 2;
        k += 1;
    }
    proof {
        lemma_bits_lsb_len(v, w as nat);
        lemma_bits_msb_len(v, w as nat);
    }
    match o {
        BitOrdering::MsbFirst => {
            let mut k: usize = 0;
            while k < w
                invariant
                    k <= w <= 64,
                    tmp@ == bits_lsb(v, w as nat),
                    tmp@.len() == w,
                    bits_msb(v, w as nat).len() == w,
                    orig.len() + w <= max_bits(),
                    buf@ == orig + bits_msb(v, w as nat).take(k as int),
                decreases w - k,
            {
                proof {
                    lemma_bits_lsb_index(v, w as nat, (w - 1 - k) as int);
                    lemma_bits_msb_index(v, w as nat, k as int);
                    assert(bits_msb(v, w as nat).take(k + 1) =~= bits_msb(v, w as nat).take(
                        k as int,
                    ).push(bits_msb(v, w as nat)[k as int]));
                    assert((orig + bits_msb(v, w as nat).take(k as int)).push(
                        bits_msb(v, w as nat)[k as int],
                    ) =~= orig + bits_msb(v, w as nat).take(k + 1));
                }
                buf.push(tmp[w - 1 - k]);
                k += 1;
            }
            proof {
                assert(bits_msb(v, w as nat).take(w as int) =~= bits_msb(v, w as nat));
            }
        },
        BitOrdering::LsbFirst => {
            let mut k: usize = 0;
            while k < w
                invariant
                    k <= w <= 64,
                    tmp@ == bits_lsb(v, w as nat),
                    tmp@.len() == w,
                    orig.len() + w <= max_bits(),
                    buf@ == orig + bits_lsb(v, w as nat).take(k as int),
                decreases w - k,
            {
                proof {
                    assert(bits_lsb(v, w as nat).take(k + 1) =~= bits_lsb(v, w as nat).take(
                        k as int,
                    ).push(bits_lsb(v, w as nat)[k as int]));
                    assert((orig + bits_lsb(v, w as nat).take(k as int)).push(
                        bits_lsb(v, w as nat)[k as int],
                    ) =~= orig + bits_lsb(v, w as nat).take(k + 1));
                }
                buf.push(tmp[k]);
                k += 1;
            }
            proof {
                assert(bits_lsb(v, w as nat).take(w as int) =~= bits_lsb(v, w as nat));
            }
        },
    }
}

/// Exports a buffer as bytes under the ordering: the stream is cut into
/// eight-bit chunks, the trailing partial chunk is zero-filled, and each
/// chunk is loaded as one byte.
pub fn export_to_bytes(buf: &BitBuf, o: BitOrdering) -> (r: Vec<u8>)
    ensures
        r@ == export_bytes(o, buf@),
{
    let ghost bits = buf@;
    let total = buf.len();
    let n = total / 8 + (if total % 8 != 0 {
        1usize
    } else {
        0usize
    });
    proof {
        assert(n == (bits.len() + 7) / 8) by (nonlinear_arith)
            requires
                n == total / 8 + (if total % 8 != 0 {
                    1int
                } else {
                    0int
                }),
                total == bits.len(),
                total <= usize::MAX,
        ;
    }
    let mut out: Vec<u8> = Vec::new();
    let mut j: usize = 0;
    proof {
        assert(out@ =~= export_bytes(o, bits).take(0));
    }
    while j < n
        invariant
            j <= n,
            total == bits.len(),
            total <= usize::MAX / 8,
            bits == buf@,
            n == (bits.len() + 7) / 8,
            out@ == export_bytes(o, bits).take(j as int),
        decreases n - j,
    {
        proof {
            lemma2_to64();
            lemma_stream_value_bound(o, chunk_at(bits, (8 * j) as nat, 8));
            assert(chunk_at(bits, (8 * j) as nat, 8).len() == 8);
        }
        let b = load_field(buf, o, j * 8, 8);
        out.push(b as u8);
        proof {
            assert(out@ =~= export_bytes(o, bits).take(j + 1));
        }
        j += 1;
    }
    proof {
        assert(export_bytes(o, bits).take(n as int) =~= export_bytes(o, bits));
    }
    out
}

/// Builds a buffer from bytes under the ordering: each byte contributes
/// its eight bits in turn.
pub fn import_from_bytes(o: BitOrdering, bytes: &[u8]) -> (r: BitBuf)
    requires
        8 * bytes@.len() <= max_bits(),
    ensures
        r@ == import_bits(o, bytes@),
{
    let mut buf = BitBuf::new();
    let n = bytes.len();
    let mut j: usize = 0;
    proof {
        assert(bytes@.take(0) =~= Seq::<u8>::empty());
    }
    while j < n
        invariant
            j <= n,
            n == bytes@.len(),
            8 * bytes@.len() <= max_bits(),
            buf@ == import_bits(o, bytes@.take(j as int)),
        decreases n - j,
    {
        proof {
            lemma_import_bits_len(o, bytes@.take(j as int));
            lemma_import_bits_snoc(o, bytes@.take(j as int), bytes@[j as int]);
            assert(bytes@.take(j as int).push(bytes@[j as int]) =~= bytes@.take(j + 1));
        }
        let b = bytes[j];
        store_field(&mut buf, o, b as u64, 8);
        j += 1;
    }
    proof {
        assert(bytes@.take(n as int) =~= bytes@);
    }
    buf
}

/// Sign extension: reconstructs the signed value from a `w`-bit
/// two's-complement magnitude by replicating bit `w - 1`.
pub fn sign_extend(u: u64, w: usize) -> (r: i64)
    requires
        1 <= w <= 64,
        (u as nat) < pow2(w as nat),
    ensures
        r as int == to_signed(u as nat, w as nat),
{
    proof {
        lemma2_to64();
        lemma_pow2_unfold(64);
        lemma_pow2_unfold(63);
        lemma_pow2_le((w - 1) as nat, 63);
        if w < 64 {
            lemma_pow2_le((w - 1) as nat, 62);
        }
        lemma_u64_shl_is_mul(1u64, (w - 1) as u64);
        lemma_pow2_unfold(w as nat);
    }
    let half: u64 = 1u64 << ((w - 1) as u64);
    if u < half {
        u as i64
    } else {
        let excess = u - half;
        if w == 64 {
            (excess as i64) + i64::MIN
        } else {
            (excess as i64) - (half as i64)
        }
    }
}

/// The unsigned 64-bit two's-complement representation of a signed value.
pub fn unsign(value: i64) -> (r: u64)
    ensures
        r as nat == to_u64(value),
{
    if value >= 0 {
        value as u64
    } else {
        let m = (-(value + 1)) as u64;
        u64::MAX - m
    }
}

} // verus!
