//! Laws that relate the writer's and the reader's contracts across
//! operations: what a stream built by one side yields on the other.
use crate::order::{
    chunk_at, export_bytes, import_bits, lemma_import_bits_chunk, lemma_import_bits_len,
    lemma_uint_round_trip, BitOrdering,
};
use crate::read::{byte_at, nul_bytes, nul_end};
use vstd::arithmetic::div_mod::lemma_small_mod;
use vstd::arithmetic::power2::{lemma2_to64, pow2};
use vstd::prelude::*;
use vstd::utf8::*;

verus! {

/// The eight bits a byte contributes to an imported stream load back as
/// that byte.
pub proof fn lemma_byte_at_import(o: BitOrdering, bytes: Seq<u8>, j: int)
    requires
        0 <= j < bytes.len(),
    ensures
        import_bits(o, bytes).len() == 8 * bytes.len(),
        byte_at(o, import_bits(o, bytes), (8 * j) as nat) == bytes[j],
{
    lemma_import_bits_chunk(o, bytes, j);
    lemma_uint_round_trip(o, bytes[j] as u64, 8);
    lemma2_to64();
    lemma_small_mod(bytes[j] as nat, pow2(8));
}

/// A NUL-terminated read of an imported byte buffer, started at a byte
/// boundary `j`, yields exactly the bytes before the first zero byte at or
/// after `j`, and stops just past that zero byte.
pub proof fn lemma_nul_scan_import(o: BitOrdering, bytes: Seq<u8>, j: int, k: int)
    requires
        0 <= j <= k < bytes.len(),
        bytes[k] == 0,
        forall|i: int| j <= i < k ==> bytes[i] != 0,
    ensures
        nul_bytes(o, import_bits(o, bytes), (8 * j) as nat) == bytes.subrange(j, k),
        nul_end(o, import_bits(o, bytes), (8 * j) as nat) == 8 * (k + 1),
    decreases k - j,
{
    lemma_byte_at_import(o, bytes, j);
    let bits = import_bits(o, bytes);
    if j == k {
        assert(nul_bytes(o, bits, (8 * j) as nat) =~= bytes.subrange(j, j));
    } else {
        lemma_nul_scan_import(o, bytes, j + 1, k);
        assert(seq![bytes[j]] + bytes.subrange(j + 1, k) =~= bytes.subrange(j, k));
    }
}

/// Byte round trip: a stream built from a byte buffer exports as exactly
/// that buffer, under either ordering.
pub proof fn lemma_bytes_round_trip(o: BitOrdering, bytes: Seq<u8>)
    ensures
        export_bytes(o, import_bits(o, bytes)) == bytes,
{
    lemma_import_bits_len(o, bytes);
    let bits = import_bits(o, bytes);
    assert((8 * bytes.len() + 7) / 8 == bytes.len() as int) by (nonlinear_arith);
    assert forall|j: int| 0 <= j < bytes.len() implies export_bytes(o, bits)[j] == bytes[j] by {
        lemma_byte_at_import(o, bytes, j);
        assert(chunk_at(bits, (8 * j) as nat, 8) =~= bits.subrange(8 * j, 8 * j + 8));
    }
    assert(export_bytes(o, bits) =~= bytes);
}

/// No byte of the UTF-8 encoding of a nonzero Unicode scalar is zero.
proof fn lemma_encode_scalar_no_nul(v: u32)
    requires
        is_scalar(v),
        v != 0,
    ensures
        forall|k: int| 0 <= k < encode_scalar(v).len() ==> encode_scalar(v)[k] != 0,
{
    assert(forall|x: u8| (0x80u8 | x) != 0) by (bit_vector);
    assert(forall|x: u8| (0xC0u8 | x) != 0) by (bit_vector);
    assert(forall|x: u8| (0xE0u8 | x) != 0) by (bit_vector);
    assert(forall|x: u8| (0xF0u8 | x) != 0) by (bit_vector);
    if has_width_1_encoding(v) {
        assert(((v & 0x7F) as u8) != 0) by (bit_vector)
            requires
                v != 0 && v <= 0x7F,
        ;
    }
}

/// The UTF-8 encoding of a string without NUL characters contains no zero
/// byte: in UTF-8, only the NUL character encodes to a zero byte.
pub proof fn lemma_encode_utf8_no_nul(s: Seq<char>)
    requires
        forall|i: int| 0 <= i < s.len() ==> s[i] != '\0',
    ensures
        forall|k: int| 0 <= k < encode_utf8(s).len() ==> encode_utf8(s)[k] != 0,
    decreases s.len(),
{
    if s.len() > 0 {
        let first = encode_scalar(s[0] as u32);
        let rest = s.drop_first();
        char_is_scalar(s[0]);
        assert(s[0] as u32 != 0) by {
            if s[0] as u32 == 0 {
                char_u32_cast(s[0], 0u32);
                assert('\0' as u32 == 0);
                char_u32_cast('\0', 0u32);
            }
        }
        lemma_encode_scalar_no_nul(s[0] as u32);
        assert(forall|i: int| 0 <= i < rest.len() ==> rest[i] != '\0');
        lemma_encode_utf8_no_nul(rest);
        assert forall|k: int| 0 <= k < encode_utf8(s).len() implies encode_utf8(s)[k] != 0 by {
            if k < first.len() {
                assert(encode_utf8(s)[k] == first[k]);
            } else {
                assert(encode_utf8(s)[k] == encode_utf8(rest)[k - first.len()]);
            }
        }
    }
}

/// String NUL round trip: appending a NUL-free string's UTF-8 bytes and a
/// terminating zero byte to an empty stream, then reading a NUL-terminated
/// string from the front of that stream, yields exactly the original
/// string; the read consumes the content bytes and the terminator, and an
/// empty string writes and reads back the terminator alone.
pub proof fn lemma_nul_string_round_trip(o: BitOrdering, s: Seq<char>)
    requires
        forall|i: int| 0 <= i < s.len() ==> s[i] != '\0',
    ensures
        valid_utf8(nul_bytes(o, import_bits(o, encode_utf8(s).push(0u8)), 0)),
        decode_utf8(nul_bytes(o, import_bits(o, encode_utf8(s).push(0u8)), 0)) == s,
        nul_end(o, import_bits(o, encode_utf8(s).push(0u8)), 0) == 8 * (encode_utf8(s).len() + 1),
{
    let e = encode_utf8(s);
    let bytes = e.push(0u8);
    lemma_encode_utf8_no_nul(s);
    encode_utf8_valid_utf8(s);
    encode_utf8_decode_utf8(s);
    lemma_nul_scan_import(o, bytes, 0, e.len() as int);
    assert(bytes.subrange(0, e.len() as int) =~= e);
}

} // verus!
