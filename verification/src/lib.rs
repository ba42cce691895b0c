//! A bit-level codec: packs and unpacks booleans, arbitrary-bit-width
//! unsigned and signed integers, float bit patterns, byte strings and
//! NUL-terminated strings into and out of a contiguous sequence of bits,
//! under a caller-selected bit ordering (most- or least-significant first).
use vstd::prelude::*;

pub mod field;
pub mod laws;
pub mod order;
pub mod read;
pub mod storage;
pub mod text;
pub mod write;

pub use order::BitOrdering;
pub use read::BitVecReader;
pub use storage::BitBuf;
pub use write::BitVecWriter;

verus! {

/// The number of bits in a numeric type's natural representation.
pub trait BitCount {
    const BIT_COUNT: usize;
}

impl BitCount for u8 {
    const BIT_COUNT: usize = 8;
}

impl BitCount for u16 {
    const BIT_COUNT: usize = 16;
}

impl BitCount for u32 {
    const BIT_COUNT: usize = 32;
}

impl BitCount for u64 {
    const BIT_COUNT: usize = 64;
}

impl BitCount for u128 {
    const BIT_COUNT: usize = 128;
}

impl BitCount for i8 {
    const BIT_COUNT: usize = 8;
}

impl BitCount for i16 {
    const BIT_COUNT: usize = 16;
}

impl BitCount for i32 {
    const BIT_COUNT: usize = 32;
}

impl BitCount for i64 {
    const BIT_COUNT: usize = 64;
}

impl BitCount for i128 {
    const BIT_COUNT: usize = 128;
}

} // verus!
