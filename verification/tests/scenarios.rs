use bitbuf::{BitOrdering, BitVecReader, BitVecWriter};

#[test]
fn test_empty_bitbuf() {
    let bitbuf = BitVecWriter::default();
    assert_eq!(bitbuf.into_bytes(), &[]);
}

#[test]
fn boolean_sequence_msb_first() {
    let mut w = BitVecWriter::new_empty(BitOrdering::MsbFirst);
    w.write_bit(true);
    w.write_bit(false);
    w.write_bit(true);
    assert_eq!(w.into_bytes(), vec![0xA0]);
}

#[test]
fn boolean_sequence_lsb_first() {
    let mut w = BitVecWriter::new_empty(BitOrdering::LsbFirst);
    w.write_bit(true);
    w.write_bit(false);
    w.write_bit(true);
    assert_eq!(w.into_bytes(), vec![0x05]);
}

#[test]
fn uint_12_bit_msb_first() {
    let mut w = BitVecWriter::new_empty(BitOrdering::MsbFirst);
    w.write_uint(69, 12);
    assert_eq!(w.into_bytes(), vec![0x04, 0x50]);
}

#[test]
fn uint_12_bit_lsb_first() {
    let mut w = BitVecWriter::new_empty(BitOrdering::LsbFirst);
    w.write_uint(69, 12);
    assert_eq!(w.into_bytes(), vec![0x45, 0x00]);
}

#[test]
fn int_16_bit_msb_first() {
    let mut w = BitVecWriter::new_empty(BitOrdering::MsbFirst);
    w.write_int(-69, 16);
    assert_eq!(w.into_bytes(), vec![0xFF, 0xBB]);
}

#[test]
fn int_16_bit_lsb_first() {
    let mut w = BitVecWriter::new_empty(BitOrdering::LsbFirst);
    w.write_int(-69, 16);
    assert_eq!(w.into_bytes(), vec![0xBB, 0xFF]);
}

#[test]
fn int_16_bit_reads_back() {
    for order in [BitOrdering::MsbFirst, BitOrdering::LsbFirst] {
        let mut w = BitVecWriter::new_empty(order);
        w.write_int(-69, 16);
        let mut r = BitVecReader::new(order, w.into_bitvec());
        assert_eq!(r.read_int(16), Some(-69));
    }
}

#[test]
fn string_then_nul_string_bytes() {
    for order in [BitOrdering::MsbFirst, BitOrdering::LsbFirst] {
        let mut w = BitVecWriter::new_empty(order);
        w.write_string("Hello, world!");
        w.write_string_nul("Hello, world!");
        let mut expected: Vec<u8> = Vec::new();
        expected.extend_from_slice(b"Hello, world!Hello, world!");
        expected.push(0x00);
        assert_eq!(w.into_bytes(), expected);
    }
}
