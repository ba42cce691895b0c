use bitbuf::{BitBuf, BitCount, BitOrdering, BitVecReader, BitVecWriter};

const ORDERS: [BitOrdering; 2] = [BitOrdering::MsbFirst, BitOrdering::LsbFirst];

#[test]
fn reads_past_end_yield_none_and_keep_cursor() {
    for order in ORDERS {
        // 12 bits in the stream.
        let mut wr = BitVecWriter::new_empty(order);
        wr.write_uint(0xABC, 12);
        let mut rd = BitVecReader::new(order, wr.into_bitvec());
        rd.advance(5);
        assert_eq!(rd.read_uint(8), None);
        assert_eq!(rd.bits_read(), 5);
        assert_eq!(rd.read_int(64), None);
        assert_eq!(rd.bits_read(), 5);
        assert_eq!(rd.read_bytes(1), None);
        assert_eq!(rd.bits_read(), 5);
        assert_eq!(rd.read_float_bits(), None);
        assert_eq!(rd.read_double_bits(), None);
        assert_eq!(rd.read_string(1), None);
        assert_eq!(rd.bits_read(), 5);
        assert_eq!(rd.read_uint(7), Some(if order == BitOrdering::MsbFirst {
            0xABC & 0x7F
        } else {
            0xABC >> 5
        }));
    }
}

#[test]
fn failed_bit_read_keeps_cursor() {
    // A failed single-bit read does not advance the cursor, consistent
    // with every other read operation.
    let mut rd = BitVecReader::from_bytes(BitOrdering::MsbFirst, vec![0x80]);
    assert_eq!(rd.read_uint(8), Some(0x80));
    assert_eq!(rd.bits_read(), 8);
    assert_eq!(rd.read_bit(), None);
    assert_eq!(rd.bits_read(), 8);
    rd.rewind(1);
    assert_eq!(rd.read_bit(), Some(false));
    assert_eq!(rd.bits_read(), 8);
}

#[test]
fn cursor_past_end_makes_reads_fail() {
    let mut rd = BitVecReader::from_bytes(BitOrdering::LsbFirst, vec![0x01]);
    rd.advance(100);
    assert_eq!(rd.read_bit(), None);
    assert_eq!(rd.read_uint(1), None);
    assert_eq!(rd.read_nul_string(), Some(Ok(String::new())));
    assert_eq!(rd.bits_read(), 100);
}

#[test]
fn writer_accounting() {
    for order in ORDERS {
        let mut wr = BitVecWriter::new_empty(order);
        assert_eq!(wr.bits_written(), 0);
        assert_eq!(wr.bytes_written(), 0);
        wr.write_uint(3, 3);
        assert_eq!(wr.bits_written(), 3);
        assert_eq!(wr.bytes_written(), 1);
        wr.write_uint(0x1F, 5);
        assert_eq!(wr.bits_written(), 8);
        assert_eq!(wr.bytes_written(), 1);
        wr.write_bit(true);
        assert_eq!(wr.bits_written(), 9);
        assert_eq!(wr.bytes_written(), 2);
    }
}

#[test]
fn reader_accounting() {
    let mut rd = BitVecReader::from_bytes(BitOrdering::MsbFirst, vec![1, 2, 3]);
    assert_eq!(rd.bits_len(), 24);
    assert_eq!(rd.bytes_len(), 3);
    assert_eq!(rd.bits_left(), 24);
    assert_eq!(rd.bytes_left(), 3);
    assert_eq!(rd.bits_read(), 0);
    assert_eq!(rd.bytes_read(), 0);
    rd.read_uint(3).unwrap();
    assert_eq!(rd.bits_left(), 21);
    assert_eq!(rd.bytes_left(), 3);
    assert_eq!(rd.bits_read(), 3);
    assert_eq!(rd.bytes_read(), 1);
    rd.read_uint(5).unwrap();
    assert_eq!(rd.bits_left(), 16);
    assert_eq!(rd.bytes_left(), 2);
    assert_eq!(rd.bytes_read(), 1);
}

#[test]
fn advance_and_rewind_reposition() {
    let mut rd = BitVecReader::from_bytes(BitOrdering::MsbFirst, vec![0x0F]);
    rd.advance(4);
    assert_eq!(rd.read_uint(4), Some(0xF));
    rd.rewind(8);
    assert_eq!(rd.read_uint(4), Some(0x0));
}

#[test]
fn set_bit_patches_written_stream() {
    let mut wr = BitVecWriter::new_empty(BitOrdering::MsbFirst);
    wr.write_byte(0x00);
    wr.set_bit(0, true);
    wr.set_bit(7, true);
    assert_eq!(wr.into_bytes(), vec![0x81]);
}

#[test]
fn set_bits_patches_a_run() {
    let mut wr = BitVecWriter::new_empty(BitOrdering::MsbFirst);
    wr.write_byte(0x00);
    wr.set_bits(2, &[true, true, true]);
    assert_eq!(wr.bits_written(), 8);
    assert_eq!(wr.into_bytes(), vec![0x38]);
}

#[test]
fn prebuilt_bit_sequence_round_trip() {
    let mut buf = BitBuf::new();
    buf.push(true);
    buf.push(false);
    buf.push(true);
    let mut rd = BitVecReader::new(BitOrdering::MsbFirst, buf);
    assert_eq!(rd.read_bit(), Some(true));
    assert_eq!(rd.read_bit(), Some(false));
    assert_eq!(rd.read_bit(), Some(true));
    assert_eq!(rd.read_bit(), None);
    let buf = rd.into_bitvec();
    assert_eq!(buf.len(), 3);
}

#[test]
fn writer_seeded_from_slice_appends_after_seed() {
    for order in ORDERS {
        let mut wr = BitVecWriter::from_byte_slice(order, &[0xAA][..]);
        assert_eq!(wr.bits_written(), 0);
        wr.write_byte(0x55);
        assert_eq!(wr.bits_written(), 8);
        assert_eq!(wr.into_bytes(), vec![0xAA, 0x55]);
    }
}

#[test]
fn reader_export_reproduces_partial_byte() {
    let mut wr = BitVecWriter::new_empty(BitOrdering::MsbFirst);
    wr.write_uint(0b101, 3);
    let rd = BitVecReader::new(BitOrdering::MsbFirst, wr.into_bitvec());
    assert_eq!(rd.into_bytes(), vec![0xA0]);
}

#[test]
fn bit_count_matches_natural_widths() {
    assert_eq!(<u8 as BitCount>::BIT_COUNT, 8);
    assert_eq!(<u16 as BitCount>::BIT_COUNT, 16);
    assert_eq!(<u32 as BitCount>::BIT_COUNT, 32);
    assert_eq!(<u64 as BitCount>::BIT_COUNT, 64);
    assert_eq!(<u128 as BitCount>::BIT_COUNT, 128);
    assert_eq!(<i8 as BitCount>::BIT_COUNT, 8);
    assert_eq!(<i16 as BitCount>::BIT_COUNT, 16);
    assert_eq!(<i32 as BitCount>::BIT_COUNT, 32);
    assert_eq!(<i64 as BitCount>::BIT_COUNT, 64);
    assert_eq!(<i128 as BitCount>::BIT_COUNT, 128);
}
