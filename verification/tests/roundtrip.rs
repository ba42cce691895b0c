use bitbuf::{BitOrdering, BitVecReader, BitVecWriter};

const ORDERS: [BitOrdering; 2] = [BitOrdering::MsbFirst, BitOrdering::LsbFirst];

#[test]
fn uint_round_trip_every_width() {
    let samples: [u64; 6] = [0, 1, 69, 0xDEAD_BEEF, 0x0123_4567_89AB_CDEF, u64::MAX];
    for order in ORDERS {
        for w in 1..=64usize {
            for &v in samples.iter() {
                let mut wr = BitVecWriter::new_empty(order);
                wr.write_uint(v, w);
                assert_eq!(wr.bits_written(), w);
                let mut rd = BitVecReader::new(order, wr.into_bitvec());
                let expected = if w == 64 { v } else { v & ((1u64 << w) - 1) };
                assert_eq!(rd.read_uint(w), Some(expected));
            }
        }
    }
}

#[test]
fn int_round_trip_every_width() {
    for order in ORDERS {
        for w in 1..=64usize {
            let half: i128 = 1i128 << (w - 1);
            let samples: [i128; 6] = [-half, -1, 0, half - 1, (-half).max(-69), (half - 1).min(42)];
            for &v in samples.iter() {
                let v = v as i64;
                let mut wr = BitVecWriter::new_empty(order);
                wr.write_int(v, w);
                let mut rd = BitVecReader::new(order, wr.into_bitvec());
                assert_eq!(rd.read_int(w), Some(v));
            }
        }
    }
}

#[test]
fn positive_narrow_signed_values_survive() {
    // Sign extension must inspect the sign bit: positive narrow-width
    // values come back positive.
    for order in ORDERS {
        let mut wr = BitVecWriter::new_empty(order);
        wr.write_int(5, 4);
        let mut rd = BitVecReader::new(order, wr.into_bitvec());
        assert_eq!(rd.read_int(4), Some(5));
    }
}

#[test]
fn byte_round_trip() {
    for order in ORDERS {
        let mut wr = BitVecWriter::new_empty(order);
        wr.write_byte(0xA5);
        wr.write_byte(0x00);
        wr.write_byte(0xFF);
        let mut rd = BitVecReader::new(order, wr.into_bitvec());
        assert_eq!(rd.read_byte(), Some(0xA5));
        assert_eq!(rd.read_byte(), Some(0x00));
        assert_eq!(rd.read_byte(), Some(0xFF));
        assert_eq!(rd.read_byte(), None);
    }
}

#[test]
fn bytes_round_trip_through_export() {
    let data: Vec<u8> = vec![0x00, 0x01, 0x7F, 0x80, 0xFF, 0x45];
    for order in ORDERS {
        let wr = BitVecWriter::from_bytes(order, data.clone());
        assert_eq!(wr.into_bytes(), data);

        let mut rd = BitVecReader::from_bytes(order, data.clone());
        assert_eq!(rd.read_bytes(6), Some(data.clone()));
    }
}

#[test]
fn float_bits_round_trip_exact() {
    let patterns: [f32; 6] = [0.0, -0.0, 1.5, f32::NAN, f32::INFINITY, f32::NEG_INFINITY];
    for order in ORDERS {
        for &f in patterns.iter() {
            let mut wr = BitVecWriter::new_empty(order);
            wr.write_float_bits(f.to_bits());
            let mut rd = BitVecReader::new(order, wr.into_bitvec());
            assert_eq!(rd.read_float_bits(), Some(f.to_bits()));
        }
        // A signalling-style NaN payload and a denormal, bit for bit.
        for bits in [0x7FC0_0001u32, 0x0000_0001u32, 0x807F_FFFFu32] {
            let mut wr = BitVecWriter::new_empty(order);
            wr.write_float_bits(bits);
            let mut rd = BitVecReader::new(order, wr.into_bitvec());
            assert_eq!(rd.read_float_bits(), Some(bits));
        }
    }
}

#[test]
fn double_bits_round_trip_exact() {
    let patterns: [f64; 6] = [0.0, -0.0, -2.5e300, f64::NAN, f64::INFINITY, f64::NEG_INFINITY];
    for order in ORDERS {
        for &f in patterns.iter() {
            let mut wr = BitVecWriter::new_empty(order);
            wr.write_double_bits(f.to_bits());
            let mut rd = BitVecReader::new(order, wr.into_bitvec());
            assert_eq!(rd.read_double_bits(), Some(f.to_bits()));
        }
        for bits in [0x7FF8_0000_0000_0001u64, 0x0000_0000_0000_0001u64] {
            let mut wr = BitVecWriter::new_empty(order);
            wr.write_double_bits(bits);
            let mut rd = BitVecReader::new(order, wr.into_bitvec());
            assert_eq!(rd.read_double_bits(), Some(bits));
        }
    }
}

#[test]
fn mixed_stream_round_trip() {
    for order in ORDERS {
        let mut wr = BitVecWriter::new_empty(order);
        wr.write_bit(true);
        wr.write_uint(5, 3);
        wr.write_int(-2, 5);
        wr.write_byte(0x42);
        let mut rd = BitVecReader::new(order, wr.into_bitvec());
        assert_eq!(rd.read_bit(), Some(true));
        assert_eq!(rd.read_uint(3), Some(5));
        assert_eq!(rd.read_int(5), Some(-2));
        assert_eq!(rd.read_byte(), Some(0x42));
        assert_eq!(rd.read_bit(), None);
    }
}

#[test]
fn truncation_keeps_low_bits() {
    // A value that does not fit the width is silently truncated to its
    // low bits.
    for order in ORDERS {
        let mut wr = BitVecWriter::new_empty(order);
        wr.write_uint(0x1FF, 4);
        let mut rd = BitVecReader::new(order, wr.into_bitvec());
        assert_eq!(rd.read_uint(4), Some(0xF));
    }
}
