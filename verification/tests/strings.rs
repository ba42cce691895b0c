use bitbuf::{BitOrdering, BitVecReader, BitVecWriter};

const ORDERS: [BitOrdering; 2] = [BitOrdering::MsbFirst, BitOrdering::LsbFirst];

#[test]
fn nul_string_round_trip() {
    for order in ORDERS {
        let mut wr = BitVecWriter::new_empty(order);
        wr.write_string_nul("abc");
        let mut rd = BitVecReader::new(order, wr.into_bitvec());
        assert_eq!(rd.read_nul_string(), Some(Ok(String::from("abc"))));
        assert_eq!(rd.bits_read(), 32);
    }
}

#[test]
fn nul_string_from_empty_buffer_is_empty_not_failure() {
    for order in ORDERS {
        let mut rd = BitVecReader::from_bytes(order, Vec::new());
        assert_eq!(rd.read_nul_string(), Some(Ok(String::new())));
        assert_eq!(rd.read_nul_string_lossy(), Some(String::new()));
        assert_eq!(rd.read_nul_string_unchecked(), Some(String::new()));
    }
}

#[test]
fn nul_string_without_terminator_reads_to_exhaustion() {
    for order in ORDERS {
        let mut wr = BitVecWriter::new_empty(order);
        wr.write_string("hi");
        let mut rd = BitVecReader::new(order, wr.into_bitvec());
        assert_eq!(rd.read_nul_string(), Some(Ok(String::from("hi"))));
        assert_eq!(rd.bits_read(), 16);
    }
}

#[test]
fn nul_string_multibyte_content() {
    for order in ORDERS {
        let mut wr = BitVecWriter::new_empty(order);
        wr.write_string_nul("héllo ∀");
        wr.write_string_nul("next");
        let mut rd = BitVecReader::new(order, wr.into_bitvec());
        assert_eq!(rd.read_nul_string(), Some(Ok(String::from("héllo ∀"))));
        assert_eq!(rd.read_nul_string(), Some(Ok(String::from("next"))));
    }
}

#[test]
fn fixed_length_string_round_trip() {
    for order in ORDERS {
        let mut wr = BitVecWriter::new_empty(order);
        wr.write_string("voilà");
        let n = "voilà".len();
        let mut rd = BitVecReader::new(order, wr.into_bitvec());
        assert_eq!(rd.read_string(n), Some(Ok(String::from("voilà"))));
        assert_eq!(rd.read_string(1), None);
    }
}

#[test]
fn invalid_utf8_yields_error_value() {
    for order in ORDERS {
        let mut rd = BitVecReader::from_bytes(order, vec![0xFF, 0xFE]);
        let got = rd.read_string(2);
        assert!(matches!(got, Some(Err(_))));
        // The bytes were present, so the cursor moved past them.
        assert_eq!(rd.bits_read(), 16);
    }
}

#[test]
fn invalid_utf8_nul_string_yields_error_value() {
    let mut rd = BitVecReader::from_bytes(BitOrdering::MsbFirst, vec![0xC0, 0x00, 0x41]);
    let got = rd.read_nul_string();
    assert!(matches!(got, Some(Err(_))));
    assert_eq!(rd.bits_read(), 16);
    assert_eq!(rd.read_nul_string(), Some(Ok(String::from("A"))));
}

#[test]
fn lossy_string_replaces_invalid_sequences() {
    for order in ORDERS {
        let mut rd = BitVecReader::from_bytes(order, vec![0x61, 0xFF, 0x62]);
        assert_eq!(rd.read_string_lossy(3), Some(String::from("a\u{FFFD}b")));
    }
}

#[test]
fn lossy_nul_string_replaces_invalid_sequences() {
    let mut rd = BitVecReader::from_bytes(BitOrdering::LsbFirst, vec![0xFF, 0x61, 0x00, 0x62]);
    assert_eq!(rd.read_nul_string_lossy(), Some(String::from("\u{FFFD}a")));
    assert_eq!(rd.read_nul_string_lossy(), Some(String::from("b")));
}

#[test]
fn unchecked_nul_string_reads_bytes_as_chars() {
    let mut rd = BitVecReader::from_bytes(BitOrdering::MsbFirst, vec![0x61, 0xE9, 0x00]);
    // Each content byte becomes one character directly.
    assert_eq!(rd.read_nul_string_unchecked(), Some(String::from("a\u{E9}")));
}

#[test]
fn string_too_short_buffer_fails_without_consuming() {
    for order in ORDERS {
        let mut rd = BitVecReader::from_bytes(order, vec![0x61]);
        assert_eq!(rd.read_string(2), None);
        assert_eq!(rd.bits_read(), 0);
        assert_eq!(rd.read_string_lossy(2), None);
        assert_eq!(rd.bits_read(), 0);
        assert_eq!(rd.read_string(1), Some(Ok(String::from("a"))));
    }
}
