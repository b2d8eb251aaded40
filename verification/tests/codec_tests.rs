use url_shortener::codec::{
    bin_to_id, bytes_to_hex, id_to_bin, parse_hex_u64, u64_to_decimal, u64_to_hex, IntErrorKind,
};

#[test]
fn decimal_text_of_numbers() {
    assert_eq!(u64_to_decimal(0), "0");
    assert_eq!(u64_to_decimal(7), "7");
    assert_eq!(u64_to_decimal(123), "123");
    assert_eq!(u64_to_decimal(u64::MAX), u64::MAX.to_string());
    for n in [10u64, 99, 100, 1_000_007, 4_294_967_296] {
        assert_eq!(u64_to_decimal(n), n.to_string());
    }
}

#[test]
fn hex_text_of_numbers() {
    assert_eq!(u64_to_hex(0), "0");
    assert_eq!(u64_to_hex(255), "ff");
    assert_eq!(u64_to_hex(4096), "1000");
    assert_eq!(u64_to_hex(u64::MAX), "ffffffffffffffff");
    for n in [1u64, 15, 16, 0xdead_beef, 0x0123_4567_89ab_cdef] {
        assert_eq!(u64_to_hex(n), format!("{:x}", n));
    }
}

#[test]
fn parse_hex_accepts_digits_of_either_case() {
    assert_eq!(parse_hex_u64("ff"), Ok(255));
    assert_eq!(parse_hex_u64("FF"), Ok(255));
    assert_eq!(parse_hex_u64("+1a"), Ok(26));
    assert_eq!(parse_hex_u64("0"), Ok(0));
    assert_eq!(parse_hex_u64("ffffffffffffffff"), Ok(u64::MAX));
    assert_eq!(parse_hex_u64("00000000000000000001"), Ok(1));
}

#[test]
fn parse_hex_errors_match_from_str_radix() {
    assert_eq!(parse_hex_u64(""), Err(IntErrorKind::Empty));
    assert_eq!(parse_hex_u64("+"), Err(IntErrorKind::InvalidDigit));
    assert_eq!(parse_hex_u64("-"), Err(IntErrorKind::InvalidDigit));
    assert_eq!(parse_hex_u64("-1"), Err(IntErrorKind::InvalidDigit));
    assert_eq!(parse_hex_u64("xyz"), Err(IntErrorKind::InvalidDigit));
    assert_eq!(parse_hex_u64("1g"), Err(IntErrorKind::InvalidDigit));
    assert_eq!(parse_hex_u64("10000000000000000"), Err(IntErrorKind::PosOverflow));
    // an overflow met before a bad digit is reported as an overflow
    assert_eq!(parse_hex_u64("10000000000000000g"), Err(IntErrorKind::PosOverflow));
    for s in ["", "+", "-", "-1", "xyz", "1g", "10000000000000000", "ab cd", "é1"] {
        let std_kind = u64::from_str_radix(s, 16).map_err(|e| e.kind().clone());
        let ours = parse_hex_u64(s);
        match (ours, std_kind) {
            (Ok(a), Ok(b)) => assert_eq!(a, b),
            (Err(IntErrorKind::Empty), Err(std::num::IntErrorKind::Empty)) => {}
            (Err(IntErrorKind::InvalidDigit), Err(std::num::IntErrorKind::InvalidDigit)) => {}
            (Err(IntErrorKind::PosOverflow), Err(std::num::IntErrorKind::PosOverflow)) => {}
            (a, b) => panic!("mismatch on {:?}: {:?} vs {:?}", s, a, b),
        }
    }
}

#[test]
fn short_url_round_trip() {
    for n in [0u64, 1, 255, 123_456_789, u64::MAX - 1, u64::MAX] {
        assert_eq!(parse_hex_u64(&u64_to_hex(n)), Ok(n));
    }
}

#[test]
fn log_keys_are_big_endian() {
    assert_eq!(id_to_bin(1), vec![0, 0, 0, 0, 0, 0, 0, 1]);
    assert_eq!(id_to_bin(0x0102_0304_0506_0708), vec![1, 2, 3, 4, 5, 6, 7, 8]);
    assert_eq!(id_to_bin(u64::MAX), vec![0xff; 8]);
    assert_eq!(bin_to_id(&[1, 2, 3, 4, 5, 6, 7, 8]), 0x0102_0304_0506_0708);
    assert_eq!(bin_to_id(&[0, 0, 0, 0, 0, 0, 1, 0, 9, 9]), 256);
    for n in [0u64, 1, 255, 256, 65_535, u64::MAX] {
        assert_eq!(bin_to_id(&id_to_bin(n)), n);
        assert_eq!(id_to_bin(n), n.to_be_bytes().to_vec());
    }
}

#[test]
fn log_keys_sort_as_indices() {
    let ids = [0u64, 1, 255, 256, 65_535, 65_536, 1 << 40, u64::MAX];
    for a in ids {
        for b in ids {
            assert_eq!(id_to_bin(a) < id_to_bin(b), a < b);
        }
    }
}

#[test]
fn bytes_as_lowercase_hex() {
    assert_eq!(bytes_to_hex(&[]), "");
    assert_eq!(bytes_to_hex(&[0, 255, 16, 1]), "00ff1001");
}
