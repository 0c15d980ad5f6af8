use decachedmem::decimal::{decimal_bytes, parse_decimal, IntErrorKind};

#[test]
fn decimal_text() {
    assert_eq!(decimal_bytes(0), b"0".to_vec());
    assert_eq!(decimal_bytes(9), b"9".to_vec());
    assert_eq!(decimal_bytes(10), b"10".to_vec());
    assert_eq!(decimal_bytes(1234567890), b"1234567890".to_vec());
    assert_eq!(decimal_bytes(u64::MAX), u64::MAX.to_string().into_bytes());
}

#[test]
fn decimal_parse_matches_std() {
    let cases: Vec<&[u8]> = vec![
        b"", b"+", b"-", b"0", b"+5", b"-5", b"007", b"12a", b"a12",
        b"18446744073709551615", b"18446744073709551616", b"99999999999999999999x", b"4294967295",
        b"4294967296",
    ];
    for case in cases {
        let text = std::str::from_utf8(case).unwrap();
        let expected64 = text.parse::<u64>().map_err(|e| format!("{:?}", e.kind()));
        let got64 = parse_decimal(case, u64::MAX).map_err(|e| format!("{:?}", e));
        assert_eq!(got64, expected64, "u64 case {:?}", text);
        let expected32 = text.parse::<u32>().map(|v| v as u64).map_err(|e| format!("{:?}", e.kind()));
        let got32 = parse_decimal(case, u32::MAX as u64).map_err(|e| format!("{:?}", e));
        assert_eq!(got32, expected32, "u32 case {:?}", text);
    }
}

#[test]
fn decimal_round_trip() {
    for n in [0u64, 1, 42, 1000, u64::MAX - 1, u64::MAX] {
        assert_eq!(parse_decimal(&decimal_bytes(n), u64::MAX), Ok(n));
    }
    assert_eq!(parse_decimal(b"", 5), Err(IntErrorKind::Empty));
    assert_eq!(parse_decimal(b"6", 5), Err(IntErrorKind::PosOverflow));
}
