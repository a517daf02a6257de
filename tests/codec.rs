use session_ui::codec::{
    bytes_from_symbol, decode_u64, encode_u64, symbol_from_bytes, EventSymbol, FromStringError,
};

#[test]
fn encode_u64_is_little_endian_hex() {
    assert_eq!(encode_u64(1), "0100000000000000");
    assert_eq!(encode_u64(0x0102030405060708), "0807060504030201");
    assert_eq!(encode_u64(u64::MAX), "ffffffffffffffff");
}

#[test]
fn decode_u64_round_trip() {
    for v in [0u64, 1, 255, 256, 123456789, u64::MAX] {
        let s = encode_u64(v);
        assert_eq!(decode_u64(&s).ok(), Some(v));
    }
}

#[test]
fn decode_accepts_upper_case_and_trailing_bytes() {
    assert_eq!(decode_u64("FF00000000000000").ok(), Some(255));
    assert_eq!(decode_u64("0200000000000000aa").ok(), Some(2));
}

#[test]
fn decode_odd_length_is_hex_error() {
    match decode_u64("123") {
        Err(FromStringError::FailedToDecodeHex { hex, .. }) => assert_eq!(hex, "123"),
        _ => panic!("expected a hex error"),
    }
}

#[test]
fn decode_invalid_character_is_hex_error() {
    match decode_u64("zz00000000000000") {
        Err(FromStringError::FailedToDecodeHex { hex, .. }) => assert_eq!(hex, "zz00000000000000"),
        _ => panic!("expected a hex error"),
    }
}

#[test]
fn decode_short_bytes_is_deserialize_error() {
    match decode_u64("0102") {
        Err(FromStringError::FailedToDeserialize { bytes, .. }) => assert_eq!(bytes, vec![1u8, 2]),
        _ => panic!("expected a deserialize error"),
    }
}

#[test]
fn bytes_symbol_round_trip() {
    let bytes = vec![0u8, 15, 16, 171, 255];
    let s = symbol_from_bytes(&bytes);
    assert_eq!(s, "000f10abff");
    assert_eq!(bytes_from_symbol(&s).ok(), Some(bytes));
    assert_eq!(bytes_from_symbol("").ok(), Some(vec![]));
}

#[test]
fn event_symbol_for_u64() {
    let s = EventSymbol::to_string(&42u64);
    assert_eq!(s, "2a00000000000000");
    let back: u64 = EventSymbol::from_string(&s).ok().unwrap();
    assert_eq!(back, 42);
    assert!(<u64 as EventSymbol>::from_string("nothex").is_err());
}

#[test]
fn event_symbol_failures_carry_input() {
    match <u64 as EventSymbol>::from_string("zz") {
        Err(FromStringError::FailedToDecodeHex { hex, .. }) => assert_eq!(hex, "zz"),
        _ => panic!("expected a hex error"),
    }
    match <u64 as EventSymbol>::from_string("abc") {
        Err(FromStringError::FailedToDecodeHex { hex, .. }) => assert_eq!(hex, "abc"),
        _ => panic!("expected a hex error"),
    }
    match <u64 as EventSymbol>::from_string("01") {
        Err(FromStringError::FailedToDeserialize { bytes, .. }) => assert_eq!(bytes, vec![1u8]),
        _ => panic!("expected a deserialize error"),
    }
}

#[test]
fn event_symbol_round_trip_many() {
    for v in [0u64, 7, 1 << 40, u64::MAX - 1] {
        let s = EventSymbol::to_string(&v);
        assert!(s.chars().all(|c| c.is_ascii_hexdigit() && !c.is_ascii_uppercase()));
        assert_eq!(s.len(), 16);
        let back: u64 = EventSymbol::from_string(&s).ok().unwrap();
        assert_eq!(back, v);
    }
}
