use exchange_engine::decimal::{i64_to_decimal, parse_i64, u64_to_decimal};

#[test]
fn formats_integers_like_to_string() {
    for n in [0i64, 7, 10, 42, 1000, -1, -7, -120, i64::MAX, i64::MIN] {
        assert_eq!(i64_to_decimal(n), n.to_string());
    }
    assert_eq!(u64_to_decimal(u64::MAX), u64::MAX.to_string());
    assert_eq!(u64_to_decimal(9), "9");
}

#[test]
fn parses_like_str_parse() {
    for s in ["0", "+5", "-0", "123", "-123", "007", "9223372036854775807", "-9223372036854775808"] {
        assert_eq!(parse_i64(s), s.parse::<i64>().ok(), "{}", s);
    }
    for s in ["", "-", "+", "abc", "1a", " 1", "1 ", "9223372036854775808", "-9223372036854775809", "--1", "99999999999999999999999"] {
        assert_eq!(parse_i64(s), None, "{}", s);
        assert!(s.parse::<i64>().is_err());
    }
}

#[test]
fn decimal_roundtrip() {
    for n in [0i64, 1, -1, 99, -100, 123456789, i64::MAX, i64::MIN] {
        assert_eq!(parse_i64(&i64_to_decimal(n)), Some(n));
    }
}
