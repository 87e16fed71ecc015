use priority_notify::text::{format_i64, format_u64, parse_u64, str_equal, trim_end_char_str};

#[test]
fn format_integers() {
    for n in [0u64, 7, 10, 123, u64::MAX] {
        assert_eq!(format_u64(n), n.to_string());
    }
    for n in [0i64, -1, 5, -10, 999, i64::MIN, i64::MAX] {
        assert_eq!(format_i64(n), n.to_string());
    }
}

#[test]
fn parse_matches_std() {
    for s in ["", "+", "0", "00", "+0", "42", "-1", " 1", "1 ", "18446744073709551615", "18446744073709551616", "99999999999999999999", "12x", "x"] {
        assert_eq!(parse_u64(s), s.parse::<u64>().ok(), "input {:?}", s);
    }
}

#[test]
fn trim_end_char_matches_std() {
    for s in ["", "/", "a/", "a//", "/a", "a/b/", "abc"] {
        assert_eq!(trim_end_char_str(s, '/'), s.trim_end_matches('/'));
    }
    assert_eq!(trim_end_char_str("x\r\r", '\r'), "x");
}

#[test]
fn str_equal_compares() {
    assert!(str_equal("data", "data"));
    assert!(!str_equal("data", "Data"));
    assert!(str_equal("", ""));
}

