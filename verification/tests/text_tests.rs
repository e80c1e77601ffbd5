use handy::text::{
    chars_of, concat_str, contains_chars, decimal_chars, message_with_code, parse_u64_str,
    signed_decimal_chars, str_eq, trim_string,
};

#[test]
fn trims_unicode_whitespace() {
    assert_eq!(trim_string("\u{3000} a b\u{a0}\t\n"), "a b");
    assert_eq!(trim_string("   "), "");
    assert_eq!(trim_string(&trim_string("  x ")), trim_string("  x "));
}

#[test]
fn parses_unsigned_decimals_like_std() {
    for s in ["0", "7", "+7", "007", "18446744073709551615"] {
        assert_eq!(parse_u64_str(s), s.parse::<u64>().ok(), "{s}");
    }
    for s in ["", "+", "-1", " 1", "1 ", "18446744073709551616", "1a", "١"] {
        assert_eq!(parse_u64_str(s), None, "{s}");
        assert!(s.parse::<u64>().is_err());
    }
}

#[test]
fn formats_decimals_like_std() {
    for n in [0u128, 9, 10, 12345, u64::MAX as u128, u128::MAX] {
        let s: String = decimal_chars(n).into_iter().collect();
        assert_eq!(s, n.to_string());
        assert_eq!(parse_u64_str(&s), u64::try_from(n).ok());
    }
    for n in [0i64, -1, -34018, i64::MIN, i64::MAX] {
        let s: String = signed_decimal_chars(n).into_iter().collect();
        assert_eq!(s, n.to_string());
    }
    assert_eq!(message_with_code("(", -5, ")"), "(-5)");
}

#[test]
fn sequence_helpers() {
    assert!(str_eq("héllo", "héllo"));
    assert!(!str_eq("a", "b"));
    assert_eq!(concat_str("ab", "cd"), "abcd");
    assert!(contains_chars(&chars_of("refresh_token_expired"), &chars_of("expired")));
    assert!(!contains_chars(&chars_of("exp"), &chars_of("expired")));
    assert!(contains_chars(&chars_of("x"), &chars_of("")));
}
