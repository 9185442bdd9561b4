use plurk::encoding::{form_encode_str, pct_decode_str};
use plurk::error::PlurkError;
use plurk::numeric::{i64_to_string, parse_i64, u64_to_string};
use plurk::query::{lookup_field, split_query};

#[test]
fn decimal_formatting() {
    assert_eq!(u64_to_string(0), "0");
    assert_eq!(u64_to_string(42), "42");
    assert_eq!(u64_to_string(18446744073709551615), "18446744073709551615");
    assert_eq!(i64_to_string(0), "0");
    assert_eq!(i64_to_string(-5), "-5");
    assert_eq!(i64_to_string(9223372036854775807), "9223372036854775807");
    assert_eq!(i64_to_string(-9223372036854775808), "-9223372036854775808");
}

#[test]
fn decimal_parsing() {
    assert_eq!(parse_i64("0"), Some(0));
    assert_eq!(parse_i64("42"), Some(42));
    assert_eq!(parse_i64("+42"), Some(42));
    assert_eq!(parse_i64("-42"), Some(-42));
    assert_eq!(parse_i64("007"), Some(7));
    assert_eq!(parse_i64("9223372036854775807"), Some(9223372036854775807));
    assert_eq!(parse_i64("9223372036854775808"), None);
    assert_eq!(parse_i64("-9223372036854775808"), Some(-9223372036854775808));
    assert_eq!(parse_i64("-9223372036854775809"), None);
    assert_eq!(parse_i64(""), None);
    assert_eq!(parse_i64("-"), None);
    assert_eq!(parse_i64("12a"), None);
    assert_eq!(parse_i64(" 1"), None);
}

#[test]
fn form_encoding() {
    assert_eq!(form_encode_str("abcXYZ019*-._"), "abcXYZ019*-._");
    assert_eq!(form_encode_str("a b"), "a+b");
    assert_eq!(form_encode_str("a&b=c"), "a%26b%3Dc");
    assert_eq!(form_encode_str("caf\u{e9}"), "caf%C3%A9");
    assert_eq!(form_encode_str("\u{1f980}"), "%F0%9F%A6%80");
}

#[test]
fn form_decoding() {
    assert_eq!(pct_decode_str("a%20b+c").as_deref(), Some("a b c"));
    assert_eq!(pct_decode_str("plain").as_deref(), Some("plain"));
    assert_eq!(pct_decode_str("%3D%26").as_deref(), Some("=&"));
    assert_eq!(pct_decode_str("%GZ"), None);
    assert_eq!(pct_decode_str("%2"), None);
}

#[test]
fn form_decoding_reassembles_utf8() {
    assert_eq!(pct_decode_str("caf%C3%A9").as_deref(), Some("caf\u{e9}"));
    assert_eq!(pct_decode_str("%F0%9F%A6%80").as_deref(), Some("\u{1f980}"));
    // Mixed literal and escaped characters around a multi-byte escape.
    assert_eq!(pct_decode_str("a%C3%A9b").as_deref(), Some("a\u{e9}b"));
    // An incomplete or ill-formed byte stream is rejected.
    assert_eq!(pct_decode_str("%C3"), None);
    assert_eq!(pct_decode_str("%C3x"), None);
    assert_eq!(pct_decode_str("%FF"), None);
    assert_eq!(pct_decode_str("%C0%80"), None);
}

#[test]
fn query_lookup() {
    let segs = split_query("a=1&b=2&a=3");
    assert_eq!(lookup_field(&segs, "a"), Some(Some("1".to_string())));
    assert_eq!(lookup_field(&segs, "b"), Some(Some("2".to_string())));
    assert_eq!(lookup_field(&segs, "c"), None);

    let segs = split_query("%63hannel=x%20y&flag");
    assert_eq!(lookup_field(&segs, "channel"), Some(Some("x y".to_string())));
    assert_eq!(lookup_field(&segs, "flag"), Some(Some("".to_string())));
}

#[test]
fn error_values_carry_code_and_message() {
    let e = PlurkError::new(7, "bad descriptor".to_string());
    assert_eq!(e.code(), 7);
    assert_eq!(e.message(), "bad descriptor");
}
