use pafcheck::text::{parse_usize, split_str, trim_str, u128_to_string};

#[test]
fn decimal_rendering_is_exact() {
    assert_eq!(u128_to_string(0), "0");
    assert_eq!(u128_to_string(7), "7");
    assert_eq!(u128_to_string(120), "120");
    assert_eq!(u128_to_string(18446744073709551615), "18446744073709551615");
    assert_eq!(
        u128_to_string(u128::MAX),
        "340282366920938463463374607431768211455"
    );
}

#[test]
fn parse_usize_accepts_plain_and_plus_prefixed_numerals() {
    assert_eq!(parse_usize("42"), Some(42));
    assert_eq!(parse_usize("0"), Some(0));
    assert_eq!(parse_usize("+7"), Some(7));
}

#[test]
fn parse_usize_rejects_everything_else() {
    assert_eq!(parse_usize(""), None);
    assert_eq!(parse_usize("+"), None);
    assert_eq!(parse_usize("-1"), None);
    assert_eq!(parse_usize("4 2"), None);
    assert_eq!(parse_usize("12a"), None);
    assert_eq!(parse_usize("99999999999999999999999999999999999999999"), None);
}

#[test]
fn trim_removes_only_edge_whitespace() {
    assert_eq!(trim_str("  a b \t\r\n"), "a b");
    assert_eq!(trim_str(""), "");
    assert_eq!(trim_str(" \t "), "");
    assert_eq!(trim_str("ACGT"), "ACGT");
}

#[test]
fn split_keeps_empty_pieces() {
    assert_eq!(split_str("a\tb\tc", '\t'), vec!["a", "b", "c"]);
    assert_eq!(split_str("", '\t'), vec![""]);
    assert_eq!(split_str("\t", '\t'), vec!["", ""]);
    assert_eq!(split_str("a\t\tb\t", '\t'), vec!["a", "", "b", ""]);
}
