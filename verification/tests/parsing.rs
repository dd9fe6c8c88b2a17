use serial_monitor::numbers::{is_float_token, parse_i32, parse_usize};
use serial_monitor::text::trim_str;

#[test]
fn float_tokens_match_the_float_parser() {
    let cases = [
        "1", "1.0", "1.", ".5", "5.e3", "1e5", "1E5", "1e+5", "1e-5", "+1.25", "-3", "inf",
        "infinity", "INF", "Infinity", "nan", "NaN", "-inf", "+nan", "", ".", "1.2.3", "1e",
        "1e+", "--1", "0x1", "1_000", " 1", "1 ", "e5", "+", "-", "1,5", "abc", "in", "infinit",
        "1ee5", "5.2e10", "0007", "00.25",
    ];
    for t in cases {
        assert_eq!(
            is_float_token(t),
            t.parse::<f64>().is_ok(),
            "token {:?} disagreed with the float parser",
            t
        );
    }
}

#[test]
fn integer_parsing_matches_the_standard_parsers() {
    let cases = [
        "0", "42", "+7", "-7", "007", "", "+", "-", "1.5", " 1", "2147483647", "2147483648",
        "-2147483648", "-2147483649", "99999999999999999999", "18446744073709551615",
        "18446744073709551616", "abc", "-0", "+0",
    ];
    for t in cases {
        assert_eq!(t.parse::<usize>().ok(), parse_usize(t), "usize {:?}", t);
        assert_eq!(t.parse::<i32>().ok(), parse_i32(t), "i32 {:?}", t);
    }
}

#[test]
fn trimming_strips_ascii_whitespace() {
    assert_eq!(trim_str("  1.5\t"), "1.5");
    assert_eq!(trim_str("\r\nx\n"), "x");
    assert_eq!(trim_str(""), "");
    assert_eq!(trim_str("   "), "");
    assert_eq!(trim_str("a b"), "a b");
}
