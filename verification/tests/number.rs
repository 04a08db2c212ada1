use recall::number::{i64_text, parse_i64, u64_text, usize_text};

#[test]
fn numbers_are_read_back() {
    for n in [0, 7, -7, 10, -10, 1_234_567_890, i64::MAX, i64::MIN, i64::MIN + 1] {
        assert_eq!(i64_text(n), n.to_string());
        assert_eq!(parse_i64(&i64_text(n)), Some(n));
    }
}

#[test]
fn numbers_are_read_as_std_reads_them() {
    for s in [
        "", "+", "-", "0", "+0", "-0", "007", "+12", "-12", "--1", "+-1", "1 ", " 1", "1_000", "0x10", "1.5",
        "9223372036854775807", "9223372036854775808", "-9223372036854775808", "-9223372036854775809",
        "00000000000000000000000000000000000000042", "99999999999999999999999999", "9223372036854775810",
        "\u{661}", "12a", "18446744073709551616", "18446744073709551617",
    ] {
        assert_eq!(parse_i64(s), s.parse::<i64>().ok(), "{:?}", s);
    }
    assert_eq!(parse_i64("-12"), Some(-12));
    assert_eq!(parse_i64("12a"), None);
}

#[test]
fn counts_are_spelled_in_decimal() {
    assert_eq!(u64_text(0), "0");
    assert_eq!(u64_text(u64::MAX), "18446744073709551615");
    assert_eq!(usize_text(50), "50");
}
