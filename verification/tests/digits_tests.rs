use buyers_checker::digits::{parse_u64, parse_usize, u64_to_decimal, usize_to_decimal};

#[test]
fn parse_plain_number() {
    assert_eq!(parse_u64(b"105"), Some(105));
    assert_eq!(parse_usize(b"3"), Some(3));
}

#[test]
fn parse_zero_and_leading_zeros() {
    assert_eq!(parse_u64(b"0"), Some(0));
    assert_eq!(parse_u64(b"007"), Some(7));
}

#[test]
fn parse_accepts_leading_plus() {
    assert_eq!(parse_u64(b"+42"), Some(42));
    assert_eq!(parse_usize(b"+0"), Some(0));
}

#[test]
fn parse_rejects_empty_and_bare_plus() {
    assert_eq!(parse_u64(b""), None);
    assert_eq!(parse_u64(b"+"), None);
}

#[test]
fn parse_rejects_non_digits() {
    assert_eq!(parse_u64(b"12X"), None);
    assert_eq!(parse_u64(b"-3"), None);
    assert_eq!(parse_u64(b"4 2"), None);
    assert_eq!(parse_u64(b"1.5"), None);
}

#[test]
fn parse_handles_the_u64_boundary() {
    assert_eq!(parse_u64(b"18446744073709551615"), Some(u64::MAX));
    assert_eq!(parse_u64(b"18446744073709551616"), None);
    assert_eq!(parse_u64(b"99999999999999999999999"), None);
}

#[test]
fn parse_agrees_with_std() {
    for s in ["105", "0", "+9", "18446744073709551615", "x", "", "10e1"] {
        assert_eq!(parse_u64(s.as_bytes()), s.parse::<u64>().ok(), "on {s:?}");
    }
}

#[test]
fn render_small_numbers() {
    assert_eq!(u64_to_decimal(0), b"0");
    assert_eq!(u64_to_decimal(7), b"7");
    assert_eq!(u64_to_decimal(105), b"105");
    assert_eq!(usize_to_decimal(9001), b"9001");
}

#[test]
fn render_the_u64_maximum() {
    assert_eq!(u64_to_decimal(u64::MAX), b"18446744073709551615");
}

#[test]
fn render_then_parse_round_trips() {
    for n in [0u64, 1, 9, 10, 99, 100, 12345678901234567, u64::MAX] {
        assert_eq!(parse_u64(&u64_to_decimal(n)), Some(n));
    }
}
