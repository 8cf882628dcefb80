use gpuctl::numtext::{div_trunc, parse_i64, render_i64, render_u64, trim_str};

#[test]
fn parse_plain_decimals() {
    assert_eq!(parse_i64("123"), Some(123));
    assert_eq!(parse_i64("-5"), Some(-5));
    assert_eq!(parse_i64("0"), Some(0));
    assert_eq!(parse_i64("0012"), Some(12));
    assert_eq!(parse_i64("-000"), Some(0));
}

#[test]
fn parse_rejects_non_numbers() {
    assert_eq!(parse_i64(""), None);
    assert_eq!(parse_i64("-"), None);
    assert_eq!(parse_i64("12a"), None);
    assert_eq!(parse_i64(" 12"), None);
    assert_eq!(parse_i64("1 2"), None);
}

#[test]
fn parse_handles_the_64_bit_edges() {
    assert_eq!(parse_i64("9223372036854775807"), Some(i64::MAX));
    assert_eq!(parse_i64("-9223372036854775808"), Some(i64::MIN));
    assert_eq!(parse_i64("9223372036854775808"), None);
    assert_eq!(parse_i64("-9223372036854775809"), None);
    assert_eq!(parse_i64("99999999999999999999"), None);
}

#[test]
fn render_is_canonical() {
    assert_eq!(render_u64(0).as_str(), "0");
    assert_eq!(render_u64(1507).as_str(), "1507");
    assert_eq!(render_i64(-42).as_str(), "-42");
    assert_eq!(render_i64(i64::MIN).as_str(), "-9223372036854775808");
}

#[test]
fn rendered_numbers_parse_back() {
    for v in [0i64, 7, -7, 1_000_000, -987654321, i64::MAX, i64::MIN] {
        assert_eq!(parse_i64(render_i64(v).as_str()), Some(v));
    }
}

#[test]
fn trim_strips_surrounding_whitespace() {
    assert_eq!(trim_str(" 45000\n"), "45000");
    assert_eq!(trim_str("\t\r\n"), "");
    assert_eq!(trim_str("a b"), "a b");
}

#[test]
fn division_truncates_toward_zero() {
    assert_eq!(div_trunc(1999, 1000), 1);
    assert_eq!(div_trunc(-1999, 1000), -1);
    assert_eq!(div_trunc(i64::MIN, 1_000_000), -9_223_372_036_854);
}
