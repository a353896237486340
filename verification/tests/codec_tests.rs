use sentinel_kit::codec::{decimal_string, signed_decimal_string, trim};

#[test]
fn decimals_are_rendered_like_display() {
    assert_eq!(decimal_string(0), "0");
    assert_eq!(decimal_string(7), "7");
    assert_eq!(decimal_string(12345), "12345");
    assert_eq!(decimal_string(u64::MAX), u64::MAX.to_string());
    assert_eq!(signed_decimal_string(0), "0");
    assert_eq!(signed_decimal_string(-42), "-42");
    assert_eq!(signed_decimal_string(i64::MIN), i64::MIN.to_string());
    assert_eq!(signed_decimal_string(i64::MAX), i64::MAX.to_string());
}

#[test]
fn trim_matches_str_trim() {
    let samples = [
        "", "   ", " a ", "\t\n x y \r\n", "\u{3000}wide\u{3000}", "\u{85}next\u{a0}",
        "\u{2009}thin\u{200a}", "\u{200b}zero-width\u{200b}", "é", "  ñ  ", "\u{1680}ogham",
    ];
    for s in samples {
        assert_eq!(trim(s), s.trim(), "sample {s:?}");
    }
}
