use rows_and_columns::decimal_text::{u64_to_dec_string, usize_to_dec_string};
use rows_and_columns::line_fields::trim_of;
use rows_and_columns::numeric_text::{is_float_literal, is_integer_literal, is_numeric_literal};

#[test]
fn test_integer_literal_recognition() {
    assert!(is_integer_literal("0"));
    assert!(is_integer_literal("42"));
    assert!(is_integer_literal("+42"));
    assert!(is_integer_literal("-42"));
    assert!(is_integer_literal("007"));
    assert!(is_integer_literal("9223372036854775807"));
    assert!(is_integer_literal("-9223372036854775808"));
    assert!(is_integer_literal("00009223372036854775807"));

    assert!(!is_integer_literal("9223372036854775808"));
    assert!(!is_integer_literal("-9223372036854775809"));
    assert!(!is_integer_literal("99999999999999999999999999"));
    assert!(!is_integer_literal(""));
    assert!(!is_integer_literal("+"));
    assert!(!is_integer_literal("-"));
    assert!(!is_integer_literal("1.0"));
    assert!(!is_integer_literal("1e5"));
    assert!(!is_integer_literal(" 1"));
    assert!(!is_integer_literal("--1"));
}

#[test]
fn test_float_literal_recognition() {
    assert!(is_float_literal("1.5"));
    assert!(is_float_literal("-0.75"));
    assert!(is_float_literal("1."));
    assert!(is_float_literal(".5"));
    assert!(is_float_literal("3"));
    assert!(is_float_literal("1e5"));
    assert!(is_float_literal("1E5"));
    assert!(is_float_literal("1e+5"));
    assert!(is_float_literal("-2.5e-3"));
    assert!(is_float_literal("inf"));
    assert!(is_float_literal("INFINITY"));
    assert!(is_float_literal("nAn"));
    assert!(is_float_literal("+inf"));
    assert!(is_float_literal("9223372036854775808"));

    assert!(!is_float_literal(""));
    assert!(!is_float_literal("."));
    assert!(!is_float_literal("+"));
    assert!(!is_float_literal("1e"));
    assert!(!is_float_literal("e5"));
    assert!(!is_float_literal("1.2.3"));
    assert!(!is_float_literal("1e5.0"));
    assert!(!is_float_literal("infx"));
    assert!(!is_float_literal(" 1.5"));
    assert!(!is_float_literal("--1.5"));
}

#[test]
fn test_numeric_literal_recognition() {
    assert!(is_numeric_literal("12"));
    assert!(is_numeric_literal("12.5"));
    assert!(!is_numeric_literal("twelve"));
}

#[test]
fn test_trim_of() {
    assert_eq!(trim_of("  a b  "), "a b");
    assert_eq!(trim_of("\t x \r"), "x");
    assert_eq!(trim_of("   "), "");
    assert_eq!(trim_of(""), "");
    assert_eq!(trim_of("y"), "y");
}

#[test]
fn test_recognizers_agree_with_standard_parsing() {
    let cases = [
        "", " ", "0", "-0", "+0", "42", "+42", "-42", "007", "1.5", "-1.5", "1.", ".5", ".",
        "..", "1..2", "1.2.3", "1.e5", ".e5", "1e5", "1E5", "1e+5", "1e-5", "1e", "e5", "5e",
        ".5e.5", "inf", "-inf", "+inf", "INF", "Infinity", "INFINITY", "infinityy", "infx",
        "nan", "NaN", "-nan", "+nan", "nans", "9223372036854775807", "9223372036854775808",
        "-9223372036854775808", "-9223372036854775809", "00009223372036854775807",
        "99999999999999999999999999", "1_000", "0x10", " 1", "1 ", "--1", "++1", "+-1", "-",
        "+", "abc", "12a", "a12", "1,5", "١٢٣", "⅕", "00.5", "0.0", "-.5", "+.5", "-.", "+.",
    ];
    for case in cases {
        assert_eq!(
            is_integer_literal(case),
            case.parse::<i64>().is_ok(),
            "integer recognition differs for {:?}",
            case
        );
        assert_eq!(
            is_float_literal(case),
            case.parse::<f64>().is_ok(),
            "float recognition differs for {:?}",
            case
        );
    }
}

#[test]
fn test_decimal_rendering() {
    assert_eq!(u64_to_dec_string(0), "0");
    assert_eq!(u64_to_dec_string(7), "7");
    assert_eq!(u64_to_dec_string(12345), "12345");
    assert_eq!(u64_to_dec_string(18446744073709551615), "18446744073709551615");
    assert_eq!(usize_to_dec_string(100), "100");
}
