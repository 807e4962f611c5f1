use slackbot::number::{is_decimal_text, parse_isize};

#[test]
fn decimal_accepts_plain_numbers() {
    for text in ["0", "7", "1700000000", "1700000000.0", "1700000000.000200", "0.5", "007"] {
        assert!(is_decimal_text(text), "{}", text);
    }
}

#[test]
fn decimal_accepts_sign_point_and_exponent_forms() {
    for text in ["+1", "-1", "5.", ".5", "-.5", "+5.", "1e5", "1E5", "1e+5", "1e-5", "1.5e10", ".5e1", "5.e1"] {
        assert!(is_decimal_text(text), "{}", text);
    }
}

#[test]
fn decimal_rejects_what_is_no_number() {
    for text in [
        "", "+", "-", ".", "+.", "e5", ".e5", "1e", "1e+", "1e-", "1e5.0", "1.2.3", "1 ", " 1",
        "1,5", "abc", "1x", "--1", "+-1", "1e5e5", "0x10", "1_000", "inf", "-inf", "infinity",
        "nan", "NaN", "\u{661}",
    ] {
        assert!(!is_decimal_text(text), "{}", text);
    }
}

#[test]
fn decimal_texts_are_read_by_the_float_parser() {
    for text in ["0", "-1", "5.", ".5", "1e5", "1.5E-3", "1700000000.0", "+0.25e+2"] {
        assert!(is_decimal_text(text));
        let value: f64 = text.parse().unwrap();
        assert!(value.is_finite());
    }
    let value: f64 = "1700000000.0".parse().unwrap();
    assert_eq!(value, 1700000000.0);
}

#[test]
fn decimal_agrees_with_float_parser_on_finite_forms() {
    for text in [
        "", "+", ".", "1", "1.", ".1", "1.1", "1e1", "1e", "e1", "1.1.1", "1e1e1", "-", "-1e-1",
        "1 1", "a", "1a", "+.e1", "9e", "9e+", "00.00", "-0",
    ] {
        let std_says = text.parse::<f64>().is_ok();
        assert_eq!(is_decimal_text(text), std_says, "{:?}", text);
    }
}

#[test]
fn parse_isize_reads_integers() {
    assert_eq!(parse_isize("0"), Some(0));
    assert_eq!(parse_isize("42"), Some(42));
    assert_eq!(parse_isize("-42"), Some(-42));
    assert_eq!(parse_isize("+42"), Some(42));
    assert_eq!(parse_isize("007"), Some(7));
    assert_eq!(parse_isize("-0"), Some(0));
}

#[test]
fn parse_isize_rejects_what_is_no_integer() {
    for text in ["", "+", "-", "1.0", "1e3", " 1", "1 ", "--1", "+-1", "12a", "a12", "1_000", "\u{661}"] {
        assert_eq!(parse_isize(text), None, "{:?}", text);
    }
}

#[test]
fn parse_isize_bounds() {
    assert_eq!(parse_isize(&isize::MAX.to_string()), Some(isize::MAX));
    assert_eq!(parse_isize(&isize::MIN.to_string()), Some(isize::MIN));
    assert_eq!(parse_isize("9223372036854775808"), None);
    assert_eq!(parse_isize("-9223372036854775809"), None);
    assert_eq!(parse_isize("99999999999999999999999999999999999999999999"), None);
    assert_eq!(parse_isize("-99999999999999999999999999999999999999999999"), None);
    assert_eq!(parse_isize("0000000000000000000000000000000000000000000012"), Some(12));
}

#[test]
fn parse_isize_agrees_with_std() {
    for text in [
        "", "0", "-", "+", "+0", "-1", "1-", "123456789", "-123456789", "9223372036854775807",
        "9223372036854775808", "-9223372036854775808", "-9223372036854775809", "1a", "0x1",
        "18446744073709551616", "000", "+-0",
    ] {
        assert_eq!(parse_isize(text), text.parse::<isize>().ok(), "{:?}", text);
    }
}
