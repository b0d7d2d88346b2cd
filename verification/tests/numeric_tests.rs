use simpleargs::numeric::is_float_text;
use simpleargs::numeric::parse_integer;

#[test]
fn test_parse_integer_values() {
    assert_eq!(parse_integer("0"), Some(0));
    assert_eq!(parse_integer("50"), Some(50));
    assert_eq!(parse_integer("+50"), Some(50));
    assert_eq!(parse_integer("-50"), Some(-50));
    assert_eq!(parse_integer("2147483647"), Some(2147483647));
    assert_eq!(parse_integer("-2147483648"), Some(-2147483648));
}

#[test]
fn test_parse_integer_rejects() {
    assert_eq!(parse_integer(""), None);
    assert_eq!(parse_integer("+"), None);
    assert_eq!(parse_integer("-"), None);
    assert_eq!(parse_integer("12a"), None);
    assert_eq!(parse_integer("1.5"), None);
    assert_eq!(parse_integer("2147483648"), None);
    assert_eq!(parse_integer("-2147483649"), None);
    assert_eq!(parse_integer("99999999999999999999"), None);
}

#[test]
fn test_parse_integer_agrees_with_standard_parsing() {
    for s in ["0", "-7", "+42", "2147483647", "-2147483648", "2147483648", "1e3", ""] {
        assert_eq!(parse_integer(s), s.parse::<i32>().ok());
    }
}

#[test]
fn test_float_text_accepts() {
    for s in [
        "0.401", "4.34", "1", "-1.5", "+2.", ".5", "1e5", "1.5e-3", "2E+7", "inf", "-inf",
        "Infinity", "NaN", "nan",
    ] {
        assert!(is_float_text(s), "expected {:?} to be float-shaped", s);
        assert!(s.parse::<f32>().is_ok(), "standard parsing disagrees on {:?}", s);
    }
}

#[test]
fn test_float_text_rejects() {
    for s in ["", ".", "-", "1e", "1e+", "abc", "1.2.3", "0x10", "1 "] {
        assert!(!is_float_text(s), "expected {:?} to be rejected", s);
        assert!(s.parse::<f32>().is_err(), "standard parsing disagrees on {:?}", s);
    }
}
