use json::i64_to_string;
use json::parse_i64;
use json::JNumber;
use json::Number;
use json::ParseError;

/// Mirrors the full numeric parse: a 64-bit signed integer first, then the
/// platform 64-bit float, whose rendering is handed to the library as data.
fn form_string(s: &str) -> Result<JNumber, ParseError> {
    JNumber::form_string(s, s.parse::<f64>().ok().map(|f| f.to_string()))
}

#[test]
fn number_from_string_test() {
    let num = form_string("3").unwrap();
    assert_eq!(num.to_string(), "3".to_string());
    let num = form_string("-2").unwrap();
    assert_eq!(num.to_string(), "-2".to_string());
    let num = form_string("0").unwrap();
    assert_eq!(num.to_string(), "0".to_string());
    let num = form_string("3.5").unwrap();
    assert_eq!(num.to_string(), "3.5".to_string());
    let num = form_string("-2.3").unwrap();
    assert_eq!(num.to_string(), "-2.3".to_string());
}

#[test]
fn integer_parse_comes_before_float() {
    let num = form_string("3").unwrap();
    assert!(matches!(num.value, Number::Integer(3)));
    let num = form_string("-2").unwrap();
    assert!(matches!(num.value, Number::Integer(-2)));
    let num = form_string("3.0").unwrap();
    assert!(matches!(num.value, Number::Float(_)));
    let num = form_string("3.5").unwrap();
    match num.value {
        Number::Float(t) => assert_eq!(t, "3.5"),
        Number::Integer(_) => panic!("expected a float"),
    }
}

#[test]
fn unparsable_text_gives_parse_error() {
    let res = form_string("abc");
    assert!(res.is_err());
    assert_eq!(res.unwrap_err().message(), "Unable to parse input");
    assert!(form_string("").is_err());
    assert!(form_string("1.2.3").is_err());
}

#[test]
fn integer_literal_grammar() {
    assert_eq!(parse_i64("3"), Some(3));
    assert_eq!(parse_i64("-2"), Some(-2));
    assert_eq!(parse_i64("+5"), Some(5));
    assert_eq!(parse_i64("007"), Some(7));
    assert_eq!(parse_i64("0"), Some(0));
    assert_eq!(parse_i64(""), None);
    assert_eq!(parse_i64("-"), None);
    assert_eq!(parse_i64("+"), None);
    assert_eq!(parse_i64(" 3"), None);
    assert_eq!(parse_i64("3 "), None);
    assert_eq!(parse_i64("3.5"), None);
    assert_eq!(parse_i64("--2"), None);
    assert_eq!(parse_i64("12a"), None);
}

#[test]
fn integer_literal_range_limits() {
    assert_eq!(parse_i64("9223372036854775807"), Some(i64::MAX));
    assert_eq!(parse_i64("-9223372036854775808"), Some(i64::MIN));
    assert_eq!(parse_i64("9223372036854775808"), None);
    assert_eq!(parse_i64("-9223372036854775809"), None);
    assert_eq!(parse_i64("99999999999999999999999999"), None);
}

#[test]
fn integer_rendering_round_trip() {
    assert_eq!(i64_to_string(0), "0");
    assert_eq!(i64_to_string(7), "7");
    assert_eq!(i64_to_string(-32), "-32");
    assert_eq!(i64_to_string(1048576), "1048576");
    assert_eq!(i64_to_string(i64::MAX), "9223372036854775807");
    assert_eq!(i64_to_string(i64::MIN), "-9223372036854775808");
    assert_eq!(parse_i64(&i64_to_string(-12345)), Some(-12345));
}

#[test]
fn float_fallback_keeps_platform_rendering() {
    let num = form_string("2.3").unwrap();
    assert_eq!(num.to_string(), "2.3");
    let num = form_string("-0.5").unwrap();
    assert_eq!(num.to_string(), "-0.5");
    let num = form_string("1e2").unwrap();
    assert_eq!(num.to_string(), "100");
}
