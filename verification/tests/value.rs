use alloy::ast::value::Value;
use alloy::parser::{parse_rule, ParseResult, ParserErrorKind, Rule};

fn parse_value(input: &str) -> ParseResult<Value> {
    parse_rule::<Value>(Rule::value, input)
}

fn test_integer(input: &str, number: i64) {
    assert_eq!(parse_value(input).unwrap(), number.into());
}

fn test_float(input: &str, number: f64) {
    match parse_value(input).unwrap() {
        Value::Float(numeral) => assert_eq!(numeral.parse::<f64>().unwrap(), number),
        other => panic!("{:?} is no float", other),
    }
}

#[test]
fn value_parse_integer() {
    test_integer("10", 10);
    test_integer("1_000", 1_000);
    test_integer("1_000_000", 1_000_000);
    test_integer("- 100", -100);
    test_integer("- 1_200", -1200);
    test_integer("-100", -100);
    test_integer("-1_200", -1200);
    test_integer("+ 100", 100);
    test_integer("+ 1_200", 1200);
    test_integer("+100", 100);
    test_integer("+1_200", 1200);
}

#[test]
fn value_parse_radix_integers() {
    test_integer("0xF", 15);
    test_integer("0xFF", 255);
    test_integer("0xFF_FF", 65535);
    test_integer("0o10", 8);
    test_integer("0b101", 5);
    test_integer("- 0xF", -15);
    test_integer("-  0xFF", -255);
    test_integer("- 0xFF_FF", -65535);
    test_integer("- 0o10", -8);
    test_integer("-\t0b101", -5);
    test_integer("+0xF", 15);
    test_integer("+0xFF", 255);
    test_integer("+0xFF_FF", 65535);
    test_integer("+0o10", 8);
    test_integer("+0b101", 5);
}

#[test]
fn value_overflow_test() {
    let overflow = "1_000_000_000_000_000_000_000_000_000_000";
    assert!(parse_value(overflow).is_err());
    let underflow = "-1_000_000_000_000_000_000_000_000_000_000";
    assert!(parse_value(underflow).is_err());
}

#[test]
fn value_parse_float() {
    test_float("1.0", 1.);
    test_float("-1.2", -1.2);
    test_float(".2", 0.2);
    test_float("1.", 1.0);
    test_float("-1.", -1.0);
    test_float("-.2", -0.2);
}

#[test]
fn integer_limits() {
    test_integer("9223372036854775807", i64::MAX);
    test_integer("-9223372036854775807", -i64::MAX);
    test_integer("0x7FFF_FFFF_FFFF_FFFF", i64::MAX);
    let error = parse_value("9223372036854775808").unwrap_err();
    assert_eq!(error.kind, ParserErrorKind::ParseIntError);
    assert_eq!((error.start, error.end), (0, 19));
    let error = parse_value("0x8000_0000_0000_0000").unwrap_err();
    assert_eq!(error.kind, ParserErrorKind::ParseIntError);
}

#[test]
fn float_numeral_is_kept_without_blanks_and_underscores() {
    assert_eq!(
        parse_value("- 1_000.250_5").unwrap(),
        Value::Float("-1000.2505".to_string())
    );
    assert_eq!(parse_value("7.").unwrap(), Value::Float("7.".to_string()));
}

#[test]
fn float_with_a_tab_behind_the_sign_is_no_numeral() {
    let error = parse_value("-\t1.5").unwrap_err();
    assert_eq!(error.kind, ParserErrorKind::ParseFloatError);
}

#[test]
fn booleans() {
    assert_eq!(parse_value("true").unwrap(), Value::True);
    assert_eq!(parse_value("false").unwrap(), Value::False);
    assert!(parse_value("truest").is_err());
}

#[test]
fn what_is_no_value_is_refused_with_its_place() {
    let error = parse_value("?").unwrap_err();
    assert_eq!(error.kind, ParserErrorKind::WIP);
    assert_eq!((error.start, error.end), (0, 1));
    assert!(parse_value(".").is_err());
    assert_eq!(parse_value("0x").unwrap(), Value::Integer(0));
    assert!(parse_value("_1").is_err());
}

#[test]
fn values_are_written_as_in_a_listing() {
    assert_eq!(Value::Integer(0).to_string(), "0");
    assert_eq!(Value::Integer(-42).to_string(), "-42");
    assert_eq!(Value::Integer(i64::MIN).to_string(), "-9223372036854775808");
    assert_eq!(Value::Integer(i64::MAX).to_string(), "9223372036854775807");
    assert_eq!(Value::Float("1.5".to_string()).to_string(), "1.5");
    assert_eq!(Value::True.to_string(), "true");
    assert_eq!(Value::False.to_string(), "false");
}

#[test]
fn truth_and_logic() {
    assert!(Value::Integer(-3).as_bool());
    assert!(!Value::Integer(0).as_bool());
    assert!(Value::True.as_bool());
    assert!(!Value::False.as_bool());
    assert!(Value::Float("0.001".to_string()).as_bool());
    assert!(!Value::Float("-0.000".to_string()).as_bool());
    assert!(!Value::Float(".0".to_string()).as_bool());
    assert_eq!(Value::Integer(7).as_integer(), Some(7));
    assert_eq!(Value::True.as_integer(), Some(1));
    assert_eq!(Value::False.as_integer(), Some(0));
    assert_eq!(Value::Float("1.0".to_string()).as_integer(), None);
    assert_eq!(Value::Integer(2).and(Value::True), Value::True);
    assert_eq!(Value::Integer(2).and(Value::Integer(0)), Value::False);
    assert_eq!(Value::False.or(Value::Integer(5)), Value::True);
    assert_eq!(Value::False.or(Value::Integer(0)), Value::False);
    assert_eq!(Value::True.xor(Value::Integer(1)), Value::False);
    assert_eq!(Value::True.xor(Value::False), Value::True);
    assert_eq!(Value::False.xor(Value::Float("0.".to_string())), Value::False);
}
