use alloy::ast::value::Value;
use alloy::parser::expression::{parse_expression, Expr};
use alloy::parser::identifier::parse_identifier;
use alloy::parser::keyword::{parse_keyword, Keyword};
use alloy::parser::literal::{
    parse_binary, parse_bool, parse_decimal, parse_digits, parse_escaped, parse_float,
    parse_hexadecimal, parse_integer, parse_octal, parse_radix_integer, parse_sign,
    parse_whitespace, Sign,
};
use alloy::parser::operator::{parse_operator, parse_unary_operator, Operator};
use alloy::parser::{Input, ParserErrorKind};

fn assert_expr(lhs: &str, rhs: &str) {
    let (input, expr) = parse_expression(Input::new(lhs)).unwrap();
    assert_eq!(input.input, "");
    assert_eq!(expr.ast.to_string(), rhs.to_string());
}

#[test]
fn test_identifier_expression() {
    let (input, identifier) = parse_expression(Input::new("a")).unwrap();
    assert_eq!(input.input, "");
    assert_eq!(identifier.ast, Expr::Identifier("a".into()));
}

#[test]
fn test_value_expression() {
    let (input, identifier) = parse_expression(Input::new("1234")).unwrap();
    assert_eq!(input.input, "");
    assert_eq!(identifier.ast, Expr::Value(Value::Integer(1234)));
}

#[test]
fn test_binary_expression() {
    // test binary expression with different operators
    assert_expr("1 + 2", "(1 + 2)");
    assert_expr("1 - 2", "(1 - 2)");
    assert_expr("1 * 2", "(1 * 2)");
    assert_expr("1 / 2", "(1 / 2)");
    assert_expr("1 % 2", "(1 % 2)");

    assert_expr("1 + 2 * 3", "(1 + (2 * 3))");
    assert_expr("1 * 2 + 3", "((1 * 2) + 3)");
    assert_expr("1 + 2 * 3 + 4", "((1 + (2 * 3)) + 4)");
    assert_expr("1 + 2 * 3 + 4 * 5", "((1 + (2 * 3)) + (4 * 5))");
    assert_expr("1 + 2 * 3 + 4 * 5 + 6", "(((1 + (2 * 3)) + (4 * 5)) + 6)");

    assert_expr("1 + 5 * 6 < 2 + 3", "((1 + (5 * 6)) < (2 + 3))");
    assert_expr(
        "1 + 5 * 6 < 2 + 3 and true",
        "(((1 + (5 * 6)) < (2 + 3)) and true)",
    );
    assert_expr(
        "1 + 5 * 6 < 2 + 3 and true",
        "(((1 + (5 * 6)) < (2 + 3)) and true)",
    );
}

#[test]
fn expression_test_unary_expressions() {
    assert_expr("not true", "(not true)");
    assert_expr("+4", "(+ 4)");
    assert_expr("-4", "(- 4)");
    assert_expr("--4", "(- (- 4))");
    assert_expr("true and not false", "(true and (not false))");
    assert_expr("not false and true", "((not false) and true)");
}

#[test]
fn test_associativity_of_exponent() {
    assert_expr("1 ** 2 ** 3", "(1 ** (2 ** 3))");
}

#[test]
fn test_boolean() {
    let (rest, spanned) = parse_bool(Input::new("true")).unwrap();
    assert_eq!(rest.input, "");
    assert_eq!(spanned.ast, Value::True);
    assert_eq!(spanned.start, 0);
    assert_eq!(spanned.end, 4);
    let (rest, spanned) = parse_bool(Input::new("false")).unwrap();
    assert_eq!(rest.input, "");
    assert_eq!(spanned.ast, Value::False);
    assert_eq!(spanned.start, 0);
    assert_eq!(spanned.end, 5);
}

#[test]
fn test_sign() {
    let (rest, spanned) = parse_sign(Input::new("+")).unwrap();
    assert_eq!(rest.input, "");
    assert_eq!(spanned.ast, Sign::Positive);
    assert_eq!(spanned.start, 0);
    assert_eq!(spanned.end, 1);
    let (rest, spanned) = parse_sign(Input::new("-")).unwrap();
    assert_eq!(rest.input, "");
    assert_eq!(spanned.ast, Sign::Negative);
    assert_eq!(spanned.start, 0);
    assert_eq!(spanned.end, 1);
}

#[test]
fn test_escape_sequences() {
    let (input, newline) = parse_escaped(Input::new(r#"\n\r\t\\\"\'"#)).unwrap();
    assert_eq!(newline, '\n');
    let (input, carriage_return) = parse_escaped(input).unwrap();
    assert_eq!(carriage_return, '\r');
    let (input, tab) = parse_escaped(input).unwrap();
    assert_eq!(tab, '\t');
    let (input, backslash) = parse_escaped(input).unwrap();
    assert_eq!(backslash, '\\');
    let (input, double_quote) = parse_escaped(input).unwrap();
    assert_eq!(double_quote, '"');
    let (input, quote) = parse_escaped(input).unwrap();
    assert_eq!(quote, '\'');
    assert_eq!(input.input, "");
    assert_eq!(input.position, 12);
}

fn operators() -> Vec<(&'static str, Operator)> {
    vec![
        ("+", Operator::Plus),
        ("-", Operator::Minus),
        ("*", Operator::Multiply),
        ("/", Operator::Divide),
        ("%", Operator::Modulo),
        ("**", Operator::Power),
        ("<", Operator::LessThan),
        ("<=", Operator::LessThanEqual),
        (">", Operator::GreaterThan),
        (">=", Operator::GreaterThanEqual),
        ("==", Operator::Equal),
        ("!=", Operator::NotEqual),
        ("and", Operator::And),
        ("or", Operator::Or),
        ("xor", Operator::Xor),
        ("not", Operator::Not),
    ]
}

#[test]
fn test_operator_parsing() {
    for (s, op) in operators() {
        let input = Input::new(s);
        let (input, parsed) = parse_operator(input).unwrap();
        assert_eq!(input.input, "");
        assert_eq!(parsed.ast, op);
    }
}

#[test]
fn operators_are_found_by_their_symbols() {
    for (s, op) in operators() {
        assert_eq!(Operator::from_symbol(s), Some(op));
        assert_eq!(op.to_string(), s);
    }
    assert_eq!(Operator::from_symbol("&&"), None);
    assert_eq!(Keyword::from_word("while"), Some(Keyword::While));
    assert_eq!(Keyword::from_word("whale"), None);
}

#[test]
fn binding_powers() {
    assert_eq!(Operator::Xor.infix_binding_power(), (1, 2));
    assert_eq!(Operator::Or.infix_binding_power(), (3, 4));
    assert_eq!(Operator::And.infix_binding_power(), (5, 6));
    assert_eq!(Operator::Equal.infix_binding_power(), (7, 8));
    assert_eq!(Operator::NotEqual.infix_binding_power(), (7, 8));
    assert_eq!(Operator::LessThan.infix_binding_power(), (9, 10));
    assert_eq!(Operator::LessThanEqual.infix_binding_power(), (9, 10));
    assert_eq!(Operator::GreaterThan.infix_binding_power(), (9, 10));
    assert_eq!(Operator::GreaterThanEqual.infix_binding_power(), (9, 10));
    assert_eq!(Operator::Plus.infix_binding_power(), (11, 12));
    assert_eq!(Operator::Minus.infix_binding_power(), (11, 12));
    assert_eq!(Operator::Multiply.infix_binding_power(), (13, 14));
    assert_eq!(Operator::Divide.infix_binding_power(), (13, 14));
    assert_eq!(Operator::Modulo.infix_binding_power(), (13, 14));
    assert_eq!(Operator::Power.infix_binding_power(), (18, 17));
    assert_eq!(Operator::Plus.prefix_binding_power(), ((), 15));
    assert_eq!(Operator::Minus.prefix_binding_power(), ((), 15));
    assert_eq!(Operator::Not.prefix_binding_power(), ((), 15));
}

#[test]
fn power_groups_from_the_right_and_above_a_sign() {
    assert_expr("2 ** 3 ** 2 ** 1", "(2 ** (3 ** (2 ** 1)))");
    assert_expr("2 * 3 ** 2", "(2 * (3 ** 2))");
    assert_expr("2 ** 3 * 2", "((2 ** 3) * 2)");
    assert_expr("-2 ** 2", "(- (2 ** 2))");
    assert_expr("-2 * 2", "((- 2) * 2)");
}

#[test]
fn the_logical_operators_have_three_levels() {
    assert_expr("a or b and c", "(a or (b and c))");
    assert_expr("a and b or c", "((a and b) or c)");
    assert_expr("a xor b or c", "(a xor (b or c))");
    assert_expr("a or b xor c", "((a or b) xor c)");
    assert_expr("a xor b and c xor d", "((a xor (b and c)) xor d)");
    assert_expr("a and b == c", "(a and (b == c))");
}

#[test]
fn not_binds_stronger_than_a_comparison() {
    assert_expr("not a == b", "((not a) == b)");
    assert_expr("not a < b + 1", "((not a) < (b + 1))");
    assert_expr("not a * b", "((not a) * b)");
    assert_expr("not a ** b", "(not (a ** b))");
}

#[test]
fn unary_operators_are_three() {
    let (rest, operator) = parse_unary_operator(Input::new("not x")).unwrap();
    assert_eq!(operator.ast, Operator::Not);
    assert_eq!((operator.start, operator.end), (0, 3));
    assert_eq!(rest.input, " x");
    assert_eq!(rest.position, 3);
    assert!(parse_unary_operator(Input::new("* x")).is_err());
}

#[test]
fn places_count_characters_from_the_beginning_of_the_text() {
    let (rest, expr) = parse_expression(Input::new("ab + 12 *c  ")).unwrap();
    assert_eq!(rest.input, "");
    assert_eq!(rest.position, 12);
    assert_eq!((expr.start, expr.end), (0, 10));
    match expr.ast {
        Expr::Binary { op, lhs, rhs } => {
            assert_eq!((op.ast, op.start, op.end), (Operator::Plus, 3, 4));
            assert_eq!((lhs.start, lhs.end), (0, 2));
            assert_eq!((rhs.start, rhs.end), (5, 10));
            match rhs.ast {
                Expr::Binary { op, lhs, rhs } => {
                    assert_eq!((op.ast, op.start, op.end), (Operator::Multiply, 8, 9));
                    assert_eq!((lhs.start, lhs.end), (5, 7));
                    assert_eq!((rhs.start, rhs.end), (9, 10));
                }
                other => panic!("{:?}", other),
            }
        }
        other => panic!("{:?}", other),
    }
}

#[test]
fn an_operator_without_its_right_operand_is_a_failure() {
    let error = parse_expression(Input::new("1 + ")).unwrap_err();
    assert_eq!(error.kind, ParserErrorKind::WIP);
    assert_eq!((error.start, error.end), (4, 4));
    assert!(parse_expression(Input::new("")).is_err());
    // what follows a whole expression is left
    let (rest, expr) = parse_expression(Input::new("1 2")).unwrap();
    assert_eq!(expr.ast.to_string(), "1");
    assert_eq!(rest.input, "2");
    let (rest, expr) = parse_expression(Input::new("1 not 2")).unwrap();
    assert_eq!(expr.ast.to_string(), "1");
    assert_eq!(rest.input, "not 2");
}

#[test]
fn keywords_are_read_wherever_their_letters_stand() {
    let (rest, keyword) = parse_keyword(Input::new("iffy")).unwrap();
    assert_eq!(keyword, Keyword::If);
    assert_eq!(rest.input, "fy");
    let (rest, keyword) = parse_keyword(Input::new("continue;")).unwrap();
    assert_eq!(keyword, Keyword::Continue);
    assert_eq!(rest.input, ";");
    let (_, keyword) = parse_keyword(Input::new("const")).unwrap();
    assert_eq!(keyword, Keyword::Const);
    let error = parse_keyword(Input::new("x if")).unwrap_err();
    assert_eq!((error.start, error.end), (0, 4));
}

#[test]
fn names() {
    let (input, identifier) = parse_identifier(Input::new("CamelCase")).unwrap();
    assert_eq!(input.input, "");
    assert_eq!(identifier.ast, "CamelCase".to_string());
    let (input, identifier) = parse_identifier(Input::new("snake_case")).unwrap();
    assert_eq!(input.input, "");
    assert_eq!(identifier.ast, "snake_case".to_string());
    let (input, identifier) = parse_identifier(Input::new("_ignored")).unwrap();
    assert_eq!(input.input, "");
    assert_eq!(identifier.ast, "_ignored".to_string());
    let (input, identifier) = parse_identifier(Input::new("a1+b")).unwrap();
    assert_eq!(input.input, "+b");
    assert_eq!(identifier.ast, "a1".to_string());
    assert_eq!((identifier.start, identifier.end), (0, 2));
    assert!(parse_identifier(Input::new("1i")).is_err());
    assert!(parse_identifier(Input::new("if")).is_err());
    assert!(parse_identifier(Input::new("var")).is_err());
    assert!(parse_identifier(Input::new("const")).is_err());
    assert!(parse_identifier(Input::new("format")).is_err());
}

#[test]
fn whitespace() {
    let (input, whitespace) = parse_whitespace(Input::new(" \t\r\n123")).unwrap();
    assert_eq!(input.input, "123");
    assert_eq!(whitespace.input, " \t\r\n");
    assert_eq!(input.position, 4);
    // white space of Unicode counts too
    let (input, whitespace) = parse_whitespace(Input::new("\u{2003}\u{a0}x")).unwrap();
    assert_eq!(input.input, "x");
    assert_eq!(whitespace.input, "\u{2003}\u{a0}");
    assert_eq!(input.position, 2);
    let (input, whitespace) = parse_whitespace(Input::new("x ")).unwrap();
    assert_eq!(input.input, "x ");
    assert_eq!(whitespace.input, "");
}

#[test]
fn digits() {
    let (input, digits) = parse_digits(Input::new("123"), 10).unwrap();
    assert_eq!(input.input, "");
    assert_eq!(digits, 123);
    let (input, digits) = parse_digits(Input::new("1_000_000"), 10).unwrap();
    assert_eq!(input.input, "");
    assert_eq!(digits, 1_000_000);
    let (input, digits) = parse_digits(Input::new("FF12a"), 16).unwrap();
    assert_eq!(input.input, "");
    assert_eq!(digits, 1044778);
    let (input, digits) = parse_digits(Input::new("zz!"), 36).unwrap();
    assert_eq!(input.input, "!");
    assert_eq!(digits, 35 * 36 + 35);
    let (input, digits) = parse_digits(Input::new("1012"), 2).unwrap();
    assert_eq!(input.input, "2");
    assert_eq!(digits, 5);
    assert!(parse_digits(Input::new("_1"), 10).is_err());
    assert!(parse_digits(Input::new("x"), 10).is_err());
    let error = parse_digits(Input::new("9223372036854775808"), 10).unwrap_err();
    assert_eq!(error.kind, ParserErrorKind::ParseIntError);
    let (_, digits) = parse_digits(Input::new("9223372036854775807"), 10).unwrap();
    assert_eq!(digits, i64::MAX);
}

#[test]
fn integers() {
    let (input, value) = parse_decimal(Input::new("123")).unwrap();
    assert_eq!(input.input, "");
    assert_eq!(value.ast, Value::Integer(123));
    let (input, value) = parse_decimal(Input::new("- 123")).unwrap();
    assert_eq!(input.input, "");
    assert_eq!(value.ast, Value::Integer(-123));
    assert_eq!((value.start, value.end), (0, 5));
    let (input, value) = parse_hexadecimal(Input::new("0xFF")).unwrap();
    assert_eq!(input.input, "");
    assert_eq!(value.ast, Value::Integer(255));
    let (_, value) = parse_hexadecimal(Input::new("0xab")).unwrap();
    assert_eq!(value.ast, Value::Integer(171));
    let (_, value) = parse_octal(Input::new("0o77")).unwrap();
    assert_eq!(value.ast, Value::Integer(63));
    let (_, value) = parse_octal(Input::new("0o11")).unwrap();
    assert_eq!(value.ast, Value::Integer(9));
    let (_, value) = parse_binary(Input::new("0b101")).unwrap();
    assert_eq!(value.ast, Value::Integer(5));
    let (_, value) = parse_binary(Input::new("-0b1001")).unwrap();
    assert_eq!(value.ast, Value::Integer(-9));
    let (input, value) = parse_radix_integer(Input::new("0xFF"), 16, Some("0x")).unwrap();
    assert_eq!(input.input, "");
    assert_eq!(value.ast, Value::Integer(255));
    let (_, value) = parse_radix_integer(Input::new("0b101"), 2, Some("0b")).unwrap();
    assert_eq!(value.ast, Value::Integer(5));
    let error = parse_hexadecimal(Input::new("+ FF")).unwrap_err();
    assert_eq!((error.kind, error.start, error.end), (ParserErrorKind::WIP, 2, 4));
    assert!(parse_integer(Input::new("124")).is_ok());
    assert!(parse_integer(Input::new("0b111")).is_ok());
    assert!(parse_integer(Input::new("0o111")).is_ok());
    assert!(parse_integer(Input::new("0xb1AF")).is_ok());
    // the decimal reading comes first and takes the zero of a prefix
    let (input, value) = parse_integer(Input::new("0xb1AF")).unwrap();
    assert_eq!(value.ast, Value::Integer(0));
    assert_eq!(input.input, "xb1AF");
}

fn float_of(text: &str) -> (f64, String) {
    let (input, value) = parse_float(Input::new(text)).unwrap();
    match value.ast {
        Value::Float(numeral) => (numeral.parse::<f64>().unwrap(), input.input.to_string()),
        other => panic!("{:?}", other),
    }
}

#[test]
fn floats() {
    assert_eq!(float_of("1.23"), (1.23, String::new()));
    assert_eq!(float_of("145.15"), (145.15, String::new()));
    assert_eq!(float_of("- 145.15"), (-145.15, String::new()));
    assert_eq!(float_of(".15"), (0.15, String::new()));
    assert_eq!(float_of("5."), (5.0, String::new()));
    assert_eq!(float_of("5_000.600_600"), (5000.6006, String::new()));
    assert_eq!(float_of("+1.5x"), (1.5, "x".to_string()));
    assert!(parse_float(Input::new(".")).is_err());
    assert!(parse_float(Input::new("15")).is_err());
    let (_, value) = parse_float(Input::new("-0.50")).unwrap();
    assert_eq!(value.ast, Value::Float("-0.50".to_string()));
    assert_eq!((value.start, value.end), (0, 5));
}

#[test]
fn input_lengths() {
    let input = Input::new("héllo");
    assert_eq!(input.len(), 6);
    assert_eq!(input.input_len(), 5);
    assert!(!input.is_empty());
    assert!(Input::new("").is_empty());
    let (rest, taken) = input.take_split(2);
    assert_eq!(taken.input, "hé");
    assert_eq!(taken.position, 0);
    assert_eq!(rest.input, "llo");
    assert_eq!(rest.position, 2);
    assert_eq!(input.take(1).input, "h");
    assert_eq!(input.slice(5).input, "");
    assert!(input.compare("hé"));
    assert!(!input.compare("he"));
    let from_text: Input = "abc".into();
    assert_eq!(from_text, Input::new("abc"));
    let text: &str = from_text.into();
    assert_eq!(text, "abc");
    let spanned = rest.into_spanned();
    assert_eq!((spanned.ast, spanned.start, spanned.end), ("llo", 2, 5));
    assert_eq!(rest.as_str(), "llo");
}

#[test]
fn a_prefix_expression_ends_where_reading_went_on() {
    let (rest, expr) = parse_expression(Input::new("- a  + b")).unwrap();
    assert_eq!(rest.input, "");
    match expr.ast {
        Expr::Binary { op, lhs, rhs } => {
            assert_eq!((op.start, op.end), (5, 6));
            assert_eq!((lhs.start, lhs.end), (0, 5));
            assert_eq!((rhs.start, rhs.end), (7, 8));
            match lhs.ast {
                Expr::Unary { op, operand } => {
                    assert_eq!((op.ast, op.start, op.end), (Operator::Minus, 0, 1));
                    assert_eq!((operand.start, operand.end), (2, 3));
                }
                other => panic!("{:?}", other),
            }
        }
        other => panic!("{:?}", other),
    }
}
