use alloy::ast::expression::binary::{BinaryExpression, BinaryOperator};
use alloy::ast::expression::identifier::IdentifierExpression;
use alloy::ast::expression::unary::{UnaryExpression, UnaryOperator};
use alloy::ast::expression::Expression;
use alloy::ast::value::Value;
use alloy::parser::{parse_node, parse_rule, ParseResult, ParserErrorKind, Rule};

fn lit(i: i64) -> Expression {
    Expression::Value(Value::Integer(i))
}

fn name(ident: &str) -> Expression {
    Expression::Identifier(IdentifierExpression {
        ident: ident.to_string(),
    })
}

fn binary(left: Expression, operator: BinaryOperator, right: Expression) -> Expression {
    Expression::Binary(BinaryExpression {
        left: Box::new(left),
        operator,
        right: Box::new(right),
    })
}

fn unary(operator: UnaryOperator, expression: Expression) -> Expression {
    Expression::Unary(UnaryExpression {
        operator,
        expression: Box::new(expression),
    })
}

fn parse_expression(input: &str) -> Expression {
    parse_rule::<Expression>(Rule::expression, input).unwrap()
}

fn parse_binary(input: &str) -> ParseResult<BinaryExpression> {
    parse_rule::<BinaryExpression>(Rule::expression, input)
}

fn parse_identifer(input: &str) -> ParseResult<IdentifierExpression> {
    parse_rule::<IdentifierExpression>(Rule::identifier, input)
}

use BinaryOperator::{Add, Divide, Multiply, Subtract};

#[test]
fn test_binary_expressions() {
    assert_eq!(binary(lit(3), Add, lit(5)), parse_expression("3 + 5"));
    assert_eq!(binary(lit(1), Subtract, lit(1)), parse_expression("1 - 1"));
    assert_eq!(binary(lit(1), Add, lit(1)), parse_expression("1 + 1"));
    assert_eq!(
        binary(lit(1), Add, binary(lit(2), Multiply, lit(3))),
        parse_expression("1 + 2 * 3")
    );
    assert_eq!(
        binary(binary(lit(1), Add, lit(2)), Add, lit(3)),
        parse_expression("1 + 2 + 3")
    );
    assert_eq!(
        binary(lit(3), Add, binary(lit(5), Multiply, lit(4))),
        parse_expression("3 + 5 * 4")
    );
    assert_eq!(
        binary(
            binary(lit(3), Add, binary(lit(5), Multiply, lit(4))),
            Subtract,
            lit(1)
        ),
        parse_expression("3 + 5 * 4 - 1")
    );
    assert_eq!(
        binary(
            binary(
                binary(lit(3), Add, binary(lit(5), Multiply, lit(4))),
                Subtract,
                lit(1)
            ),
            Subtract,
            lit(5)
        ),
        parse_expression("3 + 5 * 4 - 1 - 5")
    );
    assert_eq!(
        binary(
            binary(
                binary(lit(3), Add, binary(lit(5), Multiply, lit(4))),
                Subtract,
                lit(1)
            ),
            Subtract,
            binary(lit(5), Divide, lit(9))
        ),
        parse_expression("3 + 5 * 4 - 1 - 5 / 9")
    );
}

#[test]
fn test_unary_expressions() {
    assert_eq!(unary(UnaryOperator::Minus, lit(1)), parse_expression("- (1)"));
    assert_eq!(unary(UnaryOperator::Not, lit(1)), parse_expression("! 1"));
    assert_eq!(
        unary(UnaryOperator::Not, Expression::Value(Value::True)),
        parse_expression("! true")
    );
}

#[test]
fn test_parenthesized_expressions() {
    assert_eq!(
        binary(binary(lit(1), Add, lit(2)), Multiply, lit(3)),
        parse_expression("(1 + 2) * 3")
    );
    assert_eq!(
        binary(binary(lit(1), Add, lit(2)), Divide, lit(3)),
        parse_expression("(1 + 2) / 3")
    );
    assert_eq!(
        binary(binary(lit(1), Add, lit(2)), Multiply, lit(3)),
        parse_expression("(1 + 2) * 3")
    );
    assert_eq!(
        binary(
            binary(lit(1), Add, lit(2)),
            Multiply,
            binary(lit(12), Add, lit(12))
        ),
        parse_expression("(1 + 2) * (12 + 12)")
    );
    assert_eq!(
        binary(
            binary(
                binary(
                    binary(lit(1), Add, lit(2)),
                    Multiply,
                    binary(lit(12), Add, lit(12))
                ),
                Divide,
                binary(lit(12), Subtract, lit(12))
            ),
            Multiply,
            lit(12)
        ),
        parse_expression("((1 + 2) * (12 + 12)) / (12 - 12) * 12")
    );
}

#[test]
fn binary_build_expression_test() {
    parse_binary("1 + 1").unwrap();
    parse_binary("1 + 2 * 3").unwrap();
    parse_binary("(1 + 2) * 3").unwrap();
    parse_binary("1 - 1").unwrap();
    parse_binary("1 + 2 + 3").unwrap();
    parse_binary("(1 + 2) / 3").unwrap();
}

#[test]
fn test_valid_identifiers() {
    parse_identifer("abc").unwrap();
    parse_identifer("abc12").unwrap();
    parse_identifer("a12bc").unwrap();
    parse_identifer("Abc").unwrap();
    parse_identifer("ABC12").unwrap();
    parse_identifer("a12BC").unwrap();
    parse_identifer("abc_12").unwrap();
    parse_identifer("a_12bc").unwrap();
}

#[test]
fn test_invalid_identifiers() {
    parse_identifer("_abc").unwrap_err();
    parse_identifer("__abc").unwrap_err();
    parse_identifer("12abc").unwrap_err();
    parse_identifer("_12abc").unwrap_err();
    parse_identifer("1_abc").unwrap_err();
    parse_identifer("1_2abc").unwrap_err();
}

#[test]
fn test_keywords_as_identifiers() {
    parse_identifer("if").unwrap_err();
    parse_identifer("else").unwrap_err();
    parse_identifer("print").unwrap_err();
    parse_identifer("while").unwrap_err();
    parse_identifer("for").unwrap_err();
    parse_identifer("return").unwrap_err();
    parse_identifer("var").unwrap_err();
    parse_identifer("const").unwrap_err();
    parse_identifer("and").unwrap_err();
    parse_identifer("or").unwrap_err();
    parse_identifer("not").unwrap_err();
    parse_identifer("xor").unwrap_err();
    parse_identifer("continue").unwrap_err();
    parse_identifer("break").unwrap_err();
    parse_identifer("in").unwrap_err();
}

#[test]
fn test_wrong_identifiers() {
    assert!(parse_node(Rule::identifier, "if").is_err());
    assert!(parse_node(Rule::identifier, "else").is_err());
    assert!(parse_node(Rule::identifier, "print").is_err());
    assert!(parse_node(Rule::identifier, "while").is_err());
    assert!(parse_node(Rule::identifier, "for").is_err());
    assert!(parse_node(Rule::identifier, "return").is_err());
    assert!(parse_node(Rule::identifier, "var").is_err());
    assert!(parse_node(Rule::identifier, "const").is_err());
    assert!(parse_node(Rule::identifier, "and").is_err());
    assert!(parse_node(Rule::identifier, "or").is_err());
    assert!(parse_node(Rule::identifier, "not").is_err());
    assert!(parse_node(Rule::identifier, "xor").is_err());
    assert!(parse_node(Rule::identifier, "continue").is_err());
    assert!(parse_node(Rule::identifier, "break").is_err());
    assert!(parse_node(Rule::identifier, "in").is_err());
}

#[test]
fn a_word_that_begins_like_a_keyword_is_a_name() {
    assert_eq!(parse_identifer("iffy").unwrap().ident, "iffy");
    assert_eq!(parse_identifer("print2").unwrap().ident, "print2");
    assert_eq!(parse_identifer("in_").unwrap().ident, "in_");
}

use BinaryOperator::{
    Equal, GreaterThan, GreaterThanEqual, LessThan, LessThanEqual, LogicalAnd, LogicalOr,
    LogicalXor, NotEqual, Power, Reminder,
};

#[test]
fn every_infix_operator_is_read() {
    let cases = vec![
        ("a + b", Add),
        ("a - b", Subtract),
        ("a * b", Multiply),
        ("a / b", Divide),
        ("a % b", Reminder),
        ("a ** b", Power),
        ("a < b", LessThan),
        ("a <= b", LessThanEqual),
        ("a > b", GreaterThan),
        ("a >= b", GreaterThanEqual),
        ("a == b", Equal),
        ("a != b", NotEqual),
        ("a and b", LogicalAnd),
        ("a or b", LogicalOr),
        ("a xor b", LogicalXor),
    ];
    for (text, operator) in cases {
        assert_eq!(binary(name("a"), operator, name("b")), parse_expression(text));
    }
}

#[test]
fn operators_of_one_level_group_from_the_left() {
    assert_eq!(
        binary(binary(name("a"), Subtract, name("b")), Add, name("c")),
        parse_expression("a - b + c")
    );
    assert_eq!(
        binary(binary(name("a"), Divide, name("b")), Reminder, name("c")),
        parse_expression("a / b % c")
    );
    assert_eq!(
        binary(binary(name("a"), LessThan, name("b")), GreaterThanEqual, name("c")),
        parse_expression("a < b >= c")
    );
    assert_eq!(
        binary(binary(name("a"), Equal, name("b")), NotEqual, name("c")),
        parse_expression("a == b != c")
    );
}

#[test]
fn power_groups_from_the_right() {
    assert_eq!(
        binary(name("a"), Power, binary(name("b"), Power, name("c"))),
        parse_expression("a ** b ** c")
    );
}

#[test]
fn the_levels_from_the_weakest_to_the_strongest() {
    // xor < or < and < equality < comparison < sum < product < power
    assert_eq!(
        binary(
            name("a"),
            LogicalXor,
            binary(
                name("b"),
                LogicalOr,
                binary(
                    name("c"),
                    LogicalAnd,
                    binary(
                        name("d"),
                        Equal,
                        binary(
                            name("e"),
                            LessThan,
                            binary(
                                name("f"),
                                Add,
                                binary(name("g"), Multiply, binary(name("h"), Power, name("i")))
                            )
                        )
                    )
                )
            )
        ),
        parse_expression("a xor b or c and d == e < f + g * h ** i")
    );
    assert_eq!(
        binary(
            binary(
                binary(
                    binary(
                        binary(
                            binary(
                                binary(binary(name("a"), Power, name("b")), Multiply, name("c")),
                                Add,
                                name("d")
                            ),
                            LessThan,
                            name("e")
                        ),
                        Equal,
                        name("f")
                    ),
                    LogicalAnd,
                    name("g")
                ),
                LogicalOr,
                name("h")
            ),
            LogicalXor,
            name("i")
        ),
        parse_expression("a ** b * c + d < e == f and g or h xor i")
    );
}

#[test]
fn a_prefix_operator_binds_stronger_than_all_but_power() {
    assert_eq!(
        unary(UnaryOperator::Minus, binary(name("a"), Power, name("b"))),
        parse_expression("-a ** b")
    );
    assert_eq!(
        binary(unary(UnaryOperator::Minus, name("a")), Multiply, name("b")),
        parse_expression("-a * b")
    );
    assert_eq!(
        binary(unary(UnaryOperator::Not, name("a")), LogicalAnd, name("b")),
        parse_expression("not a and b")
    );
    assert_eq!(
        binary(name("a"), Subtract, unary(UnaryOperator::Minus, name("b"))),
        parse_expression("a - -b")
    );
    assert_eq!(
        unary(UnaryOperator::Plus, unary(UnaryOperator::Minus, lit(4))),
        parse_expression("+-4")
    );
    assert_eq!(
        binary(
            name("a"),
            Power,
            unary(UnaryOperator::Minus, binary(name("b"), Power, name("c")))
        ),
        parse_expression("a ** -b ** c")
    );
}

#[test]
fn parentheses_leave_no_trace_in_the_tree() {
    assert_eq!(parse_expression("((a))"), name("a"));
    assert_eq!(parse_expression("( 1 )"), lit(1));
    assert_eq!(
        parse_expression("a * (b + c)"),
        binary(name("a"), Multiply, binary(name("b"), Add, name("c")))
    );
}

#[test]
fn a_tree_that_the_grammar_does_not_make_is_refused() {
    let mut node = parse_node(Rule::expression, "1 + 2").unwrap();
    // two operands in a row
    node.children.remove(1);
    let error = Expression::parse(&node).unwrap_err();
    assert_eq!(error.kind, ParserErrorKind::WIP);
    assert_eq!((error.start, error.end), (4, 5));
    // an operator without its right operand
    let mut node = parse_node(Rule::expression, "1 + 2").unwrap();
    node.children.pop();
    let error = Expression::parse(&node).unwrap_err();
    assert_eq!((error.start, error.end), (0, 5));
    // no expression at all
    let node = parse_node(Rule::value, "1").unwrap();
    assert!(Expression::parse(&node).is_err());
    assert!(BinaryExpression::parse(&parse_node(Rule::expression, "1").unwrap()).is_err());
    assert!(UnaryExpression::parse(&parse_node(Rule::expression, "1").unwrap()).is_err());
    assert!(UnaryExpression::parse(&parse_node(Rule::expression, "-a").unwrap()).is_ok());
}

#[test]
fn the_tokens_of_an_expression_are_its_children_in_source_order() {
    let node = parse_node(Rule::expression, "- a*( b+1 )").unwrap();
    let rules: Vec<Rule> = node.children.iter().map(|child| child.rule).collect();
    assert_eq!(
        rules,
        vec![Rule::minus, Rule::identifier, Rule::multiply, Rule::expression]
    );
    assert_eq!(node.text, "- a*( b+1 )");
    assert_eq!((node.start, node.end), (0, 11));
    let inner = &node.children[3];
    assert_eq!(inner.text, "b+1");
    assert_eq!((inner.start, inner.end), (6, 9));
    assert_eq!(inner.children[2].rule, Rule::value);
}

#[test]
fn operators_are_written_as_in_the_source() {
    assert_eq!(Power.to_string(), "**");
    assert_eq!(Reminder.to_string(), "%");
    assert_eq!(LogicalXor.to_string(), "xor");
    assert_eq!(LessThanEqual.to_string(), "<=");
    assert_eq!(UnaryOperator::Not.to_string(), "not");
    assert_eq!(UnaryOperator::Minus.to_string(), "-");
    assert_eq!(UnaryOperator::Plus.to_string(), "+");
}

#[test]
fn a_long_chain_groups_to_one_side() {
    let sub = BinaryOperator::Subtract;
    let add = BinaryOperator::Add;
    assert_eq!(
        parse_expression("a - b + c - d + e"),
        binary(
            binary(
                binary(binary(name("a"), sub, name("b")), add, name("c")),
                BinaryOperator::Subtract,
                name("d")
            ),
            BinaryOperator::Add,
            name("e")
        )
    );
    assert_eq!(
        parse_expression("a ** b ** c ** d"),
        binary(
            name("a"),
            BinaryOperator::Power,
            binary(
                name("b"),
                BinaryOperator::Power,
                binary(name("c"), BinaryOperator::Power, name("d"))
            )
        )
    );
}

#[test]
fn both_readers_group_alike() {
    for text in [
        "a ** b ** c",
        "a or b and c xor d",
        "not a == b",
        "- a ** b * c",
        "a + b * c ** d - e",
        "a < b == c > d",
    ] {
        let tree = written(&parse_expression(text));
        let (rest, read) =
            alloy::parser::expression::parse_expression(alloy::parser::Input::new(text)).unwrap();
        assert_eq!(rest.input, "");
        assert_eq!(read.ast.to_string(), tree, "{text}");
    }
}

fn written(expression: &Expression) -> String {
    match expression {
        Expression::Value(value) => value.to_string(),
        Expression::Identifier(identifier) => identifier.ident.clone(),
        Expression::Unary(unary) => format!(
            "({} {})",
            unary.operator.to_string(),
            written(&unary.expression)
        ),
        Expression::Binary(binary) => format!(
            "({} {} {})",
            written(&binary.left),
            binary.operator.to_string(),
            written(&binary.right)
        ),
    }
}
