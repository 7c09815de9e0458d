use alloy::ast::expression::binary::{BinaryExpression, BinaryOperator};
use alloy::ast::expression::identifier::IdentifierExpression;
use alloy::ast::expression::Expression;
use alloy::ast::statement::declare_assign_statement::{AssignmentStatement, DeclarationStatement};
use alloy::ast::statement::for_statement::ForStatement;
use alloy::ast::statement::if_statement::{
    ConditionalStatement, ElseIfStatement, ElseStatement, IfStatement,
};
use alloy::ast::statement::while_statement::WhileStatement;
use alloy::ast::statement::{
    BlockStatement, BreakStatement, ContinueStatement, ExpressionStatement, PrintStatement,
    Statement,
};
use alloy::ast::value::Value;
use alloy::ast::{Identifier, IdentifierKind};
use alloy::parser::{
    parse, parse_node, parse_pairs, parse_rule, parse_statement, ParseResult, ParserErrorKind,
    Rule,
};

fn parse_print(input: &str) -> ParseResult<()> {
    parse_statement::<PrintStatement>(input)?;
    Ok(())
}

fn parse_block(input: &str) -> ParseResult<()> {
    parse_statement::<BlockStatement>(input)?;
    Ok(())
}

fn parse_declaration(input: &str) -> ParseResult<()> {
    parse_statement::<DeclarationStatement>(input)?;
    Ok(())
}

fn parse_assignment(input: &str) -> ParseResult<()> {
    parse_statement::<AssignmentStatement>(input)?;
    Ok(())
}

fn parse_for(input: &str) -> ParseResult<()> {
    parse_statement::<ForStatement>(input)?;
    Ok(())
}

fn parse_if(input: &str) -> ParseResult<()> {
    parse_statement::<IfStatement>(input)?;
    Ok(())
}

fn parse_while(input: &str) -> ParseResult<()> {
    parse_statement::<WhileStatement>(input)?;
    Ok(())
}

#[test]
fn mod_test_print_statement() {
    parse_print("print 1;").unwrap();
    parse_print("print 1 * 2;").unwrap();
    parse_print("print 3 < 5;").unwrap();
    parse_print("print 24 - 12;").unwrap();
    parse_print("print 124;").unwrap();
}

#[test]
fn mod_test_wrong_print_statements() {
    parse_print("print 2").unwrap_err();
    parse_print("print;").unwrap_err();
}

#[test]
fn mod_test_block_statement() {
    parse_block("{}").unwrap();
    parse_block("{ print 24; }").unwrap();
    parse_block("{ print 24; print 24; }").unwrap();
    parse_block("{ print 24; print 24; print 24; }").unwrap();
}

#[test]
fn mod_test_wrong_block_statements() {
    parse_block("{ print 24; ").unwrap_err();
    parse_block("print 24; }").unwrap_err();
}

#[test]
fn declare_assign_statement_test_declaration_statement() {
    parse_declaration("var myVar;").unwrap();
    parse_declaration("var myVar = 2;").unwrap();
    parse_declaration("const myConst = 2;").unwrap();
}

#[test]
fn declare_assign_statement_test_assignment_statement() {
    parse_assignment("myVar = 120;").unwrap();
    parse_assignment("myVar = true;").unwrap();
    parse_assignment("myVar = 12 * 12 - 12;").unwrap();
}

#[test]
fn declare_assign_statement_test_wrong_declaration_statements() {
    parse_declaration("const myConst;").unwrap_err();
    parse_declaration("var myVar").unwrap_err();
    parse_declaration("var myVar = 2").unwrap_err();
    parse_declaration("const myVar = 2").unwrap_err();
    parse_declaration("const const = 2;").unwrap_err();
    parse_declaration("const var = 2;").unwrap_err();
    parse_declaration("const if = 2;").unwrap_err();
}

#[test]
fn for_statement_test_for_statement() {
    parse_for("for i in 2 {}").unwrap();
    parse_for("for i in 2 { break; }").unwrap();
    parse_for("for i in 2 { continue; }").unwrap();
    parse_for("for i in 2 { print 4; }").unwrap();
    parse_for("for i in 2 { print 4; print 2; }").unwrap();
}

#[test]
fn for_statement_test_wrong_for_statements() {
    parse_for("for i in {}").unwrap_err();
    parse_for("for i 2 {}").unwrap_err();
    parse_for("for in 2 {}").unwrap_err();
    parse_for("for i in 2").unwrap_err();
    parse_for("for i in 2 }").unwrap_err();
    parse_for("for i in 2 {").unwrap_err();
}

#[test]
fn if_statement_test_if_statement() {
    parse_if("if true {}").unwrap();
    parse_if("if false { print 2; }").unwrap();
    parse_if("if false {} else if true {}").unwrap();
    parse_if("if false {} else if true {} else if true {}").unwrap();
    parse_if("if false {} else if true {} else if true {} else if true {} ").unwrap();
    parse_if("if false {} else if true {} else {}").unwrap();
    parse_if("if false {} else {}").unwrap();
}

#[test]
fn if_statement_test_wrong_if_statements() {
    parse_if("if {}").unwrap_err();
    parse_if("if true print 2; }").unwrap_err();
    parse_if("if true { print 2;").unwrap_err();
}

#[test]
fn while_statement_test_while_statement() {
    parse_while("while true {}").unwrap();
    parse_while("while true { print 4; }").unwrap();
    parse_while("while true { print 4; print 2; }").unwrap();
}

#[test]
fn while_statement_test_wrong_while_statements() {
    parse_while("while {}").unwrap_err();
    parse_while("while true").unwrap_err();
    parse_while("while true }").unwrap_err();
    parse_while("while true {").unwrap_err();
}

fn lit(i: i64) -> Expression {
    Expression::Value(Value::Integer(i))
}

fn name(ident: &str) -> Expression {
    Expression::Identifier(IdentifierExpression {
        ident: ident.to_string(),
    })
}

fn print(expression: Expression) -> Statement {
    Statement::Print(PrintStatement { expression })
}

#[test]
fn every_kind_of_statement_is_built() {
    let program = "print 1; x; const a = 2; var b; b = a; while b { break; continue; } \
                   for i in 3 { print i; } { print 4; } \
                   if a { print 5; } else if b { print 6; } else if 7 { } else { print 8; }";
    let statements = parse(program).unwrap();
    let expected = vec![
        print(lit(1)),
        Statement::Expression(ExpressionStatement {
            expression: name("x"),
        }),
        Statement::Declaration(DeclarationStatement {
            identifier: Identifier {
                ident: "a".to_string(),
                kind: IdentifierKind::Constant,
            },
            initial_value: Some(lit(2)),
        }),
        Statement::Declaration(DeclarationStatement {
            identifier: Identifier {
                ident: "b".to_string(),
                kind: IdentifierKind::Variable,
            },
            initial_value: None,
        }),
        Statement::Assignment(AssignmentStatement {
            identifier: "b".to_string(),
            value: name("a"),
        }),
        Statement::While(WhileStatement {
            condition: name("b"),
            body: vec![
                Statement::Break(BreakStatement),
                Statement::Continue(ContinueStatement),
            ],
        }),
        Statement::For(ForStatement {
            identifier: "i".to_string(),
            iterator: lit(3),
            body: vec![print(name("i"))],
        }),
        Statement::Block(BlockStatement {
            body: vec![print(lit(4))],
        }),
        Statement::If(IfStatement {
            if_statement: ConditionalStatement {
                condition: name("a"),
                statements: vec![print(lit(5))],
            },
            else_if_statements: vec![
                ElseIfStatement(ConditionalStatement {
                    condition: name("b"),
                    statements: vec![print(lit(6))],
                }),
                ElseIfStatement(ConditionalStatement {
                    condition: lit(7),
                    statements: vec![],
                }),
            ],
            else_statement: Some(ElseStatement {
                statements: vec![print(lit(8))],
            }),
        }),
    ];
    assert_eq!(statements, expected);
    assert!(!statements[6].is_lowerable());
    assert!(statements[8].is_lowerable());
}

#[test]
fn an_assignment_is_told_from_a_comparison() {
    assert_eq!(
        parse("a == b;").unwrap(),
        vec![Statement::Expression(ExpressionStatement {
            expression: Expression::Binary(BinaryExpression {
                left: Box::new(name("a")),
                operator: BinaryOperator::Equal,
                right: Box::new(name("b")),
            }),
        })]
    );
    assert_eq!(
        parse("a = b;").unwrap(),
        vec![Statement::Assignment(AssignmentStatement {
            identifier: "a".to_string(),
            value: name("b"),
        })]
    );
}

#[test]
fn the_failure_names_the_place_where_no_statement_begins() {
    let error = parse("print 1; print ; print 3;").unwrap_err();
    assert_eq!(error.kind, ParserErrorKind::WIP);
    assert_eq!((error.start, error.end), (9, 25));
    let error = parse("   }").unwrap_err();
    assert_eq!((error.start, error.end), (3, 4));
    let error = parse("fn f() {}").unwrap_err();
    assert_eq!((error.start, error.end), (0, 9));
    assert_eq!(parse("").unwrap(), vec![]);
    assert_eq!(parse(" \n\t ").unwrap(), vec![]);
}

#[test]
fn an_integer_that_does_not_fit_fails_when_the_tree_is_read() {
    let error = parse("print 99999999999999999999;").unwrap_err();
    assert_eq!(error.kind, ParserErrorKind::ParseIntError);
    assert_eq!((error.start, error.end), (6, 26));
}

#[test]
fn the_nodes_of_a_program_end_with_the_end_of_input() {
    let first = parse_node(Rule::program, "print 1; x = 2;").unwrap();
    assert_eq!(first.rule, Rule::print_statement);
    assert_eq!(first.text, "print 1;");
    assert_eq!(first.children[0].rule, Rule::k_print);
    assert_eq!(first.children[1].rule, Rule::expression);
    let only = parse_node(Rule::program, "").unwrap();
    assert_eq!(only.rule, Rule::EOI);
    assert!(parse_statement::<Statement>("").is_err());
    assert!(parse_rule::<Statement>(Rule::program, "x;").is_ok());
    assert!(parse_statement::<PrintStatement>("x;").is_err());
    let node = parse_node(Rule::while_statement, "while x { }").unwrap();
    assert_eq!(node.rule, Rule::while_statement);
    assert!(parse_node(Rule::while_statement, "print 1;").is_err());
    // statements behind the end-of-input marker are not read
    let mut nodes = vec![
        parse_node(Rule::program, "print 1;").unwrap(),
        parse_node(Rule::program, "").unwrap(),
        parse_node(Rule::program, "print 2;").unwrap(),
    ];
    assert_eq!(parse_pairs(&nodes).unwrap(), vec![print(lit(1))]);
    nodes.remove(1);
    assert_eq!(parse_pairs(&nodes).unwrap(), vec![print(lit(1)), print(lit(2))]);
}

#[test]
fn a_tree_that_the_grammar_does_not_make_is_no_statement() {
    let mut node = parse_node(Rule::program, "print 1;").unwrap();
    node.children.swap(0, 1);
    let error = Statement::parse(&node).unwrap_err();
    assert_eq!((error.kind, error.start, error.end), (ParserErrorKind::WIP, 0, 8));
    let node = parse_node(Rule::expression, "1").unwrap();
    assert!(Statement::parse(&node).is_err());
    assert!(PrintStatement::parse(&parse_node(Rule::program, "x;").unwrap()).is_err());
    // an else branch that is not the last
    let mut node = parse_node(Rule::program, "if a {} else if b {} else {}").unwrap();
    node.children.swap(1, 2);
    assert!(IfStatement::parse(&node).is_err());
}

#[test]
fn the_branches_of_an_if_are_counted() {
    let bare = parse_statement::<IfStatement>("if a {}").unwrap();
    assert!(!bare.has_else());
    assert!(!bare.has_else_if());
    let full = parse_statement::<IfStatement>("if a {} else if b {} else {}").unwrap();
    assert!(full.has_else());
    assert!(full.has_else_if());
    assert_eq!(
        parse_statement::<BreakStatement>("break;").unwrap(),
        BreakStatement
    );
    assert_eq!(
        parse_statement::<ContinueStatement>(" continue ;").unwrap(),
        ContinueStatement
    );
    assert!(parse_statement::<ContinueStatement>("break;").is_err());
    assert_eq!(
        parse_statement::<ExpressionStatement>("x;").unwrap(),
        ExpressionStatement { expression: name("x") }
    );
}

#[test]
fn statement_test_print_statement() {
    parse_print("print 1;").unwrap();
    parse_print("print 1 * 2;").unwrap();
    parse_print("print 3 < 5;").unwrap();
    parse_print("print 24 - 12;").unwrap();
    parse_print("print 124;").unwrap();
}

#[test]
fn statement_test_if_statement() {
    parse_if("if true {}").unwrap();
    parse_if("if false { print 2; }").unwrap();
    parse_if("if false {} else if true {}").unwrap();
    parse_if("if false {} else if true {} else if true {}").unwrap();
    parse_if("if false {} else if true {} else if true {} else if true {} ").unwrap();
    parse_if("if false {} else if true {} else {}").unwrap();
    parse_if("if false {} else {}").unwrap();
}

#[test]
fn statement_test_wrong_if_statements() {
    assert!(parse_node(Rule::program, "if {}").is_err());
    assert!(parse_node(Rule::program, "if true print 2; }").is_err());
    assert!(parse_node(Rule::program, "if true { print 2;").is_err());
}
