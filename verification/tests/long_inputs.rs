use alloy::compiler::{compile, Compiler};
use alloy::parser::expression::parse_expression;
use alloy::parser::{parse, Input};

#[test]
fn a_long_program_is_read_and_compiled() {
    let source = "print 1;\n".repeat(10000);
    let statements = parse(&source).unwrap();
    assert_eq!(statements.len(), 10000);
    let mut compiler = Compiler::new();
    let listing = compile(&mut compiler, &statements).unwrap();
    assert_eq!(listing.lines().count(), 20000);
}

#[test]
fn a_long_expression_is_read() {
    let mut source = String::from("1");
    for _ in 0..2000 {
        source.push_str(" + 1");
    }
    let (rest, _) = parse_expression(Input::new(&source)).unwrap();
    assert_eq!(rest.input, "");
    source.push(';');
    let statements = parse(&source).unwrap();
    assert_eq!(statements.len(), 1);
}
