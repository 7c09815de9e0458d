use alloy::ast::expression::binary::{BinaryExpression, BinaryOperator};
use alloy::ast::expression::Expression;
use alloy::ast::statement::{BreakStatement, ExpressionStatement, PrintStatement, Statement};
use alloy::ast::value::Value;
use alloy::ast::{Identifier, IdentifierKind};
use alloy::compiler::code_block::{CodeBlock, PrettyInstruction};
use alloy::compiler::symbol_table::SymbolTable;
use alloy::compiler::{
    BlockType, Compile, Compiler, CompilerError, CompilerResult, Instruction, Label,
};
use alloy::parser;

fn lit(i: i64) -> Expression {
    Expression::Value(Value::Integer(i))
}

fn binary(left: Expression, operator: BinaryOperator, right: Expression) -> Expression {
    Expression::Binary(BinaryExpression {
        left: Box::new(left),
        operator,
        right: Box::new(right),
    })
}

fn emit<T: Compile>(part: &T, compiler: &mut Compiler) -> CompilerResult<()> {
    Compile::compile(part, compiler)
}

fn compile(input: &str) -> CompilerResult<()> {
    let mut compiler = Compiler::new();
    let statements = parser::parse(input).unwrap();
    for statement in &statements {
        assert!(statement.is_lowerable());
        statement.compile(&mut compiler)?;
    }
    Ok(())
}

fn compiled(input: &str) -> (CodeBlock, Vec<String>) {
    let mut compiler = Compiler::new();
    let statements = parser::parse(input).unwrap();
    for statement in &statements {
        assert!(statement.is_lowerable());
        statement.compile(&mut compiler).unwrap();
    }
    compiler.finish()
}

#[test]
fn compile_statements() {
    compile("5 + 12 * 4;").unwrap();
    compile("const x = 10 * 12; 10 * x;").unwrap();
    compile("const x = 10; var y = x; y = x * y;").unwrap();
    compile("if true { const x = 12; }").unwrap();
    compile("if true { const x = 12; } else { const y = 12; } const z = 12;").unwrap();
    compile("if true { const x = 12; } else { const y = 12; } const z = 12;").unwrap();
    compile("if true { const a = 0; } else if false { const b = 10; } else { const c = 20; } const d = 30;").unwrap();
    compile("if true { const a = 0; } else if false { const b = 10; } else if 0 { const c = 20; } const d = 30;").unwrap();
    compile("if true { const a = 0; } else if false { const b = 10; } else if 0 { const c = 20; } else { const d = 30; }").unwrap();
    compile("while true { const x = 12; } const y = 12;").unwrap();
    compile("while true { print 12; break; } print 54;").unwrap();
    compile("while true { print 12; continue; } print 12;").unwrap();
    compile("var count = 0; var first = 1; var second = 0; while count < 40 { print first; const temp = first; first = first + second; second = temp; } ").unwrap();
}

#[test]
fn wont_compile_statements() {
    assert!(compile("const x = 5; x = 5;").is_err());
    assert!(compile("const x = 5; const x = 5;").is_err());
    assert!(compile("const x = 5; var x = 5;").is_err());
    assert!(compile("const x = x;").is_err());
    assert!(compile("var x = x;").is_err());
}

#[test]
fn arithmetic_is_emitted_operands_first() {
    let (code, names) = compiled("5 + 12 * 4;");
    assert_eq!(
        code.instructions,
        vec![
            Instruction::LoadValue(0),
            Instruction::LoadValue(1),
            Instruction::LoadValue(2),
            Instruction::BinaryMultiply,
            Instruction::BinaryAdd,
            Instruction::Pop,
        ]
    );
    assert_eq!(
        code.values,
        vec![Value::Integer(5), Value::Integer(12), Value::Integer(4)]
    );
    assert!(names.is_empty());
}

#[test]
fn a_syntax_tree_made_by_hand_compiles_alike() {
    let mut compiler = Compiler::new();
    let statement = Statement::Expression(ExpressionStatement {
        expression: binary(
            lit(5),
            BinaryOperator::Add,
            binary(lit(12), BinaryOperator::Multiply, lit(4)),
        ),
    });
    assert_eq!(statement.compile(&mut compiler), Ok(()));
    let (code, _) = compiler.finish();
    assert_eq!(code.instructions, compiled("5 + 12 * 4;").0.instructions);
}

#[test]
fn assignment_to_a_constant_is_refused() {
    assert_eq!(
        compile("const x = 10; x = 5;"),
        Err(CompilerError::AssignmentToConst)
    );
}

#[test]
fn an_undeclared_name_is_refused() {
    assert_eq!(
        compile("var y = x;"),
        Err(CompilerError::UndefinedIdentifier("x".to_string()))
    );
    assert_eq!(
        compile("x = 1;"),
        Err(CompilerError::UndefinedIdentifier("x".to_string()))
    );
    assert_eq!(
        compile("print x;"),
        Err(CompilerError::UndefinedIdentifier("x".to_string()))
    );
}

#[test]
fn a_second_declaration_is_refused() {
    assert_eq!(
        compile("var x; const x = 1;"),
        Err(CompilerError::Redefinition("x".to_string()))
    );
    assert_eq!(
        compile("if 1 { var x; } var x;"),
        Err(CompilerError::Redefinition("x".to_string()))
    );
}

#[test]
fn the_branches_of_an_if_meet_behind_the_whole_chain() {
    let (code, names) = compiled(
        "if true { const a = 0; } else if false { const b = 10; } else { const c = 20; } const d = 30;",
    );
    assert_eq!(
        code.instructions,
        vec![
            Instruction::LoadValue(0),
            Instruction::JumpIfFalse(5),
            Instruction::LoadValue(1),
            Instruction::StoreSymbol(0),
            Instruction::Jump(12),
            Instruction::LoadValue(2),
            Instruction::JumpIfFalse(10),
            Instruction::LoadValue(3),
            Instruction::StoreSymbol(1),
            Instruction::Jump(12),
            Instruction::LoadValue(4),
            Instruction::StoreSymbol(2),
            Instruction::LoadValue(5),
            Instruction::StoreSymbol(3),
        ]
    );
    // both branch exits land on the first instruction of `const d = 30;`
    assert_eq!(code.instructions[4], code.instructions[9]);
    assert_eq!(code.values[5], Value::Integer(30));
    assert_eq!(names, vec!["a", "b", "c", "d"]);
}

#[test]
fn the_last_branch_jumps_to_the_exit_too() {
    let (code, _) = compiled("if 1 { print 2; } print 3;");
    assert_eq!(
        code.instructions,
        vec![
            Instruction::LoadValue(0),
            Instruction::JumpIfFalse(5),
            Instruction::LoadValue(1),
            Instruction::Display,
            Instruction::Jump(5),
            Instruction::LoadValue(2),
            Instruction::Display,
        ]
    );
}

#[test]
fn break_leaves_the_loop() {
    let (code, _) = compiled("while true { print 12; break; } print 54;");
    assert_eq!(
        code.instructions,
        vec![
            Instruction::LoadValue(0),
            Instruction::JumpIfFalse(6),
            Instruction::LoadValue(1),
            Instruction::Display,
            Instruction::Jump(6),
            Instruction::Jump(0),
            Instruction::LoadValue(2),
            Instruction::Display,
        ]
    );
    assert_eq!(code.values[2], Value::Integer(54));
}

#[test]
fn continue_goes_back_to_the_head_of_the_innermost_loop() {
    let (code, _) = compiled("print 0; while 1 { while 2 { if 3 { continue; } break; } continue; }");
    assert_eq!(
        code.instructions,
        vec![
            Instruction::LoadValue(0),
            Instruction::Display,
            // outer head
            Instruction::LoadValue(1),
            Instruction::JumpIfFalse(14),
            // inner head
            Instruction::LoadValue(2),
            Instruction::JumpIfFalse(12),
            Instruction::LoadValue(3),
            Instruction::JumpIfFalse(10),
            Instruction::Jump(4),
            Instruction::Jump(10),
            Instruction::Jump(12),
            Instruction::Jump(4),
            Instruction::Jump(2),
            Instruction::Jump(2),
        ]
    );
}

#[test]
fn break_at_top_level_is_refused() {
    assert_eq!(compile("break;"), Err(CompilerError::BreakOutsideLoop));
    let mut compiler = Compiler::new();
    assert_eq!(
        Statement::Break(BreakStatement).compile(&mut compiler),
        Err(CompilerError::BreakOutsideLoop)
    );
    // the jump that was emitted stays behind
    let (code, _) = compiler.finish();
    assert_eq!(code.instructions, vec![Instruction::Jump(0)]);
}

#[test]
fn break_and_continue_need_a_loop_whatever_blocks_there_are() {
    assert_eq!(compile("continue;"), Err(CompilerError::ContinueOutsideLoop));
    assert_eq!(compile("{ break; }"), Err(CompilerError::BreakOutsideLoop));
    assert_eq!(
        compile("if 1 { { continue; } }"),
        Err(CompilerError::ContinueOutsideLoop)
    );
    assert_eq!(
        compile("if 1 { } else if 2 { { break; } }"),
        Err(CompilerError::BreakOutsideLoop)
    );
    assert_eq!(
        compile("while 1 { } break;"),
        Err(CompilerError::BreakOutsideLoop)
    );
    assert_eq!(compile("while 1 { if 2 { { break; } } }"), Ok(()));
}

#[test]
fn a_variable_without_initial_value_gets_a_slot_and_no_store() {
    let (code, names) = compiled("var a; var b = 1; a = b;");
    assert_eq!(
        code.instructions,
        vec![
            Instruction::LoadValue(0),
            Instruction::StoreSymbol(1),
            Instruction::LoadSymbol(1),
            Instruction::StoreSymbol(0),
        ]
    );
    assert_eq!(names, vec!["a", "b"]);
}

#[test]
fn equal_constants_are_not_merged() {
    let (code, _) = compiled("print 7; print 7;");
    assert_eq!(code.values, vec![Value::Integer(7), Value::Integer(7)]);
    assert_eq!(
        code.instructions,
        vec![
            Instruction::LoadValue(0),
            Instruction::Display,
            Instruction::LoadValue(1),
            Instruction::Display,
        ]
    );
}

#[test]
fn unary_plus_emits_nothing() {
    let (code, _) = compiled("+1; -2; not 3;");
    assert_eq!(
        code.instructions,
        vec![
            Instruction::LoadValue(0),
            Instruction::Pop,
            Instruction::LoadValue(1),
            Instruction::UnaryMinus,
            Instruction::Pop,
            Instruction::LoadValue(2),
            Instruction::UnaryNot,
            Instruction::Pop,
        ]
    );
}

#[test]
fn the_listing_shows_names_and_constants() {
    let (code, names) = compiled("var total = 1.5; print total + 2; const flag = true;");
    assert!(code.is_resolved(&names));
    assert_eq!(
        code.disassemble(&names),
        "   0\tLoadValue(0)\t1.5\n   1\tStoreSymbol(0)\ttotal\n   2\tLoadSymbol(0)\ttotal\n   3\tLoadValue(1)\t2\n   4\tBinaryAdd\n   5\tDisplay\n   6\tLoadValue(2)\ttrue\n   7\tStoreSymbol(1)\tflag\n"
    );
    assert_eq!(
        code.to_string(),
        "   0\tLoadValue(0)   1\tStoreSymbol(0)   2\tLoadSymbol(0)   3\tLoadValue(1)   4\tBinaryAdd   5\tDisplay   6\tLoadValue(2)   7\tStoreSymbol(1)"
    );
    match code.pretty(1, &names) {
        PrettyInstruction::Symbol {
            instruction,
            identifier,
        } => {
            assert_eq!(instruction, Instruction::StoreSymbol(0));
            assert_eq!(identifier, "total");
        }
        other => panic!("{:?}", other),
    }
    match code.pretty(3, &names) {
        PrettyInstruction::Value { instruction, value } => {
            assert_eq!(instruction, Instruction::LoadValue(1));
            assert_eq!(*value, Value::Integer(2));
        }
        other => panic!("{:?}", other),
    }
    assert_eq!(code.pretty(4, &names).to_string(), "BinaryAdd");
    assert_eq!(code.pretty(0, &names).to_string(), "LoadValue(0)\t1.5");
    assert!(!code.is_resolved(&Vec::new()));
}

#[test]
fn addresses_are_right_aligned_in_four_columns() {
    let mut compiler = Compiler::new();
    for _ in 0..10001 {
        compiler.emit(Instruction::Pop);
    }
    let (code, names) = compiler.finish();
    let listing = code.disassemble(&names);
    let lines: Vec<&str> = listing.lines().collect();
    assert_eq!(lines[0], "   0\tPop");
    assert_eq!(lines[9], "   9\tPop");
    assert_eq!(lines[10], "  10\tPop");
    assert_eq!(lines[999], " 999\tPop");
    assert_eq!(lines[1000], "1000\tPop");
    assert_eq!(lines[10000], "10000\tPop");
}

#[test]
fn mnemonics() {
    assert_eq!(Instruction::StoreSymbol(3).to_string(), "StoreSymbol(3)");
    assert_eq!(Instruction::LoadSymbol(65535).to_string(), "LoadSymbol(65535)");
    assert_eq!(Instruction::JumpIfTrue(0).to_string(), "JumpIfTrue(0)");
    assert_eq!(Instruction::JumpIfFalse(12).to_string(), "JumpIfFalse(12)");
    assert_eq!(Instruction::BinaryReminder.to_string(), "BinaryReminder");
    assert_eq!(Instruction::BinaryLogicalXor.to_string(), "BinaryLogicalXor");
    assert_eq!(Instruction::UnaryNot.to_string(), "UnaryNot");
}

#[test]
fn messages() {
    assert_eq!(
        CompilerError::VariableLimitReached.to_string(),
        "variable limit reached"
    );
    assert_eq!(
        CompilerError::Redefinition("x".to_string()).to_string(),
        "identifier `x` has already been declared"
    );
    assert_eq!(
        CompilerError::UndefinedIdentifier("y".to_string()).to_string(),
        "`y` has not been defined"
    );
    assert_eq!(
        CompilerError::AssignmentToConst.to_string(),
        "assignment to const variable"
    );
    assert_eq!(
        CompilerError::InstructionLimitReached.to_string(),
        "instruction limit has been reached"
    );
    assert_eq!(
        CompilerError::BreakOutsideLoop.to_string(),
        "illegal break statement"
    );
    assert_eq!(
        CompilerError::ContinueOutsideLoop.to_string(),
        "illegal continue statement"
    );
}

#[test]
fn registering_a_name_twice_keeps_the_first_slot() {
    let mut table = SymbolTable::new();
    assert_eq!(table.register(Identifier::new_var("a".to_string())), Ok(0));
    assert_eq!(table.register(Identifier::new_const("b".to_string())), Ok(1));
    assert_eq!(
        table.register(Identifier::new_const("a".to_string())),
        Err(CompilerError::Redefinition("a".to_string()))
    );
    assert_eq!(table.get("a"), Some((IdentifierKind::Variable, 0)));
    assert_eq!(table.get("b"), Some((IdentifierKind::Constant, 1)));
    assert_eq!(table.get("c"), None);
    assert!(table.contains("a"));
    assert!(!table.contains("c"));
    assert_eq!(table.next_identifier(), 2);
    assert_eq!(table.get_symbol(1), Some(&"b".to_string()));
    assert_eq!(table.get_symbol(2), None);
    assert_eq!(table.register_value(Value::True), 0);
    assert_eq!(table.register_value(Value::True), 1);
    assert_eq!(table.next_constant(), 2);
    assert_eq!(table.get_value(1), Some(&Value::True));
    assert_eq!(table.get_value(2), None);
    let (values, names) = table.finish();
    assert_eq!(values, vec![Value::True, Value::True]);
    assert_eq!(names, vec!["a", "b"]);
    assert_eq!(table.get("a"), None);
    assert_eq!(table.register(Identifier::new_var("b".to_string())), Ok(0));
}

#[test]
fn the_compiler_declares_what_a_sixteen_bit_operand_can_name() {
    let mut compiler = Compiler::new();
    for i in 0..65536u32 {
        assert_eq!(
            compiler.register_value(Value::Integer(i as i64)),
            Ok(i as u16)
        );
        assert_eq!(
            compiler.register(Identifier::new_var(format!("v{}", i))),
            Ok(i as u16)
        );
    }
    assert_eq!(
        compiler.register_value(Value::Integer(0)),
        Err(CompilerError::VariableLimitReached)
    );
    assert_eq!(
        compiler.register(Identifier::new_var("one_more".to_string())),
        Err(CompilerError::VariableLimitReached)
    );
    assert_eq!(
        compiler.register(Identifier::new_var("v7".to_string())),
        Err(CompilerError::Redefinition("v7".to_string()))
    );
    assert_eq!(
        parser::parse("var one_more;").unwrap()[0].compile(&mut compiler),
        Err(CompilerError::VariableLimitReached)
    );
    assert_eq!(
        parser::parse("print 1;").unwrap()[0].compile(&mut compiler),
        Err(CompilerError::VariableLimitReached)
    );
    assert_eq!(
        compiler.get_identifier("v65535"),
        Some((IdentifierKind::Variable, 65535))
    );
    // the table itself goes on
    let mut table = SymbolTable::new();
    for i in 0..65537usize {
        assert_eq!(table.register_value(Value::False), i);
    }
}

#[test]
fn whole_units() {
    let mut compiler = Compiler::new();
    let statements = parser::parse("const a = 1; print a;").unwrap();
    assert!(compiler.is_resolved());
    assert_eq!(
        alloy::compiler::compile(&mut compiler, &statements),
        Ok("   0\tLoadValue(0)\t1\n   1\tStoreSymbol(0)\ta\n   2\tLoadSymbol(0)\ta\n   3\tDisplay\n".to_string())
    );
    // the compiler is as new: `a` can be declared again
    assert_eq!(
        alloy::compiler::compile(&mut compiler, &statements),
        Ok("   0\tLoadValue(0)\t1\n   1\tStoreSymbol(0)\ta\n   2\tLoadSymbol(0)\ta\n   3\tDisplay\n".to_string())
    );
    let statements = parser::parse("var b = 2; b = c; print b;").unwrap();
    assert_eq!(
        alloy::compiler::compile(&mut compiler, &statements),
        Err(CompilerError::UndefinedIdentifier("c".to_string()))
    );
    // what was emitted before the failure stays
    assert!(compiler.is_resolved());
    let (code, names) = compiler.finish();
    assert_eq!(
        code.instructions,
        vec![Instruction::LoadValue(0), Instruction::StoreSymbol(0)]
    );
    assert_eq!(names, vec!["b"]);
    compiler.emit(Instruction::LoadSymbol(0));
    assert!(!compiler.is_resolved());
}

#[test]
fn a_jump_behind_the_reach_of_its_operand_is_refused() {
    let mut compiler = Compiler::new();
    for _ in 0..65535 {
        compiler.emit(Instruction::Pop);
    }
    // the jump sits at 65535 and lands at 65536
    let jump = compiler.emit_untargeted_jump();
    assert_eq!(jump.index(), 65535);
    assert!(compiler.holds_jump(jump));
    assert_eq!(
        compiler.target_jump(jump),
        Err(CompilerError::InstructionLimitReached)
    );
    assert_eq!(Label(65535).target(), Ok(65535));
    assert_eq!(
        Label(65536).target(),
        Err(CompilerError::InstructionLimitReached)
    );
    let statements = parser::parse("while 1 { }").unwrap();
    assert_eq!(
        statements[0].compile(&mut compiler),
        Err(CompilerError::InstructionLimitReached)
    );
    let statements = parser::parse("if 1 { }").unwrap();
    assert_eq!(
        statements[0].compile(&mut compiler),
        Err(CompilerError::InstructionLimitReached)
    );
}

#[test]
fn jumps_are_aimed_when_their_block_is_left() {
    let mut compiler = Compiler::new();
    compiler.enter_while();
    assert_eq!(compiler.place_label(), Label(0));
    assert_eq!(compiler.loop_head(), Some(Label(0)));
    compiler.emit(Instruction::Pop);
    compiler.enter_if();
    compiler.enter_block(BlockType::Block);
    let to_if = compiler.emit_untargeted_jump_if_true();
    compiler.target_jump_on_exit(BlockType::If, to_if);
    let to_loop = compiler.emit_untargeted_jump();
    assert_eq!(compiler.target_jump_on_loop_exit(to_loop), Some(()));
    let direct = compiler.emit_jump(Instruction::JumpIfFalse(0));
    let nowhere = compiler.emit_untargeted_jump();
    compiler.target_jump_on_exit(BlockType::For, nowhere);
    assert_eq!(compiler.target_jump(direct), Ok(()));
    assert_eq!(compiler.exit_block(BlockType::Block), Ok(()));
    compiler.emit(Instruction::Pop);
    assert_eq!(compiler.exit_if(), Ok(()));
    compiler.emit(Instruction::Pop);
    assert_eq!(compiler.exit_while(), Ok(()));
    assert_eq!(compiler.loop_head(), None);
    let late = compiler.emit_untargeted_jump();
    assert_eq!(compiler.target_jump_on_loop_exit(late), None);
    let (code, _) = compiler.finish();
    assert_eq!(
        code.instructions,
        vec![
            Instruction::Pop,
            Instruction::JumpIfTrue(6),
            Instruction::Jump(7),
            Instruction::JumpIfFalse(5),
            Instruction::Jump(0),
            Instruction::Pop,
            Instruction::Pop,
            Instruction::Jump(0),
        ]
    );
}

#[test]
fn finish_leaves_the_compiler_as_new() {
    let mut compiler = Compiler::new();
    assert_eq!(compiler.register_var("a"), Ok(0));
    assert_eq!(compiler.register_const("b"), Ok(1));
    assert_eq!(compiler.get_identifier("b"), Some((IdentifierKind::Constant, 1)));
    assert_eq!(compiler.register_value(Value::False), Ok(0));
    compiler.emit(Instruction::LoadValue(0));
    let (code, names) = compiler.finish();
    assert_eq!(code.instructions, vec![Instruction::LoadValue(0)]);
    assert_eq!(code.values, vec![Value::False]);
    assert_eq!(names, vec!["a", "b"]);
    assert_eq!(compiler.get_identifier("b"), None);
    let (code, names) = compiler.finish();
    assert!(code.instructions.is_empty() && code.values.is_empty() && names.is_empty());
}

#[test]
fn identifiers() {
    let constant = Identifier::new_const("c".to_string());
    assert!(constant.is_const());
    assert!(!constant.is_var());
    let variable = Identifier::new_var("v".to_string());
    assert!(variable.is_var());
    assert!(!variable.is_const());
    assert_eq!(variable.duplicate(), variable);
}

#[test]
fn conversions() {
    assert_eq!(Label::from(7), Label(7));
    assert_eq!(usize::from(Label(7)), 7);
    let mut compiler = Compiler::new();
    compiler.emit(Instruction::Pop);
    let jump = compiler.emit_untargeted_jump();
    assert_eq!(usize::from(jump), 1);
    assert_eq!(Value::from(3), Value::Integer(3));
    assert_eq!(Value::from_bool(true), Value::True);
    assert_eq!(Value::from_integer(-1).duplicate(), Value::Integer(-1));
    assert_eq!(Expression::from(Value::True), Expression::Value(Value::True));
    let statement: Statement = PrintStatement { expression: lit(1) }.into();
    assert_eq!(
        statement,
        Statement::Print(PrintStatement { expression: lit(1) })
    );
    let statement: Statement = BreakStatement.into();
    assert_eq!(statement, Statement::Break(BreakStatement));
}

#[test]
fn parts_of_a_program_compile_through_one_interface() {
    let mut compiler = Compiler::new();
    assert_eq!(emit(&Value::Integer(1), &mut compiler), Ok(()));
    assert_eq!(emit(&lit(2), &mut compiler), Ok(()));
    assert_eq!(
        emit(&parser::parse("print 3;").unwrap()[0], &mut compiler),
        Ok(())
    );
    assert_eq!(
        emit(&BreakStatement, &mut compiler),
        Err(CompilerError::BreakOutsideLoop)
    );
    let (code, _) = compiler.finish();
    assert_eq!(
        code.instructions,
        vec![
            Instruction::LoadValue(0),
            Instruction::LoadValue(1),
            Instruction::LoadValue(2),
            Instruction::Display,
            Instruction::Jump(0),
        ]
    );
}

fn programs() -> Vec<&'static str> {
    vec![
        "5 + 12 * 4;",
        "if true { const a = 0; } else if false { const b = 10; } else { const c = 20; } const d = 30;",
        "while true { print 12; break; } print 54;",
        "var n = 0; while n < 3 { if n == 1 { n = n + 1; continue; } else if n == 2 { break; } { n = n + 1; } }",
        "while 1 { while 2 { if 3 { break; } else { continue; } } if 4 { continue; } break; }",
        "{ { if 1 { } else { } } } print 1;",
        "if 1 { if 2 { if 3 { print 4; } } else if 5 { } }",
    ]
}

#[test]
fn every_jump_lands_inside_the_code() {
    for program in programs() {
        let (code, _) = compiled(program);
        let len = code.instructions.len();
        for (at, instruction) in code.instructions.iter().enumerate() {
            match instruction {
                Instruction::JumpIfFalse(target) | Instruction::JumpIfTrue(target) => {
                    // a conditional jump goes forward, so it has been aimed
                    assert!(at < *target as usize && *target as usize <= len, "{program}: {at}");
                }
                Instruction::Jump(target) => {
                    assert!(*target as usize <= len, "{program}: {at}");
                }
                _ => {}
            }
        }
    }
}

#[test]
fn code_that_was_compiled_is_not_touched_again() {
    for program in programs() {
        let statements = parser::parse(program).unwrap();
        let mut compiler = Compiler::new();
        let mut before: Vec<Instruction> = Vec::new();
        for upto in 0..statements.len() {
            let mut again = Compiler::new();
            for statement in &statements[..=upto] {
                statement.compile(&mut again).unwrap();
            }
            let (code, _) = again.finish();
            assert_eq!(code.instructions[..before.len()], before[..], "{program}: {upto}");
            before = code.instructions;
        }
        for statement in &statements {
            statement.compile(&mut compiler).unwrap();
        }
        assert_eq!(compiler.finish().0.instructions, before);
    }
}

#[test]
fn only_the_jumps_to_a_loop_head_go_back() {
    let (code, _) = compiled("print 0; while 1 { while 2 { if 3 { continue; } break; } continue; }");
    let heads = [2usize, 4usize];
    let mut back = 0;
    for (at, instruction) in code.instructions.iter().enumerate() {
        match instruction {
            Instruction::JumpIfFalse(target) | Instruction::JumpIfTrue(target) => {
                assert!(at < *target as usize, "{at}");
            }
            Instruction::Jump(target) => {
                let target = *target as usize;
                if target <= at {
                    assert!(heads.contains(&target), "{at}");
                    back += 1;
                }
            }
            _ => {}
        }
    }
    // one `continue` and one end of a loop for each of the two loops
    assert_eq!(back, 4);
    let last = code.instructions.len() - 1;
    assert_eq!(code.instructions[last], Instruction::Jump(2));
}

#[test]
fn in_every_program_a_jump_back_is_unconditional_and_lands_on_the_first_instruction_of_a_condition() {
    for program in programs() {
        let (code, _) = compiled(program);
        for (at, instruction) in code.instructions.iter().enumerate() {
            match instruction {
                Instruction::JumpIfFalse(target) | Instruction::JumpIfTrue(target) => {
                    assert!(at < *target as usize, "{program}: {at}");
                }
                Instruction::Jump(target) => {
                    let target = *target as usize;
                    if target <= at {
                        // a loop begins with its condition, and a condition with a load
                        assert!(
                            matches!(
                                code.instructions[target],
                                Instruction::LoadValue(_) | Instruction::LoadSymbol(_)
                            ),
                            "{program}: {at}"
                        );
                    }
                }
                _ => {}
            }
        }
    }
}
