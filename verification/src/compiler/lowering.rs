//! The lowering rules: what compiling an expression or a statement does
//! to the state of a compiler.

use vstd::prelude::*;

use crate::ast::IdentifierKind;
use crate::ast::expression::Expression;
use crate::ast::expression::binary::BinaryOperator;
use crate::ast::expression::unary::UnaryOperator;
use crate::ast::statement::Statement;
use crate::ast::statement::if_statement::{ConditionalStatement, ElseIfStatement};
use crate::ast::value::ValueView;
use crate::compiler::instruction::Instruction;
use crate::compiler::model::{nearest_loop, BlockType, CompilerView, Fault, Lowering};

verus! {

/// The instruction that applies an infix operator to the two topmost
/// operands.
pub open spec fn binary_instruction(operator: BinaryOperator) -> Instruction {
    match operator {
        BinaryOperator::Add => Instruction::BinaryAdd,
        BinaryOperator::Subtract => Instruction::BinarySubtract,
        BinaryOperator::Multiply => Instruction::BinaryMultiply,
        BinaryOperator::Divide => Instruction::BinaryDivide,
        BinaryOperator::Reminder => Instruction::BinaryReminder,
        BinaryOperator::Power => Instruction::BinaryPower,
        BinaryOperator::LessThan => Instruction::BinaryLessThan,
        BinaryOperator::LessThanEqual => Instruction::BinaryLessThanEqual,
        BinaryOperator::GreaterThan => Instruction::BinaryGreaterThan,
        BinaryOperator::GreaterThanEqual => Instruction::BinaryGreaterThanEqual,
        BinaryOperator::Equal => Instruction::BinaryEqual,
        BinaryOperator::NotEqual => Instruction::BinaryNotEqual,
        BinaryOperator::LogicalAnd => Instruction::BinaryLogicalAnd,
        BinaryOperator::LogicalOr => Instruction::BinaryLogicalOr,
        BinaryOperator::LogicalXor => Instruction::BinaryLogicalXor,
    }
}

/// A constant: it is added to the pool and loaded from there.
pub open spec fn lower_value(c: CompilerView, value: ValueView) -> Lowering {
    let added = c.register_value(value);
    if added.fault is Some {
        added
    } else {
        added.state.emit(Instruction::LoadValue(c.values.len() as u16)).ok()
    }
}

/// A name: its slot is loaded; an undeclared name is a failure.
pub open spec fn lower_identifier(c: CompilerView, name: Seq<char>) -> Lowering {
    match c.lookup(name) {
        Some((_, slot)) => c.emit(Instruction::LoadSymbol(slot as u16)).ok(),
        None => c.failed(Fault::UndefinedIdentifier(name)),
    }
}

/// What follows the operand of a prefix operator: nothing for `+`.
pub open spec fn apply_unary(c: CompilerView, operator: UnaryOperator) -> CompilerView {
    match operator {
        UnaryOperator::Plus => c,
        UnaryOperator::Minus => c.emit(Instruction::UnaryMinus),
        UnaryOperator::Not => c.emit(Instruction::UnaryNot),
    }
}

/// An expression: operands first, left before right, then the operator.
pub open spec fn lower_expression(c: CompilerView, e: Expression) -> Lowering
    decreases e,
{
    match e {
        Expression::Value(value) => lower_value(c, value@),
        Expression::Identifier(identifier) => lower_identifier(c, identifier.ident@),
        Expression::Unary(unary) => {
            let operand = lower_expression(c, *unary.expression);
            if operand.fault is Some {
                operand
            } else {
                apply_unary(operand.state, unary.operator).ok()
            }
        },
        Expression::Binary(binary) => {
            let left = lower_expression(c, *binary.left);
            if left.fault is Some {
                left
            } else {
                let right = lower_expression(left.state, *binary.right);
                if right.fault is Some {
                    right
                } else {
                    right.state.emit(binary_instruction(binary.operator)).ok()
                }
            }
        },
    }
}

/// An expression followed by one instruction that consumes its value.
pub open spec fn lower_consumed(c: CompilerView, e: Expression, consumer: Instruction) -> Lowering {
    let value = lower_expression(c, e);
    if value.fault is Some {
        value
    } else {
        value.state.emit(consumer).ok()
    }
}

/// A declaration: the initial value, if there is one, is computed before
/// the name is declared, and stored after.
pub open spec fn lower_declaration(
    c: CompilerView,
    name: Seq<char>,
    kind: IdentifierKind,
    initial_value: Option<Expression>,
) -> Lowering {
    let initial = match initial_value {
        Some(e) => lower_expression(c, e),
        None => c.ok(),
    };
    if initial.fault is Some {
        initial
    } else {
        let declared = initial.state.register(name, kind);
        if declared.fault is Some || initial_value is None {
            declared
        } else {
            declared.state.emit(Instruction::StoreSymbol(initial.state.symbols.len() as u16)).ok()
        }
    }
}

/// An assignment: the name must be a declared variable.
pub open spec fn lower_assignment(c: CompilerView, name: Seq<char>, value: Expression) -> Lowering {
    match c.lookup(name) {
        None => c.failed(Fault::UndefinedIdentifier(name)),
        Some((IdentifierKind::Constant, _)) => c.failed(Fault::AssignmentToConst),
        Some((IdentifierKind::Variable, slot)) => lower_consumed(
            c,
            value,
            Instruction::StoreSymbol(slot as u16),
        ),
    }
}

/// `break`: a jump that the exit of the innermost loop will aim.
pub open spec fn lower_break(c: CompilerView) -> Lowering {
    let emitted = c.emit_jump(Instruction::Jump(0));
    match emitted.defer_to_loop(c.here()) {
        Some(deferred) => deferred.ok(),
        None => emitted.failed(Fault::BreakOutsideLoop),
    }
}

/// `continue`: a jump back to the head of the innermost loop.
pub open spec fn lower_continue(c: CompilerView) -> Lowering {
    match nearest_loop(c.blocks) {
        None => c.failed(Fault::ContinueOutsideLoop),
        Some(frame) => if c.blocks[frame].head > u16::MAX {
            c.failed(Fault::InstructionLimitReached)
        } else {
            c.emit(Instruction::Jump(c.blocks[frame].head as u16)).ok()
        },
    }
}

/// The end of a loop body: the jump back to the head at `head`, then the
/// exit of the loop's frame.
pub open spec fn close_loop(c: CompilerView, head: int) -> Lowering {
    if head > u16::MAX {
        c.failed(Fault::InstructionLimitReached)
    } else {
        c.emit(Instruction::Jump(head as u16)).exit_block()
    }
}

/// The end of one conditional branch: a jump to the exit of the whole
/// `if`, then the landing place of the branch's failed condition, which
/// was emitted at `condition_failed`.
pub open spec fn close_branch(c: CompilerView, condition_failed: int) -> Lowering {
    c.emit_jump(Instruction::Jump(0)).defer_to(BlockType::If, c.here()).target_jump(
        condition_failed,
    )
}

/// Whether a statement can be lowered: `for` loops cannot.
pub open spec fn lowerable(s: Statement) -> bool
    decreases s, 0nat,
{
    match s {
        Statement::For(_) => false,
        Statement::Block(block) => all_lowerable(block.body@, 0),
        Statement::While(w) => all_lowerable(w.body@, 0),
        Statement::If(i) => {
            &&& all_lowerable(i.if_statement.statements@, 0)
            &&& else_ifs_lowerable(i.else_if_statements@, 0)
            &&& match i.else_statement {
                Some(e) => all_lowerable(e.statements@, 0),
                None => true,
            }
        },
        _ => true,
    }
}

/// Whether the statements from `from` on can all be lowered.
pub open spec fn all_lowerable(body: Seq<Statement>, from: int) -> bool
    decreases body, body.len() - from,
{
    if 0 <= from < body.len() {
        lowerable(body[from]) && all_lowerable(body, from + 1)
    } else {
        true
    }
}

/// Whether the `else if` branches from `from` on can all be lowered.
pub open spec fn else_ifs_lowerable(branches: Seq<ElseIfStatement>, from: int) -> bool
    decreases branches, branches.len() - from,
{
    if 0 <= from < branches.len() {
        all_lowerable(branches[from].0.statements@, 0) && else_ifs_lowerable(branches, from + 1)
    } else {
        true
    }
}

/// A statement. The rules say nothing of `for` loops: a statement that
/// holds one is not [`lowerable`], and nothing is to be made of what
/// stands here for it.
pub open spec fn lower_statement(c: CompilerView, s: Statement) -> Lowering
    decreases s, 0nat,
{
    match s {
        Statement::Print(print) => lower_consumed(c, print.expression, Instruction::Display),
        Statement::Expression(statement) => lower_consumed(
            c,
            statement.expression,
            Instruction::Pop,
        ),
        Statement::Declaration(declaration) => lower_declaration(
            c,
            declaration.identifier.ident@,
            declaration.identifier.kind,
            declaration.initial_value,
        ),
        Statement::Assignment(assignment) => lower_assignment(
            c,
            assignment.identifier@,
            assignment.value,
        ),
        Statement::Break(_) => lower_break(c),
        Statement::Continue(_) => lower_continue(c),
        Statement::Block(block) => {
            let inner = lower_statements(c.enter_block(BlockType::Block), block.body@, 0);
            if inner.fault is Some {
                inner
            } else {
                inner.state.exit_block()
            }
        },
        Statement::While(w) => {
            let condition = lower_expression(c.enter_block(BlockType::While), w.condition);
            if condition.fault is Some {
                condition
            } else {
                let guarded = condition.state.emit_jump(Instruction::JumpIfFalse(0)).defer_to(
                    BlockType::While,
                    condition.state.here(),
                );
                let body = lower_statements(guarded, w.body@, 0);
                if body.fault is Some {
                    body
                } else {
                    close_loop(body.state, c.here())
                }
            }
        },
        Statement::If(i) => {
            let first = lower_branch(c.enter_block(BlockType::If), i.if_statement);
            if first.fault is Some {
                first
            } else {
                let others = lower_else_ifs(first.state, i.else_if_statements@, 0);
                if others.fault is Some {
                    others
                } else {
                    let last = match i.else_statement {
                        Some(e) => lower_statements(others.state, e.statements@, 0),
                        None => others,
                    };
                    if last.fault is Some {
                        last
                    } else {
                        last.state.exit_block()
                    }
                }
            }
        },
        Statement::For(_) => c.ok(),
    }
}

/// The statements from `from` on, in order, up to the first failure.
pub open spec fn lower_statements(c: CompilerView, body: Seq<Statement>, from: int) -> Lowering
    decreases body, body.len() - from,
{
    if 0 <= from < body.len() {
        let first = lower_statement(c, body[from]);
        if first.fault is Some {
            first
        } else {
            lower_statements(first.state, body, from + 1)
        }
    } else {
        c.ok()
    }
}

/// One conditional branch: the condition, a jump over the branch if it
/// fails, the statements, and the end of the branch.
pub open spec fn lower_branch(c: CompilerView, branch: ConditionalStatement) -> Lowering
    decreases branch, 0nat,
{
    let condition = lower_expression(c, branch.condition);
    if condition.fault is Some {
        condition
    } else {
        let body = lower_statements(
            condition.state.emit_jump(Instruction::JumpIfFalse(0)),
            branch.statements@,
            0,
        );
        if body.fault is Some {
            body
        } else {
            close_branch(body.state, condition.state.here())
        }
    }
}

/// The `else if` branches from `from` on, in order.
pub open spec fn lower_else_ifs(c: CompilerView, branches: Seq<ElseIfStatement>, from: int) -> Lowering
    decreases branches, branches.len() - from,
{
    if 0 <= from < branches.len() {
        let first = lower_branch(c, branches[from].0);
        if first.fault is Some {
            first
        } else {
            lower_else_ifs(first.state, branches, from + 1)
        }
    } else {
        c.ok()
    }
}

} // verus!
