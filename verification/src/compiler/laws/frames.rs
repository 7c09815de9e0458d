//! What lowering does to the block stack and to the instructions that
//! are there already.

use vstd::prelude::*;

use crate::ast::expression::Expression;
use crate::ast::statement::Statement;
use crate::ast::statement::if_statement::{ConditionalStatement, ElseIfStatement};
use crate::compiler::instruction::Instruction;
use crate::compiler::lowering::{
    lower_branch, lower_else_ifs, lower_expression, lower_statement, lower_statements,
};
use crate::compiler::model::{
    nearest_loop, nearest_of, BlockType, CompilerView, FrameView, Lowering,
};

verus! {

/// The kinds and heads of the frames of a block stack, outermost first.
pub open spec fn shape(blocks: Seq<FrameView>) -> Seq<(BlockType, int)> {
    Seq::new(blocks.len(), |b: int| (blocks[b].kind, blocks[b].head))
}

/// Whether two instructions are the same but for the target of a jump.
pub open spec fn same_but_target(a: Instruction, b: Instruction) -> bool {
    a.retargeted(0) == b.retargeted(0)
}

/// Whether `after` holds the instructions of `before`, the same but for
/// the targets of jumps, and then possibly more.
pub open spec fn extends(before: Seq<Instruction>, after: Seq<Instruction>) -> bool {
    &&& before.len() <= after.len()
    &&& forall|i: int| 0 <= i < before.len() ==> same_but_target(before[i], #[trigger] after[i])
}

/// A buffer that extends another keeps its jumps where they are.
pub proof fn lemma_extends_keeps_jumps(c: CompilerView, d: CompilerView, at: int)
    requires
        extends(c.instructions, d.instructions),
        c.holds_jump(at),
    ensures
        d.holds_jump(at),
{
    assert(same_but_target(c.instructions[at], d.instructions[at]));
}

/// Adding a pending jump to a frame leaves the shape of the stack alone.
pub proof fn lemma_defer_keeps_shape(c: CompilerView, kind: BlockType, at: int)
    ensures
        shape(c.defer_to(kind, at).blocks) == shape(c.blocks),
        c.defer_to_loop(at) matches Some(d) ==> shape(d.blocks) == shape(c.blocks),
{
    lemma_nearest_in_range(c.blocks, kind);
    assert(shape(c.defer_to(kind, at).blocks) =~= shape(c.blocks));
    match c.defer_to_loop(at) {
        Some(d) => {
            assert(shape(d.blocks) =~= shape(c.blocks));
        },
        None => {},
    }
}

/// The innermost frame of a kind, if there is one, is a frame of that kind.
pub proof fn lemma_nearest_in_range(blocks: Seq<FrameView>, kind: BlockType)
    ensures
        nearest_of(blocks, kind) matches Some(at) ==> 0 <= at < blocks.len() && blocks[at].kind
            == kind,
        nearest_loop(blocks) matches Some(at) ==> 0 <= at < blocks.len()
            && blocks[at].kind.is_loop(),
    decreases blocks.len(),
{
    if blocks.len() > 0 {
        lemma_nearest_in_range(blocks.drop_last(), kind);
    }
}

/// Which frame is the innermost of a kind depends on the shape alone.
pub proof fn lemma_nearest_by_shape(a: Seq<FrameView>, b: Seq<FrameView>, kind: BlockType)
    requires
        shape(a) == shape(b),
    ensures
        nearest_of(a, kind) == nearest_of(b, kind),
        nearest_loop(a) == nearest_loop(b),
    decreases a.len(),
{
    assert(a.len() == shape(a).len());
    assert(b.len() == shape(b).len());
    if a.len() > 0 {
        assert(shape(a)[a.len() - 1] == shape(b)[a.len() - 1]);
        assert(shape(a.drop_last()) =~= shape(a).drop_last());
        assert(shape(b.drop_last()) =~= shape(b).drop_last());
        lemma_nearest_by_shape(a.drop_last(), b.drop_last(), kind);
    }
}

/// Lowering an expression leaves the block stack alone.
pub proof fn lemma_expression_keeps_blocks(c: CompilerView, e: Expression)
    ensures
        lower_expression(c, e).state.blocks == c.blocks,
        extends(c.instructions, lower_expression(c, e).state.instructions),
    decreases e,
{
    match e {
        Expression::Value(_) => {},
        Expression::Identifier(_) => {},
        Expression::Unary(unary) => {
            lemma_expression_keeps_blocks(c, *unary.expression);
        },
        Expression::Binary(binary) => {
            lemma_expression_keeps_blocks(c, *binary.left);
            lemma_expression_keeps_blocks(lower_expression(c, *binary.left).state, *binary.right);
        },
    }
}

/// A statement that was lowered without failure leaves as many frames as
/// it found, of the same kinds and with the same heads. Whether it failed
/// or not, the instructions that were there are still there, the same but
/// for the targets of jumps.
pub proof fn lemma_statement_keeps_shape(c: CompilerView, s: Statement)
    ensures
        lower_statement(c, s).fault is None ==> shape(lower_statement(c, s).state.blocks) == shape(
            c.blocks,
        ),
        extends(c.instructions, lower_statement(c, s).state.instructions),
    decreases s, 0nat,
{
    match s {
        Statement::Print(print) => {
            lemma_expression_keeps_blocks(c, print.expression);
        },
        Statement::Expression(statement) => {
            lemma_expression_keeps_blocks(c, statement.expression);
        },
        Statement::Declaration(declaration) => {
            match declaration.initial_value {
                Some(e) => lemma_expression_keeps_blocks(c, e),
                None => {},
            }
        },
        Statement::Assignment(assignment) => {
            lemma_expression_keeps_blocks(c, assignment.value);
        },
        Statement::Break(_) => {
            lemma_defer_keeps_shape(c.emit_jump(Instruction::Jump(0)), BlockType::If, c.here());
        },
        Statement::Continue(_) => {},
        Statement::Block(block) => {
            let entered = c.enter_block(BlockType::Block);
            lemma_statements_keep_shape(entered, block.body@, 0);
            let inner = lower_statements(entered, block.body@, 0);
            if inner.fault is None {
                lemma_exit_restores_shape(c, BlockType::Block, inner.state);
            }
        },
        Statement::While(w) => {
            let entered = c.enter_block(BlockType::While);
            lemma_expression_keeps_blocks(entered, w.condition);
            let condition = lower_expression(entered, w.condition);
            if condition.fault is None {
                let emitted = condition.state.emit_jump(
                    Instruction::JumpIfFalse(0),
                );
                lemma_defer_keeps_shape(emitted, BlockType::While, condition.state.here());
                let guarded = emitted.defer_to(BlockType::While, condition.state.here());
                lemma_statements_keep_shape(guarded, w.body@, 0);
                let body = lower_statements(guarded, w.body@, 0);
                if body.fault is None && c.here() <= u16::MAX {
                    let jumped = body.state.emit(
                        Instruction::Jump(c.here() as u16),
                    );
                    lemma_exit_restores_shape(c, BlockType::While, jumped);
                }
            }
        },
        Statement::If(i) => {
            let entered = c.enter_block(BlockType::If);
            lemma_branch_keeps_shape(entered, i.if_statement);
            let first = lower_branch(entered, i.if_statement);
            if first.fault is None {
                lemma_else_ifs_keep_shape(first.state, i.else_if_statements@, 0);
                let others = lower_else_ifs(first.state, i.else_if_statements@, 0);
                if others.fault is None {
                    let last = match i.else_statement {
                        Some(e) => {
                            lemma_statements_keep_shape(others.state, e.statements@, 0);
                            lower_statements(others.state, e.statements@, 0)
                        },
                        None => others,
                    };
                    if last.fault is None {
                        lemma_exit_restores_shape(c, BlockType::If, last.state);
                    }
                }
            }
        },
        Statement::For(_) => {},
    }
}

/// Leaving the frame that was entered on top of `c` gives back the shape
/// that `c` had.
pub proof fn lemma_exit_restores_shape(c: CompilerView, kind: BlockType, inner: CompilerView)
    requires
        shape(inner.blocks) == shape(c.enter_block(kind).blocks),
    ensures
        inner.blocks.len() > 0,
        inner.blocks.last().kind == kind,
        inner.blocks.last().head == c.here(),
        shape(inner.exit_block().state.blocks) == shape(c.blocks),
{
    let entered = c.enter_block(kind).blocks;
    assert(shape(entered).len() == c.blocks.len() + 1);
    assert(shape(inner.blocks).len() == inner.blocks.len());
    assert(shape(inner.blocks)[inner.blocks.len() - 1] == shape(entered)[c.blocks.len() as int]);
    assert forall|b: int| 0 <= b < c.blocks.len() implies #[trigger] shape(
        inner.blocks.drop_last(),
    )[b] == shape(c.blocks)[b] by {
        assert(shape(inner.blocks)[b] == shape(entered)[b]);
    }
    assert(shape(inner.blocks.drop_last()) =~= shape(c.blocks));
}

/// See [`lemma_statement_keeps_shape`].
pub proof fn lemma_statements_keep_shape(c: CompilerView, body: Seq<Statement>, from: int)
    ensures
        lower_statements(c, body, from).fault is None ==> shape(
            lower_statements(c, body, from).state.blocks,
        ) == shape(c.blocks),
        extends(c.instructions, lower_statements(c, body, from).state.instructions),
    decreases body, body.len() - from,
{
    if 0 <= from < body.len() {
        lemma_statement_keeps_shape(c, body[from]);
        let first = lower_statement(c, body[from]);
        if first.fault is None {
            lemma_statements_keep_shape(first.state, body, from + 1);
        }
    }
}

/// See [`lemma_statement_keeps_shape`].
pub proof fn lemma_branch_keeps_shape(c: CompilerView, branch: ConditionalStatement)
    ensures
        lower_branch(c, branch).fault is None ==> shape(lower_branch(c, branch).state.blocks)
            == shape(c.blocks),
        extends(c.instructions, lower_branch(c, branch).state.instructions),
    decreases branch, 0nat,
{
    lemma_expression_keeps_blocks(c, branch.condition);
    let condition = lower_expression(c, branch.condition);
    if condition.fault is None {
        let emitted = condition.state.emit_jump(
            Instruction::JumpIfFalse(0),
        );
        lemma_statements_keep_shape(emitted, branch.statements@, 0);
        let body = lower_statements(emitted, branch.statements@, 0);
        if body.fault is None {
            lemma_defer_keeps_shape(
                body.state.emit_jump(Instruction::Jump(0)),
                BlockType::If,
                body.state.here(),
            );
        }
    }
}

/// See [`lemma_statement_keeps_shape`].
pub proof fn lemma_else_ifs_keep_shape(c: CompilerView, branches: Seq<ElseIfStatement>, from: int)
    ensures
        lower_else_ifs(c, branches, from).fault is None ==> shape(
            lower_else_ifs(c, branches, from).state.blocks,
        ) == shape(c.blocks),
        extends(c.instructions, lower_else_ifs(c, branches, from).state.instructions),
    decreases branches, branches.len() - from,
{
    if 0 <= from < branches.len() {
        lemma_branch_keeps_shape(c, branches[from].0);
        let first = lower_branch(c, branches[from].0);
        if first.fault is None {
            lemma_else_ifs_keep_shape(first.state, branches, from + 1);
        }
    }
}

} // verus!
