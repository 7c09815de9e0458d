//! `break` and `continue` need a loop.

use vstd::prelude::*;

use crate::ast::statement::{BreakStatement, ContinueStatement, Statement};
use crate::ast::statement::if_statement::{ConditionalStatement, ElseIfStatement};
use crate::compiler::instruction::Instruction;
use crate::compiler::laws::frames::{
    lemma_branch_keeps_shape, lemma_else_ifs_keep_shape, lemma_expression_keeps_blocks,
    lemma_nearest_by_shape, lemma_nearest_in_range, lemma_statement_keeps_shape, shape,
};
use crate::compiler::lowering::{
    lower_branch, lower_else_ifs, lower_expression, lower_statement, lower_statements,
};
use crate::compiler::model::{nearest_loop, BlockType, CompilerView, Fault, FrameView};

verus! {

/// Without a frame of a loop on the block stack, whatever other frames
/// there are, `break` fails with `BreakOutsideLoop` and `continue` with
/// `ContinueOutsideLoop`.
pub proof fn law_jump_outside_loop(c: CompilerView)
    requires
        forall|b: int| 0 <= b < c.blocks.len() ==> !(#[trigger] c.blocks[b]).kind.is_loop(),
    ensures
        lower_statement(c, Statement::Break(BreakStatement)).fault == Some(Fault::BreakOutsideLoop),
        lower_statement(c, Statement::Continue(ContinueStatement)).fault == Some(
            Fault::ContinueOutsideLoop,
        ),
{
    lemma_nearest_in_range(c.blocks, BlockType::If);
}

/// Whether a statement holds a `break` or a `continue` that no loop of
/// the statement encloses.
pub open spec fn strays(s: Statement) -> bool
    decreases s, 0nat,
{
    match s {
        Statement::Break(_) => true,
        Statement::Continue(_) => true,
        Statement::Block(block) => any_strays(block.body@, 0),
        Statement::If(i) => {
            ||| any_strays(i.if_statement.statements@, 0)
            ||| any_branch_strays(i.else_if_statements@, 0)
            ||| match i.else_statement {
                Some(e) => any_strays(e.statements@, 0),
                None => false,
            }
        },
        _ => false,
    }
}

/// Whether one of the statements from `from` on strays.
pub open spec fn any_strays(body: Seq<Statement>, from: int) -> bool
    decreases body, body.len() - from,
{
    if 0 <= from < body.len() {
        strays(body[from]) || any_strays(body, from + 1)
    } else {
        false
    }
}

/// Whether a statement of one of the branches from `from` on strays.
pub open spec fn any_branch_strays(branches: Seq<ElseIfStatement>, from: int) -> bool
    decreases branches, branches.len() - from,
{
    if 0 <= from < branches.len() {
        any_strays(branches[from].0.statements@, 0) || any_branch_strays(branches, from + 1)
    } else {
        false
    }
}

proof fn lemma_loop_free_by_shape(a: Seq<FrameView>, b: Seq<FrameView>)
    requires
        shape(a) == shape(b),
        nearest_loop(a) is None,
    ensures
        nearest_loop(b) is None,
{
    lemma_nearest_by_shape(a, b, BlockType::If);
}

proof fn lemma_enter_loop_free(c: CompilerView, kind: BlockType)
    requires
        nearest_loop(c.blocks) is None,
        !kind.is_loop(),
    ensures
        nearest_loop(c.enter_block(kind).blocks) is None,
{
    assert(c.enter_block(kind).blocks.drop_last() =~= c.blocks);
}

/// A statement with a `break` or a `continue` that no loop of the
/// statement encloses does not compile where no loop is being compiled,
/// however deep in blocks and branches the `break` or `continue` stands.
pub proof fn law_stray_jump_fails(c: CompilerView, s: Statement)
    requires
        nearest_loop(c.blocks) is None,
        strays(s),
    ensures
        lower_statement(c, s).fault is Some,
    decreases s, 0nat,
{
    match s {
        Statement::Block(block) => {
            lemma_enter_loop_free(c, BlockType::Block);
            lemma_stray_statements_fail(c.enter_block(BlockType::Block), block.body@, 0);
        },
        Statement::If(i) => {
            let entered = c.enter_block(BlockType::If);
            lemma_enter_loop_free(c, BlockType::If);
            let first = lower_branch(entered, i.if_statement);
            if any_strays(i.if_statement.statements@, 0) {
                lemma_stray_branch_fails(entered, i.if_statement);
            } else if first.fault is None {
                lemma_branch_keeps_shape(entered, i.if_statement);
                lemma_loop_free_by_shape(entered.blocks, first.state.blocks);
                let others = lower_else_ifs(first.state, i.else_if_statements@, 0);
                if any_branch_strays(i.else_if_statements@, 0) {
                    lemma_stray_branches_fail(first.state, i.else_if_statements@, 0);
                } else if others.fault is None {
                    lemma_else_ifs_keep_shape(first.state, i.else_if_statements@, 0);
                    lemma_loop_free_by_shape(first.state.blocks, others.state.blocks);
                    match i.else_statement {
                        Some(e) => {
                            lemma_stray_statements_fail(others.state, e.statements@, 0);
                        },
                        None => {},
                    }
                }
            }
        },
        _ => {},
    }
}

/// See [`law_stray_jump_fails`].
pub proof fn lemma_stray_statements_fail(c: CompilerView, body: Seq<Statement>, from: int)
    requires
        nearest_loop(c.blocks) is None,
        any_strays(body, from),
    ensures
        lower_statements(c, body, from).fault is Some,
    decreases body, body.len() - from,
{
    if 0 <= from < body.len() {
        let first = lower_statement(c, body[from]);
        if strays(body[from]) {
            law_stray_jump_fails(c, body[from]);
        } else if first.fault is None {
            lemma_statement_keeps_shape(c, body[from]);
            lemma_loop_free_by_shape(c.blocks, first.state.blocks);
            lemma_stray_statements_fail(first.state, body, from + 1);
        }
    }
}

/// See [`law_stray_jump_fails`].
pub proof fn lemma_stray_branch_fails(c: CompilerView, branch: ConditionalStatement)
    requires
        nearest_loop(c.blocks) is None,
        any_strays(branch.statements@, 0),
    ensures
        lower_branch(c, branch).fault is Some,
    decreases branch, 0nat,
{
    let condition = lower_expression(c, branch.condition);
    if condition.fault is None {
        lemma_expression_keeps_blocks(c, branch.condition);
        lemma_stray_statements_fail(
            condition.state.emit_jump(Instruction::JumpIfFalse(0)),
            branch.statements@,
            0,
        );
    }
}

/// See [`law_stray_jump_fails`].
pub proof fn lemma_stray_branches_fail(c: CompilerView, branches: Seq<ElseIfStatement>, from: int)
    requires
        nearest_loop(c.blocks) is None,
        any_branch_strays(branches, from),
    ensures
        lower_else_ifs(c, branches, from).fault is Some,
    decreases branches, branches.len() - from,
{
    if 0 <= from < branches.len() {
        let first = lower_branch(c, branches[from].0);
        if any_strays(branches[from].0.statements@, 0) {
            lemma_stray_branch_fails(c, branches[from].0);
        } else if first.fault is None {
            lemma_branch_keeps_shape(c, branches[from].0);
            lemma_loop_free_by_shape(c.blocks, first.state.blocks);
            lemma_stray_branches_fail(first.state, branches, from + 1);
        }
    }
}

} // verus!
