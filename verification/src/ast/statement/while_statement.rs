//! `while` loops.

use vstd::prelude::*;

use crate::ast::expression::Expression;
use crate::ast::statement::{build_block, builds, compile_statements, Statement};
use crate::compiler::Compiler;
use crate::compiler::error::{fault_of, CompilerResult};
use crate::compiler::instruction::Instruction;
use crate::compiler::laws::frames::{
    lemma_defer_keeps_shape, lemma_exit_restores_shape, lemma_expression_keeps_blocks,
    lemma_statements_keep_shape,
};
use crate::compiler::lowering::{lower_statement, lowerable};
use crate::compiler::model::{BlockType, Lowering};
use crate::parser::{lemma_node_view, Node, ParserError, ParserErrorKind, ParseResult, Rule};

verus! {

/// `while <expression> { <statements> }`
#[derive(Debug, PartialEq, Eq)]
pub struct WhileStatement {
    pub condition: Expression,
    pub body: Vec<Statement>,
}


impl WhileStatement {
    /// Compiles the loop: the condition at the head, a jump out of the loop
    /// if it fails, the body, and a jump back to the head.
    pub fn compile(&self, compiler: &mut Compiler) -> (r: CompilerResult<()>)
        requires
            old(compiler).wf(),
            lowerable(Statement::While(*self)),
        ensures
            final(compiler).wf(),
            (Lowering { state: final(compiler)@, fault: fault_of(r) }) == lower_statement(
                old(compiler)@,
                Statement::While(*self),
            ),
        decreases self,
    {
        compiler.enter_block(BlockType::While);
        let ghost entered = compiler@;

        let condition_label = compiler.place_label();
        self.condition.compile(compiler)?;
        let ghost condition = compiler@;
        let exit = compiler.emit_untargeted_jump_if_false();
        let ghost emitted = compiler@;
        compiler.target_jump_on_exit(BlockType::While, exit);
        let ghost guarded = compiler@;

        compile_statements(&self.body, compiler)?;
        let ghost body = compiler@;
        let target = condition_label.target()?;
        compiler.emit(Instruction::Jump(target));
        proof {
            lemma_expression_keeps_blocks(entered, self.condition);
            lemma_defer_keeps_shape(emitted, BlockType::While, condition.here());
            lemma_statements_keep_shape(guarded, self.body@, 0);
            lemma_exit_restores_shape(old(compiler)@, BlockType::While, compiler@);
        }
        compiler.exit_block(BlockType::While)
    }
}


impl WhileStatement {
    /// The statement that a `while_statement` node stands for.
    pub fn parse(node: &Node) -> (r: ParseResult<Self>)
        ensures
            match r {
                Ok(s) => builds(None, Some(Statement::While(s)), node@, Rule::while_statement),
                Err(error) => builds(Some(error), None, node@, Rule::while_statement),
            },
        decreases node, 1nat,
    {
        proof {
            lemma_node_view(node);
        }
        if node.rule == Rule::while_statement && node.children.len() == 3
            && node.children[0].rule == Rule::k_while {
            proof {
                lemma_node_view(&node.children[0]);
            }
            let condition = Expression::parse(&node.children[1])?;
            let body = build_block(&node.children[2])?;
            Ok(WhileStatement { condition, body })
        } else {
            Err(ParserError::for_pair(node, ParserErrorKind::WIP))
        }
    }
}

} // verus!
