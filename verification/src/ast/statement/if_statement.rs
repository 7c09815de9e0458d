//! Conditionals.

use vstd::prelude::*;

use crate::ast::expression::Expression;
use crate::ast::model::{
    branch_view, branch_views, lemma_branch_views, statement_views, BranchView, StatementView,
};
use crate::ast::statement::{build_block, builds, compile_statements, Statement};
use crate::compiler::Compiler;
use crate::compiler::error::{fault_of, CompilerResult};
use crate::compiler::laws::frames::{
    lemma_branch_keeps_shape, lemma_else_ifs_keep_shape, lemma_exit_restores_shape,
    lemma_extends_keeps_jumps, lemma_statements_keep_shape,
};
use crate::compiler::lowering::{
    all_lowerable, else_ifs_lowerable, lower_branch, lower_else_ifs, lower_statement,
    lower_statements, lowerable,
};
use crate::compiler::model::{BlockType, Lowering};
use crate::parser::{lemma_node_view, trees, Node, ParserError, ParserErrorKind, ParseResult, Rule};
use crate::parser::builder::{
    branch_of, conditional_children, else_if_of, else_ifs_of, else_of, joined,
};

verus! {

/// A condition and the statements that run when it holds.
#[derive(Debug, PartialEq, Eq)]
pub struct ConditionalStatement {
    pub condition: Expression,
    pub statements: Vec<Statement>,
}

/// One `else if` branch.
#[derive(Debug, PartialEq, Eq)]
pub struct ElseIfStatement(pub ConditionalStatement);

/// The final `else` branch.
#[derive(Debug, PartialEq, Eq)]
pub struct ElseStatement {
    pub statements: Vec<Statement>,
}

/// `if` with its `else if` branches and its `else` branch, in source order.
#[derive(Debug, PartialEq, Eq)]
pub struct IfStatement {
    pub if_statement: ConditionalStatement,
    pub else_if_statements: Vec<ElseIfStatement>,
    pub else_statement: Option<ElseStatement>,
}

impl IfStatement {
    pub fn has_else(&self) -> (r: bool)
        ensures
            r == self.else_statement.is_some(),
    {
        self.else_statement.is_some()
    }

    pub fn has_else_if(&self) -> (r: bool)
        ensures
            r == (self.else_if_statements@.len() > 0),
    {
        self.else_if_statements.len() > 0
    }
}


impl ConditionalStatement {
    /// Compiles one branch: the condition, a jump over the branch if it
    /// fails, the statements, a jump to the exit of the whole `if`, and
    /// the landing place of the failed condition.
    pub fn compile(&self, compiler: &mut Compiler) -> (r: CompilerResult<()>)
        requires
            old(compiler).wf(),
            all_lowerable(self.statements@, 0),
        ensures
            final(compiler).wf(),
            (Lowering { state: final(compiler)@, fault: fault_of(r) }) == lower_branch(
                old(compiler)@,
                *self,
            ),
        decreases self,
    {
        self.condition.compile(compiler)?;
        let condition_failed = compiler.emit_untargeted_jump_if_false();
        let ghost emitted = compiler@;
        compile_statements(&self.statements, compiler)?;
        let exit = compiler.emit_untargeted_jump();
        let ghost left = compiler@;
        compiler.target_jump_on_exit(BlockType::If, exit);
        proof {
            lemma_statements_keep_shape(emitted, self.statements@, 0);
            lemma_extends_keeps_jumps(emitted, compiler@, condition_failed.address());
        }
        compiler.target_jump(condition_failed)
    }
}

impl ElseIfStatement {
    /// Compiles the branch; see [`ConditionalStatement::compile`].
    pub fn compile(&self, compiler: &mut Compiler) -> (r: CompilerResult<()>)
        requires
            old(compiler).wf(),
            all_lowerable(self.0.statements@, 0),
        ensures
            final(compiler).wf(),
            (Lowering { state: final(compiler)@, fault: fault_of(r) }) == lower_branch(
                old(compiler)@,
                self.0,
            ),
        decreases self,
    {
        self.0.compile(compiler)
    }
}

impl ElseStatement {
    /// Compiles the statements of the branch in order.
    pub fn compile(&self, compiler: &mut Compiler) -> (r: CompilerResult<()>)
        requires
            old(compiler).wf(),
            all_lowerable(self.statements@, 0),
        ensures
            final(compiler).wf(),
            (Lowering { state: final(compiler)@, fault: fault_of(r) }) == lower_statements(
                old(compiler)@,
                self.statements@,
                0,
            ),
        decreases self,
    {
        compile_statements(&self.statements, compiler)
    }
}

impl IfStatement {
    /// Compiles the branches in source order inside one frame, at whose
    /// exit every branch that ran to its end continues.
    pub fn compile(&self, compiler: &mut Compiler) -> (r: CompilerResult<()>)
        requires
            old(compiler).wf(),
            lowerable(Statement::If(*self)),
        ensures
            final(compiler).wf(),
            (Lowering { state: final(compiler)@, fault: fault_of(r) }) == lower_statement(
                old(compiler)@,
                Statement::If(*self),
            ),
        decreases self,
    {
        compiler.enter_block(BlockType::If);
        let ghost entered = compiler@;
        self.if_statement.compile(compiler)?;
        let ghost first = compiler@;
        let mut k: usize = 0;
        while k < self.else_if_statements.len()
            invariant
                0 <= k <= self.else_if_statements.len(),
                compiler.wf(),
                else_ifs_lowerable(self.else_if_statements@, k as int),
                entered == old(compiler)@.enter_block(BlockType::If),
                lower_branch(entered, self.if_statement) == first.ok(),
                lower_else_ifs(first, self.else_if_statements@, 0) == lower_else_ifs(
                    compiler@,
                    self.else_if_statements@,
                    k as int,
                ),
            decreases self.else_if_statements.len() - k,
        {
            match self.else_if_statements[k].compile(compiler) {
                Ok(_) => {},
                Err(error) => {
                    return Err(error);
                },
            }
            k += 1;
        }
        let ghost others = compiler@;
        match &self.else_statement {
            Some(else_statement) => {
                else_statement.compile(compiler)?;
                proof {
                    lemma_statements_keep_shape(others, else_statement.statements@, 0);
                }
            },
            None => {},
        }
        proof {
            lemma_branch_keeps_shape(entered, self.if_statement);
            lemma_else_ifs_keep_shape(first, self.else_if_statements@, 0);
            lemma_exit_restores_shape(old(compiler)@, BlockType::If, compiler@);
        }
        compiler.exit_block(BlockType::If)
    }
}


impl ConditionalStatement {
    /// The branch that the children of `node` from `from` on stand for: a
    /// `k_if`, an expression and a block.
    pub fn parse(node: &Node, from: usize) -> (r: ParseResult<Self>)
        ensures
            match r {
                Ok(branch) => branch_of(node@, from as int) == Ok::<BranchView, ParserError>(
                    branch_view(branch),
                ),
                Err(error) => branch_of(node@, from as int) == Err::<BranchView, ParserError>(
                    error,
                ),
            },
        decreases node, 0nat,
    {
        proof {
            lemma_node_view(node);
        }
        if node.children.len() >= 3 && node.children.len() - 3 == from
            && node.children[from].rule == Rule::k_if {
            proof {
                lemma_node_view(&node.children[from as int]);
            }
            let condition = Expression::parse(&node.children[from + 1])?;
            let statements = build_block(&node.children[from + 2])?;
            Ok(ConditionalStatement { condition, statements })
        } else {
            Err(ParserError::for_pair(node, ParserErrorKind::WIP))
        }
    }
}

impl ElseIfStatement {
    /// The branch that an `else_if_body` node stands for.
    pub fn parse(node: &Node) -> (r: ParseResult<Self>)
        ensures
            match r {
                Ok(branch) => else_if_of(node@) == Ok::<BranchView, ParserError>(
                    branch_view(branch.0),
                ),
                Err(error) => else_if_of(node@) == Err::<BranchView, ParserError>(error),
            },
        decreases node, 1nat,
    {
        proof {
            lemma_node_view(node);
        }
        if node.rule == Rule::else_if_body && node.children.len() == 4 && node.children[0].rule
            == Rule::k_else {
            proof {
                lemma_node_view(&node.children[0]);
            }
            Ok(ElseIfStatement(ConditionalStatement::parse(node, 1)?))
        } else {
            Err(ParserError::for_pair(node, ParserErrorKind::WIP))
        }
    }
}

impl ElseStatement {
    /// The branch that an `else_body` node stands for.
    pub fn parse(node: &Node) -> (r: ParseResult<Self>)
        ensures
            match r {
                Ok(branch) => else_of(node@) == Ok::<Seq<StatementView>, ParserError>(
                    statement_views(branch.statements@, 0),
                ),
                Err(error) => else_of(node@) == Err::<Seq<StatementView>, ParserError>(error),
            },
        decreases node, 1nat,
    {
        proof {
            lemma_node_view(node);
        }
        if node.rule == Rule::else_body && node.children.len() == 2 && node.children[0].rule
            == Rule::k_else {
            proof {
                lemma_node_view(&node.children[0]);
            }
            let statements = build_block(&node.children[1])?;
            Ok(ElseStatement { statements })
        } else {
            Err(ParserError::for_pair(node, ParserErrorKind::WIP))
        }
    }
}

/// The `else if` branches that the nodes from the second to the one
/// before `upto` stand for.
fn build_else_ifs(nodes: &Vec<Node>, upto: usize) -> (r: ParseResult<Vec<ElseIfStatement>>)
    requires
        1 <= upto <= nodes@.len(),
    ensures
        match r {
            Ok(branches) => else_ifs_of(trees(nodes@), 1, upto as int) == Ok::<
                Seq<BranchView>,
                ParserError,
            >(branch_views(branches@, 0)),
            Err(error) => else_ifs_of(trees(nodes@), 1, upto as int) == Err::<
                Seq<BranchView>,
                ParserError,
            >(error),
        },
    decreases nodes,
{
    let mut branches: Vec<ElseIfStatement> = Vec::new();
    let mut k: usize = 1;
    let ghost all = trees(nodes@);
    proof {
        match else_ifs_of(all, 1, upto as int) {
            Ok(rest) => {
                assert(Seq::<BranchView>::empty() + rest =~= rest);
            },
            Err(_) => {},
        }
    }
    while k < upto
        invariant
            1 <= k <= upto <= nodes@.len(),
            all == trees(nodes@),
            else_ifs_of(all, 1, upto as int) == joined(
                branch_views(branches@, 0),
                else_ifs_of(all, k as int, upto as int),
            ),
        decreases upto - k,
    {
        let ghost before = branches@;
        let ghost here = else_ifs_of(all, k as int, upto as int);
        let ghost next = else_ifs_of(all, k + 1, upto as int);
        assert(all[k as int] == nodes@[k as int]@);
        match ElseIfStatement::parse(&nodes[k]) {
            Ok(branch) => {
                branches.push(branch);
                proof {
                    let one = seq![branch_view(branch.0)];
                    assert(here == joined(one, next));
                    lemma_branch_views(before, 0);
                    lemma_branch_views(branches@, 0);
                    assert(branch_views(branches@, 0) =~= branch_views(before, 0) + one);
                    match next {
                        Ok(rest) => {
                            assert(branch_views(before, 0) + (one + rest) =~= (branch_views(
                                before,
                                0,
                            ) + one) + rest);
                        },
                        Err(_) => {},
                    }
                }
            },
            Err(error) => {
                assert(here == Err::<Seq<BranchView>, ParserError>(error));
                return Err(error);
            },
        }
        k += 1;
    }
    proof {
        assert(branch_views(branches@, 0) + Seq::<BranchView>::empty() =~= branch_views(
            branches@,
            0,
        ));
    }
    Ok(branches)
}

impl IfStatement {
    /// The statement that an `if_statement` node stands for: the
    /// `if_body`, the `else_if_body` nodes and the `else_body` become its
    /// branches, in source order.
    pub fn parse(node: &Node) -> (r: ParseResult<Self>)
        ensures
            match r {
                Ok(s) => builds(None, Some(Statement::If(s)), node@, Rule::if_statement),
                Err(error) => builds(Some(error), None, node@, Rule::if_statement),
            },
        decreases node, 1nat,
    {
        proof {
            lemma_node_view(node);
        }
        let count: usize = node.children.len();
        if node.rule != Rule::if_statement || count < 1 || node.children[0].rule
            != Rule::if_body {
            proof {
                if count >= 1 {
                    lemma_node_view(&node.children[0]);
                }
            }
            return Err(ParserError::for_pair(node, ParserErrorKind::WIP));
        }
        proof {
            lemma_node_view(&node.children[0]);
            lemma_node_view(&node.children[count - 1]);
        }
        let if_statement = ConditionalStatement::parse(&node.children[0], 0)?;
        let upto: usize = if count > 1 && node.children[count - 1].rule == Rule::else_body {
            count - 1
        } else {
            count
        };
        assert(upto == conditional_children(node@));
        let else_if_statements = build_else_ifs(&node.children, upto)?;
        let else_statement = if upto < count {
            Some(ElseStatement::parse(&node.children[count - 1])?)
        } else {
            None
        };
        Ok(IfStatement { if_statement, else_if_statements, else_statement })
    }
}

} // verus!
