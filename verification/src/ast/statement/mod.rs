//! Statements.

use vstd::prelude::*;
use vstd::std_specs::convert::FromSpecImpl;

use crate::ast::expression::Expression;
use crate::ast::model::{lemma_statement_views, statement_view, statement_views, StatementView};
use crate::ast::statement::declare_assign_statement::{AssignmentStatement, DeclarationStatement};
use crate::ast::statement::for_statement::ForStatement;
use crate::ast::statement::if_statement::IfStatement;
use crate::ast::statement::while_statement::WhileStatement;
use crate::compiler::Compiler;
use crate::compiler::error::{fault_of, CompilerError, CompilerResult};
use crate::compiler::instruction::Instruction;
use crate::compiler::laws::frames::{lemma_exit_restores_shape, lemma_statements_keep_shape};
use crate::compiler::lowering::{
    all_lowerable, else_ifs_lowerable, lower_statement, lower_statements, lowerable,
};
use crate::compiler::model::{BlockType, Lowering};
use crate::parser::{
    lemma_node_view, trees, Node, ParserError, ParserErrorKind, ParseResult, Rule, Tree,
};
use crate::parser::builder::{block_of, expected, joined, statement_of, statements_of};

pub mod declare_assign_statement;
pub mod for_statement;
pub mod if_statement;
pub mod while_statement;

verus! {

/// A statement of the language.
#[derive(Debug, PartialEq, Eq)]
pub enum Statement {
    Print(PrintStatement),
    If(IfStatement),
    Declaration(DeclarationStatement),
    Assignment(AssignmentStatement),
    While(WhileStatement),
    For(ForStatement),
    Block(BlockStatement),
    Continue(ContinueStatement),
    Break(BreakStatement),
    Expression(ExpressionStatement),
}

/// `print <expression>;`
#[derive(Debug, PartialEq, Eq)]
pub struct PrintStatement {
    pub expression: Expression,
}

/// `{ <statements> }`
#[derive(Debug, PartialEq, Eq)]
pub struct BlockStatement {
    pub body: Vec<Statement>,
}

/// `break;`
#[derive(Debug, PartialEq, Eq, Clone, Copy, Structural)]
pub struct BreakStatement;

/// `continue;`
#[derive(Debug, PartialEq, Eq, Clone, Copy, Structural)]
pub struct ContinueStatement;

/// `<expression>;`
#[derive(Debug, PartialEq, Eq)]
pub struct ExpressionStatement {
    pub expression: Expression,
}


/// Whether every statement of `body` from `from` on can be compiled.
pub fn are_lowerable(body: &Vec<Statement>) -> (r: bool)
    ensures
        r == all_lowerable(body@, 0),
    decreases body,
{
    let mut i: usize = 0;
    while i < body.len()
        invariant
            0 <= i <= body.len(),
            all_lowerable(body@, 0) == all_lowerable(body@, i as int),
        decreases body.len() - i,
    {
        if !body[i].is_lowerable() {
            return false;
        }
        i += 1;
    }
    true
}

/// Compiles the statements of `body` in order, up to the first failure.
pub fn compile_statements(body: &Vec<Statement>, compiler: &mut Compiler) -> (r: CompilerResult<()>)
    requires
        old(compiler).wf(),
        all_lowerable(body@, 0),
    ensures
        final(compiler).wf(),
        (Lowering { state: final(compiler)@, fault: fault_of(r) }) == lower_statements(
            old(compiler)@,
            body@,
            0,
        ),
    decreases body,
{
    let mut i: usize = 0;
    while i < body.len()
        invariant
            0 <= i <= body.len(),
            compiler.wf(),
            all_lowerable(body@, i as int),
            lower_statements(old(compiler)@, body@, 0) == lower_statements(
                compiler@,
                body@,
                i as int,
            ),
        decreases body.len() - i,
    {
        match body[i].compile(compiler) {
            Ok(_) => {},
            Err(error) => {
                return Err(error);
            },
        }
        i += 1;
    }
    Ok(())
}

impl Statement {
    /// Whether the statement can be compiled: it holds no `for` loop.
    pub fn is_lowerable(&self) -> (r: bool)
        ensures
            r == lowerable(*self),
        decreases self,
    {
        match self {
            Statement::For(_) => false,
            Statement::Block(block) => are_lowerable(&block.body),
            Statement::While(w) => are_lowerable(&w.body),
            Statement::If(i) => {
                if !are_lowerable(&i.if_statement.statements) {
                    return false;
                }
                let mut k: usize = 0;
                while k < i.else_if_statements.len()
                    invariant
                        0 <= k <= i.else_if_statements.len(),
                        self matches Statement::If(j) && j == i,
                        else_ifs_lowerable(i.else_if_statements@, 0) == else_ifs_lowerable(
                            i.else_if_statements@,
                            k as int,
                        ),
                    decreases i.else_if_statements.len() - k,
                {
                    if !are_lowerable(&i.else_if_statements[k].0.statements) {
                        return false;
                    }
                    k += 1;
                }
                match &i.else_statement {
                    Some(e) => are_lowerable(&e.statements),
                    None => true,
                }
            },
            _ => true,
        }
    }

    /// Emits the instructions of the statement.
    ///
    /// The first failure ends the work; what was emitted until then stays.
    /// The statement must hold no `for` loop, for which there are no
    /// instructions yet: see [`Statement::is_lowerable`].
    pub fn compile(&self, compiler: &mut Compiler) -> (r: CompilerResult<()>)
        requires
            old(compiler).wf(),
            lowerable(*self),
        ensures
            final(compiler).wf(),
            (Lowering { state: final(compiler)@, fault: fault_of(r) }) == lower_statement(
                old(compiler)@,
                *self,
            ),
        decreases self,
    {
        match self {
            Statement::Print(s) => s.compile(compiler),
            Statement::Block(s) => s.compile(compiler),
            Statement::If(s) => s.compile(compiler),
            Statement::Declaration(s) => s.compile(compiler),
            Statement::Assignment(s) => s.compile(compiler),
            Statement::While(s) => s.compile(compiler),
            Statement::For(_) => Ok(()),
            Statement::Continue(s) => s.compile(compiler),
            Statement::Break(s) => s.compile(compiler),
            Statement::Expression(s) => s.compile(compiler),
        }
    }
}

impl PrintStatement {
    /// Compiles the expression and emits the instruction that shows its
    /// value.
    pub fn compile(&self, compiler: &mut Compiler) -> (r: CompilerResult<()>)
        requires
            old(compiler).wf(),
        ensures
            final(compiler).wf(),
            (Lowering { state: final(compiler)@, fault: fault_of(r) }) == lower_statement(
                old(compiler)@,
                Statement::Print(*self),
            ),
    {
        self.expression.compile(compiler)?;
        compiler.emit(Instruction::Display);
        Ok(())
    }
}

impl BlockStatement {
    /// Compiles the statements of the block inside a frame of their own.
    pub fn compile(&self, compiler: &mut Compiler) -> (r: CompilerResult<()>)
        requires
            old(compiler).wf(),
            lowerable(Statement::Block(*self)),
        ensures
            final(compiler).wf(),
            (Lowering { state: final(compiler)@, fault: fault_of(r) }) == lower_statement(
                old(compiler)@,
                Statement::Block(*self),
            ),
        decreases self,
    {
        compiler.enter_block(BlockType::Block);
        let ghost entered = compiler@;
        compile_statements(&self.body, compiler)?;
        proof {
            lemma_statements_keep_shape(entered, self.body@, 0);
            lemma_exit_restores_shape(old(compiler)@, BlockType::Block, compiler@);
        }
        compiler.exit_block(BlockType::Block)
    }
}

impl BreakStatement {
    /// Emits a jump that the exit of the innermost loop will aim.
    ///
    /// Fails with `BreakOutsideLoop` when no loop is being compiled; the
    /// jump stays behind.
    pub fn compile(&self, compiler: &mut Compiler) -> (r: CompilerResult<()>)
        requires
            old(compiler).wf(),
        ensures
            final(compiler).wf(),
            (Lowering { state: final(compiler)@, fault: fault_of(r) }) == lower_statement(
                old(compiler)@,
                Statement::Break(*self),
            ),
    {
        let jump = compiler.emit_untargeted_jump();
        match compiler.target_jump_on_loop_exit(jump) {
            Some(_) => Ok(()),
            None => Err(CompilerError::BreakOutsideLoop),
        }
    }
}

impl ExpressionStatement {
    /// Compiles the expression and emits the instruction that drops its
    /// value.
    pub fn compile(&self, compiler: &mut Compiler) -> (r: CompilerResult<()>)
        requires
            old(compiler).wf(),
        ensures
            final(compiler).wf(),
            (Lowering { state: final(compiler)@, fault: fault_of(r) }) == lower_statement(
                old(compiler)@,
                Statement::Expression(*self),
            ),
    {
        self.expression.compile(compiler)?;
        compiler.emit(Instruction::Pop);
        Ok(())
    }
}

impl ContinueStatement {
    /// Emits a jump back to the head of the innermost loop.
    ///
    /// Fails with `ContinueOutsideLoop` when no loop is being compiled,
    /// and with `InstructionLimitReached` when the head does not fit the
    /// operand of a jump. A failed call emits nothing.
    pub fn compile(&self, compiler: &mut Compiler) -> (r: CompilerResult<()>)
        requires
            old(compiler).wf(),
        ensures
            final(compiler).wf(),
            (Lowering { state: final(compiler)@, fault: fault_of(r) }) == lower_statement(
                old(compiler)@,
                Statement::Continue(*self),
            ),
    {
        match compiler.loop_head() {
            Some(head) => {
                let target = head.target()?;
                compiler.emit(Instruction::Jump(target));
                Ok(())
            },
            None => Err(CompilerError::ContinueOutsideLoop),
        }
    }
}


/// What a function that reads one kind of statement from a node of the
/// rule `rule` has to return; `statement` is the statement it made, if it
/// made one.
pub open spec fn builds(
    result: Option<ParserError>,
    statement: Option<Statement>,
    tree: Tree,
    rule: Rule,
) -> bool {
    match result {
        None => statement matches Some(s) && expected(tree, rule) == Ok::<
            StatementView,
            ParserError,
        >(s@),
        Some(error) => expected(tree, rule) == Err::<StatementView, ParserError>(error),
    }
}

/// The statements that the nodes stand for, up to the end of the nodes or
/// to a node of the rule `EOI`.
pub fn build_statements(nodes: &Vec<Node>) -> (r: ParseResult<Vec<Statement>>)
    ensures
        match r {
            Ok(statements) => statements_of(trees(nodes@), 0) == Ok::<
                Seq<StatementView>,
                ParserError,
            >(statement_views(statements@, 0)),
            Err(error) => statements_of(trees(nodes@), 0) == Err::<
                Seq<StatementView>,
                ParserError,
            >(error),
        },
    decreases nodes,
{
    let mut statements: Vec<Statement> = Vec::new();
    let mut i: usize = 0;
    let ghost all = trees(nodes@);
    proof {
        assert(statement_views(statements@, 0) + Seq::<StatementView>::empty()
            =~= statement_views(statements@, 0));
        match statements_of(all, 0) {
            Ok(rest) => {
                assert(Seq::<StatementView>::empty() + rest =~= rest);
            },
            Err(_) => {},
        }
    }
    while i < nodes.len()
        invariant
            0 <= i <= nodes@.len(),
            all == trees(nodes@),
            statements_of(all, 0) == joined(
                statement_views(statements@, 0),
                statements_of(all, i as int),
            ),
        decreases nodes@.len() - i,
    {
        if nodes[i].rule == Rule::EOI {
            proof {
                lemma_node_view(&nodes[i as int]);
                assert(statement_views(statements@, 0) + Seq::<StatementView>::empty()
                    =~= statement_views(statements@, 0));
            }
            return Ok(statements);
        }
        proof {
            lemma_node_view(&nodes[i as int]);
        }
        let ghost before = statements@;
        match Statement::parse(&nodes[i]) {
            Ok(statement) => {
                statements.push(statement);
                proof {
                    lemma_statement_views(before, 0);
                    lemma_statement_views(statements@, 0);
                    assert(statement_views(statements@, 0) =~= statement_views(before, 0)
                        + seq![statement_view(statement)]);
                    match statements_of(all, i + 1) {
                        Ok(rest) => {
                            assert(statement_views(before, 0) + (seq![statement_view(statement)]
                                + rest) =~= statement_views(statements@, 0) + rest);
                        },
                        Err(_) => {},
                    }
                }
            },
            Err(error) => {
                return Err(error);
            },
        }
        i += 1;
    }
    proof {
        assert(statement_views(statements@, 0) + Seq::<StatementView>::empty()
            =~= statement_views(statements@, 0));
    }
    Ok(statements)
}

/// The statements that a `block_statement` node stands for.
pub fn build_block(node: &Node) -> (r: ParseResult<Vec<Statement>>)
    ensures
        match r {
            Ok(statements) => block_of(node@) == Ok::<Seq<StatementView>, ParserError>(
                statement_views(statements@, 0),
            ),
            Err(error) => block_of(node@) == Err::<Seq<StatementView>, ParserError>(error),
        },
    decreases node, 0nat,
{
    proof {
        lemma_node_view(node);
    }
    if node.rule == Rule::block_statement {
        build_statements(&node.children)
    } else {
        Err(ParserError::for_pair(node, ParserErrorKind::WIP))
    }
}

impl Statement {
    /// The statement that a node stands for.
    pub fn parse(node: &Node) -> (r: ParseResult<Self>)
        ensures
            match r {
                Ok(statement) => statement_of(node@) == Ok::<StatementView, ParserError>(
                    statement@,
                ),
                Err(error) => statement_of(node@) == Err::<StatementView, ParserError>(error),
            },
        decreases node, 2nat,
    {
        proof {
            lemma_node_view(node);
        }
        match node.rule {
            Rule::print_statement => match PrintStatement::parse(node) {
                Ok(s) => Ok(Statement::Print(s)),
                Err(error) => Err(error),
            },
            Rule::if_statement => match IfStatement::parse(node) {
                Ok(s) => Ok(Statement::If(s)),
                Err(error) => Err(error),
            },
            Rule::declaration_statement => match DeclarationStatement::parse(node) {
                Ok(s) => Ok(Statement::Declaration(s)),
                Err(error) => Err(error),
            },
            Rule::assignment_statement => match AssignmentStatement::parse(node) {
                Ok(s) => Ok(Statement::Assignment(s)),
                Err(error) => Err(error),
            },
            Rule::while_statement => match WhileStatement::parse(node) {
                Ok(s) => Ok(Statement::While(s)),
                Err(error) => Err(error),
            },
            Rule::for_statement => match ForStatement::parse(node) {
                Ok(s) => Ok(Statement::For(s)),
                Err(error) => Err(error),
            },
            Rule::block_statement => match BlockStatement::parse(node) {
                Ok(s) => Ok(Statement::Block(s)),
                Err(error) => Err(error),
            },
            Rule::continue_statement => match ContinueStatement::parse(node) {
                Ok(s) => Ok(Statement::Continue(s)),
                Err(error) => Err(error),
            },
            Rule::break_statement => match BreakStatement::parse(node) {
                Ok(s) => Ok(Statement::Break(s)),
                Err(error) => Err(error),
            },
            Rule::expression_statement => match ExpressionStatement::parse(node) {
                Ok(s) => Ok(Statement::Expression(s)),
                Err(error) => Err(error),
            },
            _ => Err(ParserError::for_pair(node, ParserErrorKind::WIP)),
        }
    }
}

impl PrintStatement {
    /// The statement that a `print_statement` node stands for: the node of
    /// the keyword is checked and dropped, the expression is kept.
    pub fn parse(node: &Node) -> (r: ParseResult<Self>)
        ensures
            match r {
                Ok(s) => builds(None, Some(Statement::Print(s)), node@, Rule::print_statement),
                Err(error) => builds(Some(error), None, node@, Rule::print_statement),
            },
    {
        proof {
            lemma_node_view(node);
        }
        if node.rule == Rule::print_statement && node.children.len() == 2
            && node.children[0].rule == Rule::k_print {
            proof {
                lemma_node_view(&node.children[0]);
            }
            let expression = Expression::parse(&node.children[1])?;
            Ok(PrintStatement { expression })
        } else {
            Err(ParserError::for_pair(node, ParserErrorKind::WIP))
        }
    }
}

impl BlockStatement {
    /// The statement that a `block_statement` node stands for.
    pub fn parse(node: &Node) -> (r: ParseResult<Self>)
        ensures
            match r {
                Ok(s) => builds(None, Some(Statement::Block(s)), node@, Rule::block_statement),
                Err(error) => builds(Some(error), None, node@, Rule::block_statement),
            },
        decreases node, 1nat,
    {
        proof {
            lemma_node_view(node);
        }
        let body = build_block(node)?;
        Ok(BlockStatement { body })
    }
}

impl BreakStatement {
    /// The statement that a `break_statement` node stands for.
    pub fn parse(node: &Node) -> (r: ParseResult<Self>)
        ensures
            match r {
                Ok(s) => builds(None, Some(Statement::Break(s)), node@, Rule::break_statement),
                Err(error) => builds(Some(error), None, node@, Rule::break_statement),
            },
    {
        proof {
            lemma_node_view(node);
        }
        if node.rule == Rule::break_statement {
            Ok(BreakStatement)
        } else {
            Err(ParserError::for_pair(node, ParserErrorKind::WIP))
        }
    }
}

impl ContinueStatement {
    /// The statement that a `continue_statement` node stands for.
    pub fn parse(node: &Node) -> (r: ParseResult<Self>)
        ensures
            match r {
                Ok(s) => builds(
                    None,
                    Some(Statement::Continue(s)),
                    node@,
                    Rule::continue_statement,
                ),
                Err(error) => builds(Some(error), None, node@, Rule::continue_statement),
            },
    {
        proof {
            lemma_node_view(node);
        }
        if node.rule == Rule::continue_statement {
            Ok(ContinueStatement)
        } else {
            Err(ParserError::for_pair(node, ParserErrorKind::WIP))
        }
    }
}

impl ExpressionStatement {
    /// The statement that an `expression_statement` node stands for.
    pub fn parse(node: &Node) -> (r: ParseResult<Self>)
        ensures
            match r {
                Ok(s) => builds(
                    None,
                    Some(Statement::Expression(s)),
                    node@,
                    Rule::expression_statement,
                ),
                Err(error) => builds(Some(error), None, node@, Rule::expression_statement),
            },
    {
        proof {
            lemma_node_view(node);
        }
        if node.rule == Rule::expression_statement && node.children.len() == 1 {
            let expression = Expression::parse(&node.children[0])?;
            Ok(ExpressionStatement { expression })
        } else {
            Err(ParserError::for_pair(node, ParserErrorKind::WIP))
        }
    }
}


impl From<PrintStatement> for Statement {
    fn from(v: PrintStatement) -> (r: Self) {
        Statement::Print(v)
    }
}

impl FromSpecImpl<PrintStatement> for Statement {
    open spec fn obeys_from_spec() -> bool {
        true
    }

    open spec fn from_spec(v: PrintStatement) -> Self {
        Statement::Print(v)
    }
}

impl From<IfStatement> for Statement {
    fn from(v: IfStatement) -> (r: Self) {
        Statement::If(v)
    }
}

impl FromSpecImpl<IfStatement> for Statement {
    open spec fn obeys_from_spec() -> bool {
        true
    }

    open spec fn from_spec(v: IfStatement) -> Self {
        Statement::If(v)
    }
}

impl From<DeclarationStatement> for Statement {
    fn from(v: DeclarationStatement) -> (r: Self) {
        Statement::Declaration(v)
    }
}

impl FromSpecImpl<DeclarationStatement> for Statement {
    open spec fn obeys_from_spec() -> bool {
        true
    }

    open spec fn from_spec(v: DeclarationStatement) -> Self {
        Statement::Declaration(v)
    }
}

impl From<AssignmentStatement> for Statement {
    fn from(v: AssignmentStatement) -> (r: Self) {
        Statement::Assignment(v)
    }
}

impl FromSpecImpl<AssignmentStatement> for Statement {
    open spec fn obeys_from_spec() -> bool {
        true
    }

    open spec fn from_spec(v: AssignmentStatement) -> Self {
        Statement::Assignment(v)
    }
}

impl From<WhileStatement> for Statement {
    fn from(v: WhileStatement) -> (r: Self) {
        Statement::While(v)
    }
}

impl FromSpecImpl<WhileStatement> for Statement {
    open spec fn obeys_from_spec() -> bool {
        true
    }

    open spec fn from_spec(v: WhileStatement) -> Self {
        Statement::While(v)
    }
}

impl From<ForStatement> for Statement {
    fn from(v: ForStatement) -> (r: Self) {
        Statement::For(v)
    }
}

impl FromSpecImpl<ForStatement> for Statement {
    open spec fn obeys_from_spec() -> bool {
        true
    }

    open spec fn from_spec(v: ForStatement) -> Self {
        Statement::For(v)
    }
}

impl From<BlockStatement> for Statement {
    fn from(v: BlockStatement) -> (r: Self) {
        Statement::Block(v)
    }
}

impl FromSpecImpl<BlockStatement> for Statement {
    open spec fn obeys_from_spec() -> bool {
        true
    }

    open spec fn from_spec(v: BlockStatement) -> Self {
        Statement::Block(v)
    }
}

impl From<ContinueStatement> for Statement {
    fn from(v: ContinueStatement) -> (r: Self) {
        Statement::Continue(v)
    }
}

impl FromSpecImpl<ContinueStatement> for Statement {
    open spec fn obeys_from_spec() -> bool {
        true
    }

    open spec fn from_spec(v: ContinueStatement) -> Self {
        Statement::Continue(v)
    }
}

impl From<BreakStatement> for Statement {
    fn from(v: BreakStatement) -> (r: Self) {
        Statement::Break(v)
    }
}

impl FromSpecImpl<BreakStatement> for Statement {
    open spec fn obeys_from_spec() -> bool {
        true
    }

    open spec fn from_spec(v: BreakStatement) -> Self {
        Statement::Break(v)
    }
}

impl From<ExpressionStatement> for Statement {
    fn from(v: ExpressionStatement) -> (r: Self) {
        Statement::Expression(v)
    }
}

impl FromSpecImpl<ExpressionStatement> for Statement {
    open spec fn obeys_from_spec() -> bool {
        true
    }

    open spec fn from_spec(v: ExpressionStatement) -> Self {
        Statement::Expression(v)
    }
}

} // verus!
