//! The mathematical content of the syntax tree.

use vstd::prelude::*;

use crate::ast::IdentifierKind;
use crate::ast::expression::Expression;
use crate::ast::expression::binary::BinaryOperator;
use crate::ast::expression::unary::UnaryOperator;
use crate::ast::statement::Statement;
use crate::ast::statement::if_statement::{ConditionalStatement, ElseIfStatement};
use crate::ast::value::ValueView;

verus! {

/// The content of an [`Expression`].
pub enum ExpressionView {
    Value(ValueView),
    Binary(Box<ExpressionView>, BinaryOperator, Box<ExpressionView>),
    Unary(UnaryOperator, Box<ExpressionView>),
    Identifier(Seq<char>),
}

/// The content of a condition with its statements.
pub struct BranchView {
    pub condition: ExpressionView,
    pub statements: Seq<StatementView>,
}

/// The content of a [`Statement`].
pub enum StatementView {
    Print(ExpressionView),
    If { first: BranchView, others: Seq<BranchView>, otherwise: Option<Seq<StatementView>> },
    Declaration { name: Seq<char>, kind: IdentifierKind, initial_value: Option<ExpressionView> },
    Assignment { name: Seq<char>, value: ExpressionView },
    While { condition: ExpressionView, body: Seq<StatementView> },
    For { name: Seq<char>, iterator: ExpressionView, body: Seq<StatementView> },
    Block(Seq<StatementView>),
    Continue,
    Break,
    Expression(ExpressionView),
}

/// The content of an expression.
pub open spec fn expression_view(e: Expression) -> ExpressionView
    decreases e,
{
    match e {
        Expression::Value(value) => ExpressionView::Value(value@),
        Expression::Identifier(identifier) => ExpressionView::Identifier(identifier.ident@),
        Expression::Unary(unary) => ExpressionView::Unary(
            unary.operator,
            Box::new(expression_view(*unary.expression)),
        ),
        Expression::Binary(binary) => ExpressionView::Binary(
            Box::new(expression_view(*binary.left)),
            binary.operator,
            Box::new(expression_view(*binary.right)),
        ),
    }
}

/// The content of a statement.
pub open spec fn statement_view(s: Statement) -> StatementView
    decreases s, 0nat,
{
    match s {
        Statement::Print(print) => StatementView::Print(expression_view(print.expression)),
        Statement::Expression(statement) => StatementView::Expression(
            expression_view(statement.expression),
        ),
        Statement::Declaration(declaration) => StatementView::Declaration {
            name: declaration.identifier.ident@,
            kind: declaration.identifier.kind,
            initial_value: match declaration.initial_value {
                Some(e) => Some(expression_view(e)),
                None => None,
            },
        },
        Statement::Assignment(assignment) => StatementView::Assignment {
            name: assignment.identifier@,
            value: expression_view(assignment.value),
        },
        Statement::Break(_) => StatementView::Break,
        Statement::Continue(_) => StatementView::Continue,
        Statement::Block(block) => StatementView::Block(statement_views(block.body@, 0)),
        Statement::While(w) => StatementView::While {
            condition: expression_view(w.condition),
            body: statement_views(w.body@, 0),
        },
        Statement::For(f) => StatementView::For {
            name: f.identifier@,
            iterator: expression_view(f.iterator),
            body: statement_views(f.body@, 0),
        },
        Statement::If(i) => StatementView::If {
            first: branch_view(i.if_statement),
            others: branch_views(i.else_if_statements@, 0),
            otherwise: match i.else_statement {
                Some(e) => Some(statement_views(e.statements@, 0)),
                None => None,
            },
        },
    }
}

/// The contents of the statements from `from` on.
pub open spec fn statement_views(body: Seq<Statement>, from: int) -> Seq<StatementView>
    decreases body, body.len() - from,
{
    if 0 <= from < body.len() {
        seq![statement_view(body[from])] + statement_views(body, from + 1)
    } else {
        Seq::empty()
    }
}

/// The content of a branch.
pub open spec fn branch_view(branch: ConditionalStatement) -> BranchView
    decreases branch, 0nat,
{
    BranchView {
        condition: expression_view(branch.condition),
        statements: statement_views(branch.statements@, 0),
    }
}

/// The contents of the `else if` branches from `from` on.
pub open spec fn branch_views(branches: Seq<ElseIfStatement>, from: int) -> Seq<BranchView>
    decreases branches, branches.len() - from,
{
    if 0 <= from < branches.len() {
        seq![branch_view(branches[from].0)] + branch_views(branches, from + 1)
    } else {
        Seq::empty()
    }
}

/// The statements from `from` on have the contents they have one by one.
pub proof fn lemma_statement_views(body: Seq<Statement>, from: int)
    requires
        0 <= from <= body.len(),
    ensures
        statement_views(body, from).len() == body.len() - from,
        forall|i: int|
            0 <= i < body.len() - from ==> #[trigger] statement_views(body, from)[i]
                == statement_view(body[from + i]),
    decreases body.len() - from,
{
    if from < body.len() {
        lemma_statement_views(body, from + 1);
        let rest = statement_views(body, from + 1);
        assert forall|i: int| 0 <= i < body.len() - from implies #[trigger] statement_views(
            body,
            from,
        )[i] == statement_view(body[from + i]) by {
            if i > 0 {
                assert(statement_views(body, from)[i] == rest[i - 1]);
            }
        }
    }
}

/// The branches from `from` on have the contents they have one by one.
pub proof fn lemma_branch_views(branches: Seq<ElseIfStatement>, from: int)
    requires
        0 <= from <= branches.len(),
    ensures
        branch_views(branches, from).len() == branches.len() - from,
        forall|i: int|
            0 <= i < branches.len() - from ==> #[trigger] branch_views(branches, from)[i]
                == branch_view(branches[from + i].0),
    decreases branches.len() - from,
{
    if from < branches.len() {
        lemma_branch_views(branches, from + 1);
        let rest = branch_views(branches, from + 1);
        assert forall|i: int| 0 <= i < branches.len() - from implies #[trigger] branch_views(
            branches,
            from,
        )[i] == branch_view(branches[from + i].0) by {
            if i > 0 {
                assert(branch_views(branches, from)[i] == rest[i - 1]);
            }
        }
    }
}

impl View for Expression {
    type V = ExpressionView;

    open spec fn view(&self) -> ExpressionView {
        expression_view(*self)
    }
}

impl View for Statement {
    type V = StatementView;

    open spec fn view(&self) -> StatementView {
        statement_view(*self)
    }
}

} // verus!
