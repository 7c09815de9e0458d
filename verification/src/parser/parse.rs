//! What can be read from a node of a parse tree.

use vstd::prelude::*;

use crate::ast::expression::Expression;
use crate::ast::expression::binary::BinaryExpression;
use crate::ast::expression::identifier::IdentifierExpression;
use crate::ast::expression::unary::UnaryExpression;
use crate::ast::model::{branch_view, statement_views, BranchView, ExpressionView, StatementView};
use crate::ast::statement::{
    builds, BlockStatement, BreakStatement, ContinueStatement, ExpressionStatement, PrintStatement,
    Statement,
};
use crate::ast::statement::declare_assign_statement::{AssignmentStatement, DeclarationStatement};
use crate::ast::statement::for_statement::ForStatement;
use crate::ast::statement::if_statement::{ElseIfStatement, ElseStatement, IfStatement};
use crate::ast::statement::while_statement::WhileStatement;
use crate::ast::value::{Value, ValueView};
use crate::parser::{malformed, Node, ParserError, ParserErrorKind, Rule, Tree};
use crate::parser::builder::{else_if_of, else_of, expression_of, statement_of, value_of};

verus! {

/// A part of a program that can be read from a node of a parse tree.
pub trait Parse: Sized {
    /// Whether `result` is what reading `tree` has to give: the part that
    /// the tree stands for, or the failure that says why it stands for
    /// none.
    spec fn parsed(tree: Tree, result: Result<Self, ParserError>) -> bool;

    /// Reads the part from the node.
    fn parse(pair: &Node) -> (r: Result<Self, ParserError>)
        ensures
            Self::parsed(pair@, r),
    ;
}

impl Parse for Value {
    open spec fn parsed(tree: Tree, result: Result<Self, ParserError>) -> bool {
        match result {
            Ok(value) => value_of(tree) == Ok::<ValueView, ParserError>(value@),
            Err(error) => value_of(tree) == Err::<ValueView, ParserError>(error),
        }
    }

    fn parse(pair: &Node) -> (r: Result<Self, ParserError>) {
        Value::parse(pair)
    }
}

impl Parse for Expression {
    open spec fn parsed(tree: Tree, result: Result<Self, ParserError>) -> bool {
        match result {
            Ok(expression) => expression_of(tree) == Ok::<ExpressionView, ParserError>(
                expression@,
            ),
            Err(error) => expression_of(tree) == Err::<ExpressionView, ParserError>(error),
        }
    }

    fn parse(pair: &Node) -> (r: Result<Self, ParserError>) {
        Expression::parse(pair)
    }
}

impl Parse for BinaryExpression {
    open spec fn parsed(tree: Tree, result: Result<Self, ParserError>) -> bool {
        match result {
            Ok(binary) => expression_of(tree) == Ok::<ExpressionView, ParserError>(
                Expression::Binary(binary)@,
            ),
            Err(error) => match expression_of(tree) {
                Ok(other) => !(other is Binary) && error == malformed(tree, ParserErrorKind::WIP),
                Err(inner) => error == inner,
            },
        }
    }

    fn parse(pair: &Node) -> (r: Result<Self, ParserError>) {
        BinaryExpression::parse(pair)
    }
}

impl Parse for UnaryExpression {
    open spec fn parsed(tree: Tree, result: Result<Self, ParserError>) -> bool {
        match result {
            Ok(unary) => expression_of(tree) == Ok::<ExpressionView, ParserError>(
                Expression::Unary(unary)@,
            ),
            Err(error) => match expression_of(tree) {
                Ok(other) => !(other is Unary) && error == malformed(tree, ParserErrorKind::WIP),
                Err(inner) => error == inner,
            },
        }
    }

    fn parse(pair: &Node) -> (r: Result<Self, ParserError>) {
        UnaryExpression::parse(pair)
    }
}

impl Parse for IdentifierExpression {
    open spec fn parsed(tree: Tree, result: Result<Self, ParserError>) -> bool {
        match result {
            Ok(identifier) => tree.rule == Rule::identifier && identifier.ident@ == tree.text,
            Err(error) => tree.rule != Rule::identifier && error == malformed(
                tree,
                ParserErrorKind::WIP,
            ),
        }
    }

    fn parse(pair: &Node) -> (r: Result<Self, ParserError>) {
        IdentifierExpression::parse(pair)
    }
}

impl Parse for Statement {
    open spec fn parsed(tree: Tree, result: Result<Self, ParserError>) -> bool {
        match result {
            Ok(statement) => statement_of(tree) == Ok::<StatementView, ParserError>(statement@),
            Err(error) => statement_of(tree) == Err::<StatementView, ParserError>(error),
        }
    }

    fn parse(pair: &Node) -> (r: Result<Self, ParserError>) {
        Statement::parse(pair)
    }
}

impl Parse for PrintStatement {
    open spec fn parsed(tree: Tree, result: Result<Self, ParserError>) -> bool {
        match result {
            Ok(s) => builds(None, Some(Statement::Print(s)), tree, Rule::print_statement),
            Err(error) => builds(Some(error), None, tree, Rule::print_statement),
        }
    }

    fn parse(pair: &Node) -> (r: Result<Self, ParserError>) {
        PrintStatement::parse(pair)
    }
}

impl Parse for BlockStatement {
    open spec fn parsed(tree: Tree, result: Result<Self, ParserError>) -> bool {
        match result {
            Ok(s) => builds(None, Some(Statement::Block(s)), tree, Rule::block_statement),
            Err(error) => builds(Some(error), None, tree, Rule::block_statement),
        }
    }

    fn parse(pair: &Node) -> (r: Result<Self, ParserError>) {
        BlockStatement::parse(pair)
    }
}

impl Parse for BreakStatement {
    open spec fn parsed(tree: Tree, result: Result<Self, ParserError>) -> bool {
        match result {
            Ok(s) => builds(None, Some(Statement::Break(s)), tree, Rule::break_statement),
            Err(error) => builds(Some(error), None, tree, Rule::break_statement),
        }
    }

    fn parse(pair: &Node) -> (r: Result<Self, ParserError>) {
        BreakStatement::parse(pair)
    }
}

impl Parse for ContinueStatement {
    open spec fn parsed(tree: Tree, result: Result<Self, ParserError>) -> bool {
        match result {
            Ok(s) => builds(None, Some(Statement::Continue(s)), tree, Rule::continue_statement),
            Err(error) => builds(Some(error), None, tree, Rule::continue_statement),
        }
    }

    fn parse(pair: &Node) -> (r: Result<Self, ParserError>) {
        ContinueStatement::parse(pair)
    }
}

impl Parse for ExpressionStatement {
    open spec fn parsed(tree: Tree, result: Result<Self, ParserError>) -> bool {
        match result {
            Ok(s) => builds(
                None,
                Some(Statement::Expression(s)),
                tree,
                Rule::expression_statement,
            ),
            Err(error) => builds(Some(error), None, tree, Rule::expression_statement),
        }
    }

    fn parse(pair: &Node) -> (r: Result<Self, ParserError>) {
        ExpressionStatement::parse(pair)
    }
}

impl Parse for DeclarationStatement {
    open spec fn parsed(tree: Tree, result: Result<Self, ParserError>) -> bool {
        match result {
            Ok(s) => builds(
                None,
                Some(Statement::Declaration(s)),
                tree,
                Rule::declaration_statement,
            ),
            Err(error) => builds(Some(error), None, tree, Rule::declaration_statement),
        }
    }

    fn parse(pair: &Node) -> (r: Result<Self, ParserError>) {
        DeclarationStatement::parse(pair)
    }
}

impl Parse for AssignmentStatement {
    open spec fn parsed(tree: Tree, result: Result<Self, ParserError>) -> bool {
        match result {
            Ok(s) => builds(
                None,
                Some(Statement::Assignment(s)),
                tree,
                Rule::assignment_statement,
            ),
            Err(error) => builds(Some(error), None, tree, Rule::assignment_statement),
        }
    }

    fn parse(pair: &Node) -> (r: Result<Self, ParserError>) {
        AssignmentStatement::parse(pair)
    }
}

impl Parse for WhileStatement {
    open spec fn parsed(tree: Tree, result: Result<Self, ParserError>) -> bool {
        match result {
            Ok(s) => builds(None, Some(Statement::While(s)), tree, Rule::while_statement),
            Err(error) => builds(Some(error), None, tree, Rule::while_statement),
        }
    }

    fn parse(pair: &Node) -> (r: Result<Self, ParserError>) {
        WhileStatement::parse(pair)
    }
}

impl Parse for ForStatement {
    open spec fn parsed(tree: Tree, result: Result<Self, ParserError>) -> bool {
        match result {
            Ok(s) => builds(None, Some(Statement::For(s)), tree, Rule::for_statement),
            Err(error) => builds(Some(error), None, tree, Rule::for_statement),
        }
    }

    fn parse(pair: &Node) -> (r: Result<Self, ParserError>) {
        ForStatement::parse(pair)
    }
}

impl Parse for IfStatement {
    open spec fn parsed(tree: Tree, result: Result<Self, ParserError>) -> bool {
        match result {
            Ok(s) => builds(None, Some(Statement::If(s)), tree, Rule::if_statement),
            Err(error) => builds(Some(error), None, tree, Rule::if_statement),
        }
    }

    fn parse(pair: &Node) -> (r: Result<Self, ParserError>) {
        IfStatement::parse(pair)
    }
}

impl Parse for ElseIfStatement {
    open spec fn parsed(tree: Tree, result: Result<Self, ParserError>) -> bool {
        match result {
            Ok(branch) => else_if_of(tree) == Ok::<BranchView, ParserError>(branch_view(branch.0)),
            Err(error) => else_if_of(tree) == Err::<BranchView, ParserError>(error),
        }
    }

    fn parse(pair: &Node) -> (r: Result<Self, ParserError>) {
        ElseIfStatement::parse(pair)
    }
}

impl Parse for ElseStatement {
    open spec fn parsed(tree: Tree, result: Result<Self, ParserError>) -> bool {
        match result {
            Ok(branch) => else_of(tree) == Ok::<Seq<StatementView>, ParserError>(
                statement_views(branch.statements@, 0),
            ),
            Err(error) => else_of(tree) == Err::<Seq<StatementView>, ParserError>(error),
        }
    }

    fn parse(pair: &Node) -> (r: Result<Self, ParserError>) {
        ElseStatement::parse(pair)
    }
}

} // verus!
