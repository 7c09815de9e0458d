//! Prefix expressions and their operators.

use vstd::prelude::*;

use crate::ast::expression::Expression;
use crate::ast::model::ExpressionView;
use crate::compiler::Compiler;
use crate::compiler::error::{fault_of, CompilerResult};
use crate::compiler::instruction::Instruction;
use crate::compiler::lowering::lower_expression;
use crate::compiler::model::Lowering;
use crate::parser::{malformed, Node, ParserError, ParserErrorKind, ParseResult, Rule};
use crate::parser::builder::{expression_of, prefix_of};

verus! {

/// A prefix operator.
#[derive(Debug, Clone, Copy, PartialEq, Eq, Structural)]
pub enum UnaryOperator {
    Plus,
    Minus,
    Not,
}

/// A prefix operator applied to one operand.
#[derive(Debug, PartialEq, Eq)]
pub struct UnaryExpression {
    pub operator: UnaryOperator,
    pub expression: Box<Expression>,
}

impl UnaryOperator {
    /// The operator as it is written in source text.
    pub open spec fn symbol(self) -> Seq<char> {
        match self {
            UnaryOperator::Plus => "+"@,
            UnaryOperator::Minus => "-"@,
            UnaryOperator::Not => "not"@,
        }
    }

    /// The operator as it is written in source text.
    pub fn to_string(&self) -> (r: String)
        ensures
            r@ == self.symbol(),
    {
        match self {
            UnaryOperator::Plus => String::from_str("+"),
            UnaryOperator::Minus => String::from_str("-"),
            UnaryOperator::Not => String::from_str("not"),
        }
    }
}


impl UnaryExpression {
    /// Compiles the operand, then emits the operator. `+` emits nothing.
    pub fn compile(&self, compiler: &mut Compiler) -> (r: CompilerResult<()>)
        requires
            old(compiler).wf(),
        ensures
            final(compiler).wf(),
            (Lowering { state: final(compiler)@, fault: fault_of(r) }) == lower_expression(
                old(compiler)@,
                Expression::Unary(*self),
            ),
        decreases self,
    {
        self.expression.compile(compiler)?;
        match self.operator {
            UnaryOperator::Plus => {},
            UnaryOperator::Minus => compiler.emit(Instruction::UnaryMinus),
            UnaryOperator::Not => compiler.emit(Instruction::UnaryNot),
        }
        Ok(())
    }
}


impl UnaryOperator {
    /// The prefix operator that a rule stands for.
    pub fn from_rule(rule: Rule) -> (r: Option<Self>)
        ensures
            r == prefix_of(rule),
    {
        match rule {
            Rule::plus => Some(UnaryOperator::Plus),
            Rule::minus => Some(UnaryOperator::Minus),
            Rule::not => Some(UnaryOperator::Not),
            _ => None,
        }
    }
}

impl UnaryExpression {
    /// The prefix expression that an `expression` node stands for. A node
    /// that stands for an expression of another form is out of place.
    pub fn parse(node: &Node) -> (r: ParseResult<Self>)
        ensures
            match r {
                Ok(unary) => expression_of(node@) == Ok::<ExpressionView, ParserError>(
                    Expression::Unary(unary)@,
                ),
                Err(error) => match expression_of(node@) {
                    Ok(other) => !(other is Unary) && error == malformed(
                        node@,
                        ParserErrorKind::WIP,
                    ),
                    Err(inner) => error == inner,
                },
            },
    {
        match Expression::parse(node) {
            Ok(Expression::Unary(unary)) => Ok(unary),
            Ok(_) => Err(ParserError::for_pair(node, ParserErrorKind::WIP)),
            Err(error) => Err(error),
        }
    }
}

} // verus!
