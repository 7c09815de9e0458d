//! Binary expressions and their operators.

use vstd::prelude::*;

use crate::ast::expression::Expression;
use crate::ast::model::ExpressionView;
use crate::compiler::Compiler;
use crate::compiler::error::{fault_of, CompilerResult};
use crate::compiler::instruction::Instruction;
use crate::compiler::lowering::{binary_instruction, lower_expression};
use crate::compiler::model::Lowering;
use crate::parser::{malformed, Node, ParserError, ParserErrorKind, ParseResult, Rule};
use crate::parser::builder::{binding_power, expression_of, infix_of};

verus! {

/// An infix operator.
#[derive(Debug, Clone, Copy, PartialEq, Eq, Structural)]
pub enum BinaryOperator {
    Add,
    Subtract,
    Multiply,
    Divide,
    Reminder,
    Power,
    LessThan,
    LessThanEqual,
    GreaterThan,
    GreaterThanEqual,
    Equal,
    NotEqual,
    LogicalAnd,
    LogicalOr,
    LogicalXor,
}

/// Two operands joined by an infix operator.
#[derive(Debug, PartialEq, Eq)]
pub struct BinaryExpression {
    pub left: Box<Expression>,
    pub operator: BinaryOperator,
    pub right: Box<Expression>,
}

impl BinaryOperator {
    /// The operator as it is written in source text.
    pub open spec fn symbol(self) -> Seq<char> {
        match self {
            BinaryOperator::Add => "+"@,
            BinaryOperator::Subtract => "-"@,
            BinaryOperator::Multiply => "*"@,
            BinaryOperator::Divide => "/"@,
            BinaryOperator::Reminder => "%"@,
            BinaryOperator::Power => "**"@,
            BinaryOperator::LessThan => "<"@,
            BinaryOperator::LessThanEqual => "<="@,
            BinaryOperator::GreaterThan => ">"@,
            BinaryOperator::GreaterThanEqual => ">="@,
            BinaryOperator::Equal => "=="@,
            BinaryOperator::NotEqual => "!="@,
            BinaryOperator::LogicalAnd => "and"@,
            BinaryOperator::LogicalOr => "or"@,
            BinaryOperator::LogicalXor => "xor"@,
        }
    }

    /// The operator as it is written in source text.
    pub fn to_string(&self) -> (r: String)
        ensures
            r@ == self.symbol(),
    {
        match self {
            BinaryOperator::Add => String::from_str("+"),
            BinaryOperator::Subtract => String::from_str("-"),
            BinaryOperator::Multiply => String::from_str("*"),
            BinaryOperator::Divide => String::from_str("/"),
            BinaryOperator::Reminder => String::from_str("%"),
            BinaryOperator::Power => String::from_str("**"),
            BinaryOperator::LessThan => String::from_str("<"),
            BinaryOperator::LessThanEqual => String::from_str("<="),
            BinaryOperator::GreaterThan => String::from_str(">"),
            BinaryOperator::GreaterThanEqual => String::from_str(">="),
            BinaryOperator::Equal => String::from_str("=="),
            BinaryOperator::NotEqual => String::from_str("!="),
            BinaryOperator::LogicalAnd => String::from_str("and"),
            BinaryOperator::LogicalOr => String::from_str("or"),
            BinaryOperator::LogicalXor => String::from_str("xor"),
        }
    }
}


impl BinaryOperator {
    /// The instruction that applies the operator.
    pub fn instruction(&self) -> (r: Instruction)
        ensures
            r == binary_instruction(*self),
    {
        match self {
            BinaryOperator::Add => Instruction::BinaryAdd,
            BinaryOperator::Subtract => Instruction::BinarySubtract,
            BinaryOperator::Multiply => Instruction::BinaryMultiply,
            BinaryOperator::Divide => Instruction::BinaryDivide,
            BinaryOperator::Reminder => Instruction::BinaryReminder,
            BinaryOperator::Power => Instruction::BinaryPower,
            BinaryOperator::LessThan => Instruction::BinaryLessThan,
            BinaryOperator::LessThanEqual => Instruction::BinaryLessThanEqual,
            BinaryOperator::GreaterThan => Instruction::BinaryGreaterThan,
            BinaryOperator::GreaterThanEqual => Instruction::BinaryGreaterThanEqual,
            BinaryOperator::Equal => Instruction::BinaryEqual,
            BinaryOperator::NotEqual => Instruction::BinaryNotEqual,
            BinaryOperator::LogicalAnd => Instruction::BinaryLogicalAnd,
            BinaryOperator::LogicalOr => Instruction::BinaryLogicalOr,
            BinaryOperator::LogicalXor => Instruction::BinaryLogicalXor,
        }
    }
}

impl BinaryExpression {
    /// Compiles the left operand, then the right one, then emits the
    /// operator.
    pub fn compile(&self, compiler: &mut Compiler) -> (r: CompilerResult<()>)
        requires
            old(compiler).wf(),
        ensures
            final(compiler).wf(),
            (Lowering { state: final(compiler)@, fault: fault_of(r) }) == lower_expression(
                old(compiler)@,
                Expression::Binary(*self),
            ),
        decreases self,
    {
        self.left.compile(compiler)?;
        self.right.compile(compiler)?;
        compiler.emit(self.operator.instruction());
        Ok(())
    }
}


impl BinaryOperator {
    /// The infix operator that a rule stands for.
    pub fn from_rule(rule: Rule) -> (r: Option<Self>)
        ensures
            r == infix_of(rule),
    {
        match rule {
            Rule::add => Some(BinaryOperator::Add),
            Rule::subtract => Some(BinaryOperator::Subtract),
            Rule::multiply => Some(BinaryOperator::Multiply),
            Rule::divide => Some(BinaryOperator::Divide),
            Rule::remainder => Some(BinaryOperator::Reminder),
            Rule::power => Some(BinaryOperator::Power),
            Rule::less_than => Some(BinaryOperator::LessThan),
            Rule::less_than_eq => Some(BinaryOperator::LessThanEqual),
            Rule::greater_than => Some(BinaryOperator::GreaterThan),
            Rule::greater_than_eq => Some(BinaryOperator::GreaterThanEqual),
            Rule::equal_to => Some(BinaryOperator::Equal),
            Rule::not_equal_to => Some(BinaryOperator::NotEqual),
            Rule::logical_and => Some(BinaryOperator::LogicalAnd),
            Rule::logical_or => Some(BinaryOperator::LogicalOr),
            Rule::logical_xor => Some(BinaryOperator::LogicalXor),
            _ => None,
        }
    }

    /// How strongly the operator binds the operand to its left and the
    /// operand to its right.
    pub fn binding_power(&self) -> (r: (u8, u8))
        ensures
            (r.0 as int, r.1 as int) == binding_power(*self),
    {
        match self {
            BinaryOperator::LogicalXor => (1, 2),
            BinaryOperator::LogicalOr => (3, 4),
            BinaryOperator::LogicalAnd => (5, 6),
            BinaryOperator::Equal | BinaryOperator::NotEqual => (7, 8),
            BinaryOperator::LessThan
            | BinaryOperator::LessThanEqual
            | BinaryOperator::GreaterThan
            | BinaryOperator::GreaterThanEqual => (9, 10),
            BinaryOperator::Add | BinaryOperator::Subtract => (11, 12),
            BinaryOperator::Multiply | BinaryOperator::Divide | BinaryOperator::Reminder => (
                13,
                14,
            ),
            BinaryOperator::Power => (18, 17),
        }
    }
}

impl BinaryExpression {
    /// The binary expression that an `expression` node stands for. A node
    /// that stands for an expression of another form is out of place.
    pub fn parse(node: &Node) -> (r: ParseResult<Self>)
        ensures
            match r {
                Ok(binary) => expression_of(node@) == Ok::<ExpressionView, ParserError>(
                    Expression::Binary(binary)@,
                ),
                Err(error) => match expression_of(node@) {
                    Ok(other) => !(other is Binary) && error == malformed(
                        node@,
                        ParserErrorKind::WIP,
                    ),
                    Err(inner) => error == inner,
                },
            },
    {
        match Expression::parse(node) {
            Ok(Expression::Binary(binary)) => Ok(binary),
            Ok(_) => Err(ParserError::for_pair(node, ParserErrorKind::WIP)),
            Err(error) => Err(error),
        }
    }
}

} // verus!
