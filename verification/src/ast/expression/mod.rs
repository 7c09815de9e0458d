//! Expressions.

use vstd::prelude::*;
use vstd::std_specs::convert::FromSpecImpl;

use crate::ast::expression::binary::{BinaryExpression, BinaryOperator};
use crate::ast::expression::identifier::IdentifierExpression;
use crate::ast::expression::unary::{UnaryExpression, UnaryOperator};
use crate::ast::model::ExpressionView;
use crate::ast::value::Value;
use crate::compiler::Compiler;
use crate::compiler::error::{fault_of, CompilerResult};
use crate::compiler::lowering::lower_expression;
use crate::compiler::model::Lowering;
use crate::parser::{lemma_node_view, trees, Node, ParserError, ParserErrorKind, ParseResult, Rule};
use crate::parser::builder::{climb, climb_on, expression_of, operand_of, Climb};

pub mod binary;
pub mod identifier;
pub mod unary;

verus! {

/// An expression tree. Every node owns its operands.
#[derive(Debug, PartialEq, Eq)]
pub enum Expression {
    Value(Value),
    Binary(BinaryExpression),
    Unary(UnaryExpression),
    Identifier(IdentifierExpression),
}


impl Expression {
    /// Emits the instructions that leave the value of the expression on
    /// the operand stack.
    pub fn compile(&self, compiler: &mut Compiler) -> (r: CompilerResult<()>)
        requires
            old(compiler).wf(),
        ensures
            final(compiler).wf(),
            (Lowering { state: final(compiler)@, fault: fault_of(r) }) == lower_expression(
                old(compiler)@,
                *self,
            ),
        decreases self,
    {
        match self {
            Expression::Value(expr) => expr.compile(compiler),
            Expression::Binary(expr) => expr.compile(compiler),
            Expression::Unary(expr) => expr.compile(compiler),
            Expression::Identifier(expr) => expr.compile(compiler),
        }
    }
}


/// What a function that reads an expression from tokens has to return.
pub open spec fn reads(result: Result<(Expression, usize), ParserError>, climb: Climb) -> bool {
    match result {
        Ok((expression, next)) => climb == Ok::<(ExpressionView, int), ParserError>(
            (expression@, next as int),
        ),
        Err(error) => climb == Err::<(ExpressionView, int), ParserError>(error),
    }
}

/// The operand at `pos`; see [`operand_of`].
fn parse_operand(tokens: &Vec<Node>, pos: usize, whole: ParserError) -> (r: Result<
    (Expression, usize),
    ParserError,
>)
    ensures
        reads(r, operand_of(trees(tokens@), pos as int, whole)),
    decreases tokens, tokens@.len() - pos, 1nat,
{
    if pos >= tokens.len() {
        return Err(whole);
    }
    let token = &tokens[pos];
    proof {
        lemma_node_view(token);
    }
    match UnaryOperator::from_rule(token.rule) {
        Some(operator) => {
            let (operand, next) = parse_climb(tokens, pos + 1, 15, whole)?;
            Ok(
                (
                    Expression::Unary(UnaryExpression { operator, expression: Box::new(operand) }),
                    next,
                ),
            )
        },
        None => {
            if token.rule == Rule::value {
                let value = Value::parse(token)?;
                Ok((Expression::Value(value), pos + 1))
            } else if token.rule == Rule::identifier {
                Ok(
                    (
                        Expression::Identifier(IdentifierExpression { ident: token.text.clone() }),
                        pos + 1,
                    ),
                )
            } else if token.rule == Rule::expression {
                let inner = Expression::parse(token)?;
                Ok((inner, pos + 1))
            } else {
                Err(ParserError::for_pair(token, ParserErrorKind::WIP))
            }
        },
    }
}

/// The expression that begins at `pos`; see [`climb`].
fn parse_climb(tokens: &Vec<Node>, pos: usize, min: u8, whole: ParserError) -> (r: Result<
    (Expression, usize),
    ParserError,
>)
    ensures
        reads(r, climb(trees(tokens@), pos as int, min as int, whole)),
    decreases tokens, tokens@.len() - pos, 2nat,
{
    let (left, next) = parse_operand(tokens, pos, whole)?;
    if pos < next && next <= tokens.len() {
        parse_climb_on(tokens, left, next, min, whole)
    } else {
        Err(whole)
    }
}

/// The expression `left` grown to the right; see [`climb_on`].
fn parse_climb_on(tokens: &Vec<Node>, left: Expression, pos: usize, min: u8, whole: ParserError) -> (r:
    Result<(Expression, usize), ParserError>)
    ensures
        reads(r, climb_on(trees(tokens@), left@, pos as int, min as int, whole)),
    decreases tokens, tokens@.len() - pos, 3nat,
{
    let ghost goal = climb_on(trees(tokens@), left@, pos as int, min as int, whole);
    let mut grown = left;
    let mut at: usize = pos;
    loop
        invariant_except_break
            goal == climb_on(trees(tokens@), grown@, at as int, min as int, whole),
        invariant
            pos <= at,
            goal == climb_on(trees(tokens@), left@, pos as int, min as int, whole),
        ensures
            goal == Ok::<(ExpressionView, int), ParserError>((grown@, at as int)),
        decreases tokens@.len() - at,
    {
        if at >= tokens.len() {
            break ;
        }
        proof {
            lemma_node_view(&tokens[at as int]);
        }
        match BinaryOperator::from_rule(tokens[at].rule) {
            Some(operator) => {
                let (left_power, right_power) = operator.binding_power();
                if left_power < min {
                    break ;
                }
                let (right, next) = match parse_climb(tokens, at + 1, right_power, whole) {
                    Ok(found) => found,
                    Err(error) => {
                        return Err(error);
                    },
                };
                if at < next && next <= tokens.len() {
                    grown =
                    Expression::Binary(
                        BinaryExpression {
                            left: Box::new(grown),
                            operator,
                            right: Box::new(right),
                        },
                    );
                    at = next;
                } else {
                    return Err(whole);
                }
            },
            None => {
                break ;
            },
        }
    }
    Ok((grown, at))
}

impl Expression {
    /// The expression that an `expression` node stands for.
    ///
    /// The children of the node are operands and operators in source
    /// order. They are grouped by binding power: a stronger operator takes
    /// its operands before a weaker one next to it, operators of one level
    /// group from the left, power groups from the right, and a prefix
    /// operator takes what follows it up to the first infix operator that
    /// is weaker than itself.
    pub fn parse(node: &Node) -> (r: ParseResult<Self>)
        ensures
            match r {
                Ok(expression) => expression_of(node@) == Ok::<ExpressionView, ParserError>(
                    expression@,
                ),
                Err(error) => expression_of(node@) == Err::<ExpressionView, ParserError>(error),
            },
        decreases node, 0nat, 0nat,
    {
        proof {
            lemma_node_view(node);
        }
        let whole = ParserError::for_pair(node, ParserErrorKind::WIP);
        if node.rule != Rule::expression {
            return Err(whole);
        }
        let (expression, next) = parse_climb(&node.children, 0, 0, whole)?;
        if next == node.children.len() {
            Ok(expression)
        } else if next < node.children.len() {
            Err(ParserError::for_pair(&node.children[next], ParserErrorKind::WIP))
        } else {
            Err(whole)
        }
    }
}


impl From<Value> for Expression {
    fn from(v: Value) -> (r: Self) {
        Expression::Value(v)
    }
}

impl FromSpecImpl<Value> for Expression {
    open spec fn obeys_from_spec() -> bool {
        true
    }

    open spec fn from_spec(v: Value) -> Self {
        Expression::Value(v)
    }
}

impl From<BinaryExpression> for Expression {
    fn from(v: BinaryExpression) -> (r: Self) {
        Expression::Binary(v)
    }
}

impl FromSpecImpl<BinaryExpression> for Expression {
    open spec fn obeys_from_spec() -> bool {
        true
    }

    open spec fn from_spec(v: BinaryExpression) -> Self {
        Expression::Binary(v)
    }
}

impl From<UnaryExpression> for Expression {
    fn from(v: UnaryExpression) -> (r: Self) {
        Expression::Unary(v)
    }
}

impl FromSpecImpl<UnaryExpression> for Expression {
    open spec fn obeys_from_spec() -> bool {
        true
    }

    open spec fn from_spec(v: UnaryExpression) -> Self {
        Expression::Unary(v)
    }
}

impl From<IdentifierExpression> for Expression {
    fn from(v: IdentifierExpression) -> (r: Self) {
        Expression::Identifier(v)
    }
}

impl FromSpecImpl<IdentifierExpression> for Expression {
    open spec fn obeys_from_spec() -> bool {
        true
    }

    open spec fn from_spec(v: IdentifierExpression) -> Self {
        Expression::Identifier(v)
    }
}

} // verus!
