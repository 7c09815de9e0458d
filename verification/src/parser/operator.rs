//! The operators.

use vstd::prelude::*;

use crate::ast::expression::binary::BinaryOperator;
use crate::parser::builder::{binding_power, prefix_power};
use crate::parser::input::{Input, ParserResult, SpannedResult};
use crate::parser::keyword::{reads_word, tag};
use crate::parser::spanned::Spanned;
use crate::text::same_text;

verus! {

/// An operator, infix or prefix.
#[derive(Debug, Clone, Copy, PartialEq, Eq, Hash, Structural)]
pub enum Operator {
    Plus,
    Minus,
    Multiply,
    Divide,
    Modulo,
    Power,
    LessThan,
    LessThanEqual,
    GreaterThan,
    GreaterThanEqual,
    Equal,
    NotEqual,
    And,
    Or,
    Xor,
    Not,
}

impl Operator {
    /// Whether the operator can stand between two operands.
    pub open spec fn is_infix(self) -> bool {
        self != Operator::Not
    }

    /// Whether the operator can stand before an operand.
    pub open spec fn is_prefix(self) -> bool {
        self == Operator::Plus || self == Operator::Minus || self == Operator::Not
    }

    /// How strongly an infix operator binds the operand to its left and
    /// the operand to its right. The levels are, from the weakest: `xor`,
    /// `or`, `and`, equality, comparison, sum, product, power. An
    /// operator binds to the right a little stronger than to the left, so
    /// that operators of one level group from the left; power does the
    /// reverse and groups from the right.
    pub open spec fn infix_power(self) -> (int, int) {
        match self {
            Operator::Xor => (1, 2),
            Operator::Or => (3, 4),
            Operator::And => (5, 6),
            Operator::Equal | Operator::NotEqual => (7, 8),
            Operator::LessThan
            | Operator::LessThanEqual
            | Operator::GreaterThan
            | Operator::GreaterThanEqual => (9, 10),
            Operator::Plus | Operator::Minus => (11, 12),
            Operator::Multiply | Operator::Divide | Operator::Modulo => (13, 14),
            _ => (18, 17),
        }
    }

    /// How strongly a prefix operator binds its operand: stronger than
    /// every infix operator but power.
    pub open spec fn prefix_power(self) -> int {
        15
    }

    /// The level of an infix operator, from the weakest.
    pub open spec fn level(self) -> int {
        match self {
            Operator::Xor => 0,
            Operator::Or => 1,
            Operator::And => 2,
            Operator::Equal | Operator::NotEqual => 3,
            Operator::LessThan
            | Operator::LessThanEqual
            | Operator::GreaterThan
            | Operator::GreaterThanEqual => 4,
            Operator::Plus | Operator::Minus => 5,
            Operator::Multiply | Operator::Divide | Operator::Modulo => 6,
            _ => 7,
        }
    }

    /// How strongly the operator binds the operand to its left and the
    /// operand to its right; see [`Operator::infix_power`].
    pub fn infix_binding_power(&self) -> (r: (u8, u8))
        requires
            self.is_infix(),
        ensures
            (r.0 as int, r.1 as int) == self.infix_power(),
    {
        match self {
            Operator::Xor => (1, 2),
            Operator::Or => (3, 4),
            Operator::And => (5, 6),
            Operator::Equal | Operator::NotEqual => (7, 8),
            Operator::LessThan
            | Operator::LessThanEqual
            | Operator::GreaterThan
            | Operator::GreaterThanEqual => (9, 10),
            Operator::Plus | Operator::Minus => (11, 12),
            Operator::Multiply | Operator::Divide | Operator::Modulo => (13, 14),
            _ => (18, 17),
        }
    }

    /// How strongly the operator binds its operand when it stands before
    /// it; see [`Operator::prefix_power`].
    pub fn prefix_binding_power(&self) -> (r: ((), u8))
        requires
            self.is_prefix(),
        ensures
            r.1 as int == self.prefix_power(),
    {
        ((), 15)
    }

    /// The operation that the operator stands for between two operands.
    pub open spec fn operation(self) -> BinaryOperator {
        match self {
            Operator::Xor => BinaryOperator::LogicalXor,
            Operator::Or => BinaryOperator::LogicalOr,
            Operator::And => BinaryOperator::LogicalAnd,
            Operator::Equal => BinaryOperator::Equal,
            Operator::NotEqual => BinaryOperator::NotEqual,
            Operator::LessThan => BinaryOperator::LessThan,
            Operator::LessThanEqual => BinaryOperator::LessThanEqual,
            Operator::GreaterThan => BinaryOperator::GreaterThan,
            Operator::GreaterThanEqual => BinaryOperator::GreaterThanEqual,
            Operator::Plus => BinaryOperator::Add,
            Operator::Minus => BinaryOperator::Subtract,
            Operator::Multiply => BinaryOperator::Multiply,
            Operator::Divide => BinaryOperator::Divide,
            Operator::Modulo => BinaryOperator::Reminder,
            _ => BinaryOperator::Power,
        }
    }

    /// Operators bind in a text as strongly as they do among the tokens
    /// of an expression node, so that both ways of reading group alike.
    pub proof fn law_powers_agree(self)
        ensures
            self.is_infix() ==> self.infix_power() == binding_power(self.operation()),
            self.is_prefix() ==> self.prefix_power() == prefix_power(),
    {
    }

    /// An operator of a higher level binds stronger on both sides than
    /// one of a lower level binds on either; operators of one level bind
    /// alike.
    pub proof fn law_levels_are_ordered(self, other: Operator)
        requires
            self.is_infix(),
            other.is_infix(),
        ensures
            self.level() < other.level() ==> self.infix_power().0 < other.infix_power().0
                && self.infix_power().0 < other.infix_power().1 && self.infix_power().1
                < other.infix_power().0 && self.infix_power().1 < other.infix_power().1,
            self.level() == other.level() ==> self.infix_power() == other.infix_power(),
    {
    }

    /// Power alone binds stronger to its left than to its right, and so
    /// groups from the right; every other operator groups from the left.
    pub proof fn law_power_alone_groups_from_the_right(self)
        requires
            self.is_infix(),
        ensures
            self == Operator::Power ==> self.infix_power().0 > self.infix_power().1,
            self != Operator::Power ==> self.infix_power().0 < self.infix_power().1,
    {
    }

    /// A prefix operator binds stronger than every infix operator but
    /// power, and weaker than power.
    pub proof fn law_prefix_binds_below_power(self, infix: Operator)
        requires
            self.is_prefix(),
            infix.is_infix(),
        ensures
            infix != Operator::Power ==> infix.infix_power().0 < self.prefix_power()
                && infix.infix_power().1 < self.prefix_power(),
            infix == Operator::Power ==> self.prefix_power() < infix.infix_power().0
                && self.prefix_power() < infix.infix_power().1,
    {
    }

    /// The operator as it is written.
    pub open spec fn symbol(self) -> Seq<char> {
        match self {
            Operator::Plus => "+"@,
            Operator::Minus => "-"@,
            Operator::Multiply => "*"@,
            Operator::Divide => "/"@,
            Operator::Modulo => "%"@,
            Operator::Power => "**"@,
            Operator::LessThan => "<"@,
            Operator::LessThanEqual => "<="@,
            Operator::GreaterThan => ">"@,
            Operator::GreaterThanEqual => ">="@,
            Operator::Equal => "=="@,
            Operator::NotEqual => "!="@,
            Operator::And => "and"@,
            Operator::Or => "or"@,
            Operator::Xor => "xor"@,
            Operator::Not => "not"@,
        }
    }

    /// The operator as it is written.
    pub fn as_str(&self) -> (r: &'static str)
        ensures
            r@ == self.symbol(),
    {
        match self {
            Operator::Plus => "+",
            Operator::Minus => "-",
            Operator::Multiply => "*",
            Operator::Divide => "/",
            Operator::Modulo => "%",
            Operator::Power => "**",
            Operator::LessThan => "<",
            Operator::LessThanEqual => "<=",
            Operator::GreaterThan => ">",
            Operator::GreaterThanEqual => ">=",
            Operator::Equal => "==",
            Operator::NotEqual => "!=",
            Operator::And => "and",
            Operator::Or => "or",
            Operator::Xor => "xor",
            Operator::Not => "not",
        }
    }

    /// The operator as it is written.
    pub fn to_string(&self) -> (r: String)
        ensures
            r@ == self.symbol(),
    {
        String::from_str(self.as_str())
    }

    /// The operator with the given place in the order in which operators
    /// are tried. Of two operators that begin alike the longer comes
    /// first.
    pub open spec fn nth(index: int) -> Operator {
        if index == 0 {
            Operator::Plus
        } else if index == 1 {
            Operator::Minus
        } else if index == 2 {
            Operator::Power
        } else if index == 3 {
            Operator::Multiply
        } else if index == 4 {
            Operator::Divide
        } else if index == 5 {
            Operator::Modulo
        } else if index == 6 {
            Operator::LessThanEqual
        } else if index == 7 {
            Operator::LessThan
        } else if index == 8 {
            Operator::GreaterThanEqual
        } else if index == 9 {
            Operator::GreaterThan
        } else if index == 10 {
            Operator::Equal
        } else if index == 11 {
            Operator::NotEqual
        } else if index == 12 {
            Operator::And
        } else if index == 13 {
            Operator::Or
        } else if index == 14 {
            Operator::Xor
        } else {
            Operator::Not
        }
    }

    /// The operator with the given place in the order in which operators
    /// are tried.
    pub fn at(index: usize) -> (r: Operator)
        ensures
            r == Operator::nth(index as int),
    {
        if index == 0 {
            Operator::Plus
        } else if index == 1 {
            Operator::Minus
        } else if index == 2 {
            Operator::Power
        } else if index == 3 {
            Operator::Multiply
        } else if index == 4 {
            Operator::Divide
        } else if index == 5 {
            Operator::Modulo
        } else if index == 6 {
            Operator::LessThanEqual
        } else if index == 7 {
            Operator::LessThan
        } else if index == 8 {
            Operator::GreaterThanEqual
        } else if index == 9 {
            Operator::GreaterThan
        } else if index == 10 {
            Operator::Equal
        } else if index == 11 {
            Operator::NotEqual
        } else if index == 12 {
            Operator::And
        } else if index == 13 {
            Operator::Or
        } else if index == 14 {
            Operator::Xor
        } else {
            Operator::Not
        }
    }

    /// The operator that is written as `symbol`.
    pub fn from_symbol(symbol: &str) -> (r: Option<Operator>)
        ensures
            match r {
                Some(operator) => operator.symbol() == symbol@,
                None => forall|index: int| 0 <= index < 16 ==> (#[trigger] Operator::nth(
                    index,
                )).symbol() != symbol@,
            },
    {
        let mut index: usize = 0;
        while index < 16
            invariant
                0 <= index <= 16,
                forall|before: int|
                    0 <= before < index ==> (#[trigger] Operator::nth(before)).symbol()
                        != symbol@,
            decreases 16 - index,
        {
            let operator = Operator::at(index);
            if same_text(operator.as_str(), symbol) {
                return Some(operator);
            }
            index += 1;
        }
        None
    }
}

/// The first operator from the one with the place `from` on, in the
/// order in which operators are tried, that the text begins with.
pub open spec fn operator_prefix(text: Seq<char>, from: int) -> Option<Operator>
    decreases 16 - from,
{
    if 0 <= from < 16 {
        if Operator::nth(from).symbol().is_prefix_of(text) {
            Some(Operator::nth(from))
        } else {
            operator_prefix(text, from + 1)
        }
    } else {
        None
    }
}

/// The prefix operator that the text begins with.
pub open spec fn unary_prefix(text: Seq<char>) -> Option<Operator> {
    if "+"@.is_prefix_of(text) {
        Some(Operator::Plus)
    } else if "-"@.is_prefix_of(text) {
        Some(Operator::Minus)
    } else if "not"@.is_prefix_of(text) {
        Some(Operator::Not)
    } else {
        None
    }
}

/// What a function that reads one of several operators has to return:
/// the operator `found` with its place, and what is left behind it.
pub open spec fn reads_operator<'a>(
    input: Input<'a>,
    result: SpannedResult<'a, Operator>,
    found: Option<Operator>,
) -> bool {
    match result {
        Ok((rest, spanned)) => found == Some(spanned.ast) && input.leaves(
            spanned.ast.symbol().len() as int,
            rest,
        ) && rest.wf() && spanned.start == input.position && spanned.end == rest.position,
        Err(error) => found is None && error == input.failure(),
    }
}

pub fn parse_plus(input: Input<'_>) -> (r: ParserResult<'_, Operator>)
    requires
        input.wf(),
    ensures
        reads_word(input, r, "+"@, Operator::Plus),
{
    tag(input, "+", Operator::Plus)
}

pub fn parse_minus(input: Input<'_>) -> (r: ParserResult<'_, Operator>)
    requires
        input.wf(),
    ensures
        reads_word(input, r, "-"@, Operator::Minus),
{
    tag(input, "-", Operator::Minus)
}

pub fn parse_power(input: Input<'_>) -> (r: ParserResult<'_, Operator>)
    requires
        input.wf(),
    ensures
        reads_word(input, r, "**"@, Operator::Power),
{
    tag(input, "**", Operator::Power)
}

pub fn parse_multiply(input: Input<'_>) -> (r: ParserResult<'_, Operator>)
    requires
        input.wf(),
    ensures
        reads_word(input, r, "*"@, Operator::Multiply),
{
    tag(input, "*", Operator::Multiply)
}

pub fn parse_divide(input: Input<'_>) -> (r: ParserResult<'_, Operator>)
    requires
        input.wf(),
    ensures
        reads_word(input, r, "/"@, Operator::Divide),
{
    tag(input, "/", Operator::Divide)
}

pub fn parse_modulo(input: Input<'_>) -> (r: ParserResult<'_, Operator>)
    requires
        input.wf(),
    ensures
        reads_word(input, r, "%"@, Operator::Modulo),
{
    tag(input, "%", Operator::Modulo)
}

pub fn parse_less_than_equal(input: Input<'_>) -> (r: ParserResult<'_, Operator>)
    requires
        input.wf(),
    ensures
        reads_word(input, r, "<="@, Operator::LessThanEqual),
{
    tag(input, "<=", Operator::LessThanEqual)
}

pub fn parse_less_than(input: Input<'_>) -> (r: ParserResult<'_, Operator>)
    requires
        input.wf(),
    ensures
        reads_word(input, r, "<"@, Operator::LessThan),
{
    tag(input, "<", Operator::LessThan)
}

pub fn parse_greater_than_equal(input: Input<'_>) -> (r: ParserResult<'_, Operator>)
    requires
        input.wf(),
    ensures
        reads_word(input, r, ">="@, Operator::GreaterThanEqual),
{
    tag(input, ">=", Operator::GreaterThanEqual)
}

pub fn parse_greater_than(input: Input<'_>) -> (r: ParserResult<'_, Operator>)
    requires
        input.wf(),
    ensures
        reads_word(input, r, ">"@, Operator::GreaterThan),
{
    tag(input, ">", Operator::GreaterThan)
}

pub fn parse_equal(input: Input<'_>) -> (r: ParserResult<'_, Operator>)
    requires
        input.wf(),
    ensures
        reads_word(input, r, "=="@, Operator::Equal),
{
    tag(input, "==", Operator::Equal)
}

pub fn parse_not_equal(input: Input<'_>) -> (r: ParserResult<'_, Operator>)
    requires
        input.wf(),
    ensures
        reads_word(input, r, "!="@, Operator::NotEqual),
{
    tag(input, "!=", Operator::NotEqual)
}

pub fn parse_and(input: Input<'_>) -> (r: ParserResult<'_, Operator>)
    requires
        input.wf(),
    ensures
        reads_word(input, r, "and"@, Operator::And),
{
    tag(input, "and", Operator::And)
}

pub fn parse_or(input: Input<'_>) -> (r: ParserResult<'_, Operator>)
    requires
        input.wf(),
    ensures
        reads_word(input, r, "or"@, Operator::Or),
{
    tag(input, "or", Operator::Or)
}

pub fn parse_xor(input: Input<'_>) -> (r: ParserResult<'_, Operator>)
    requires
        input.wf(),
    ensures
        reads_word(input, r, "xor"@, Operator::Xor),
{
    tag(input, "xor", Operator::Xor)
}

pub fn parse_not(input: Input<'_>) -> (r: ParserResult<'_, Operator>)
    requires
        input.wf(),
    ensures
        reads_word(input, r, "not"@, Operator::Not),
{
    tag(input, "not", Operator::Not)
}

/// Reads a prefix operator: `+`, `-` or `not`.
pub fn parse_unary_operator(input: Input<'_>) -> (r: SpannedResult<'_, Operator>)
    requires
        input.wf(),
    ensures
        reads_operator(input, r, unary_prefix(input.input@)),
{
    let start: usize = input.position;
    let found = match parse_plus(input) {
        Ok(found) => Ok(found),
        Err(_) => match parse_minus(input) {
            Ok(found) => Ok(found),
            Err(_) => parse_not(input),
        },
    };
    match found {
        Ok((rest, operator)) => Ok((rest, Spanned { ast: operator, start, end: rest.position })),
        Err(error) => Err(error),
    }
}

/// Reads the first operator, in the order in which operators are tried,
/// that the input begins with.
pub fn parse_operator(input: Input<'_>) -> (r: SpannedResult<'_, Operator>)
    requires
        input.wf(),
    ensures
        reads_operator(input, r, operator_prefix(input.input@, 0)),
{
    let start: usize = input.position;
    let mut index: usize = 0;
    while index < 16
        invariant
            0 <= index <= 16,
            input.wf(),
            start == input.position,
            operator_prefix(input.input@, 0) == operator_prefix(input.input@, index as int),
        decreases 16 - index,
    {
        let operator = Operator::at(index);
        match tag(input, operator.as_str(), operator) {
            Ok((rest, operator)) => {
                return Ok((rest, Spanned { ast: operator, start, end: rest.position }));
            },
            Err(_) => {},
        }
        index += 1;
    }
    Err(input.fail())
}

} // verus!
