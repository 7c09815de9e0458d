//! Expressions read from the beginning of an input, with the place of
//! every operator and operand.

use vstd::prelude::*;

use crate::ast::value::{Value, ValueView};
use crate::parser::ParserError;
use crate::parser::identifier::{identifier_at, parse_identifier};
use crate::parser::input::{Cursor, Input, SpannedResult};
use crate::parser::lexical::{skip_spaces, space};
use crate::parser::literal::{parse_value, value_at, Reading};
use crate::parser::operator::{
    operator_prefix, parse_operator, parse_unary_operator, unary_prefix, Operator,
};
use crate::parser::spanned::Spanned;
use crate::text::{push_char, push_str};

verus! {

/// An expression with the places of its parts.
#[derive(Debug, PartialEq, Eq)]
pub enum Expr {
    Identifier(String),
    Value(Value),
    Binary { op: Spanned<Operator>, lhs: Box<Spanned<Expr>>, rhs: Box<Spanned<Expr>> },
    Unary { op: Spanned<Operator>, operand: Box<Spanned<Expr>> },
}

/// The mathematical content of an [`Expr`].
pub enum ExprView {
    Identifier(Seq<char>),
    Value(ValueView),
    Binary { op: Spanned<Operator>, lhs: Box<Spanned<ExprView>>, rhs: Box<Spanned<ExprView>> },
    Unary { op: Spanned<Operator>, operand: Box<Spanned<ExprView>> },
}

/// The content of an expression.
pub open spec fn expr_view(e: Expr) -> ExprView
    decreases e,
{
    match e {
        Expr::Identifier(name) => ExprView::Identifier(name@),
        Expr::Value(value) => ExprView::Value(value@),
        Expr::Binary { op, lhs, rhs } => ExprView::Binary {
            op,
            lhs: Box::new(
                Spanned { ast: expr_view(lhs.ast), start: lhs.start, end: lhs.end },
            ),
            rhs: Box::new(
                Spanned { ast: expr_view(rhs.ast), start: rhs.start, end: rhs.end },
            ),
        },
        Expr::Unary { op, operand } => ExprView::Unary {
            op,
            operand: Box::new(
                Spanned { ast: expr_view(operand.ast), start: operand.start, end: operand.end },
            ),
        },
    }
}

/// The content of an expression with its place.
pub open spec fn spanned_view(e: Spanned<Expr>) -> Spanned<ExprView> {
    Spanned { ast: expr_view(e.ast), start: e.start, end: e.end }
}

impl View for Expr {
    type V = ExprView;

    open spec fn view(&self) -> ExprView {
        expr_view(*self)
    }
}

/// An expression as it is written with all its parentheses.
pub open spec fn expr_text(e: ExprView) -> Seq<char>
    decreases e,
{
    match e {
        ExprView::Identifier(name) => name,
        ExprView::Value(value) => value.rendering(),
        ExprView::Binary { op, lhs, rhs } => seq!['('] + expr_text(lhs.ast) + seq![' ']
            + op.ast.symbol() + seq![' '] + expr_text(rhs.ast) + seq![')'],
        ExprView::Unary { op, operand } => seq!['('] + op.ast.symbol() + seq![' '] + expr_text(
            operand.ast,
        ) + seq![')'],
    }
}

impl Expr {
    /// Appends the expression, written with all its parentheses.
    pub fn push_to(&self, out: &mut String)
        ensures
            final(out)@ == old(out)@ + expr_text(self@),
        decreases self,
    {
        match self {
            Expr::Identifier(name) => push_str(out, name.as_str()),
            Expr::Value(value) => {
                let text = value.to_string();
                push_str(out, text.as_str());
            },
            Expr::Binary { op, lhs, rhs } => {
                push_char(out, '(');
                lhs.ast.push_to(out);
                push_char(out, ' ');
                push_str(out, op.ast.as_str());
                push_char(out, ' ');
                rhs.ast.push_to(out);
                push_char(out, ')');
                assert(out@ =~= old(out)@ + (seq!['('] + expr_text(lhs.ast@) + seq![' ']
                    + op.ast.symbol() + seq![' '] + expr_text(rhs.ast@) + seq![')']));
            },
            Expr::Unary { op, operand } => {
                push_char(out, '(');
                push_str(out, op.ast.as_str());
                push_char(out, ' ');
                operand.ast.push_to(out);
                push_char(out, ')');
                assert(out@ =~= old(out)@ + (seq!['('] + op.ast.symbol() + seq![' '] + expr_text(
                    operand.ast@,
                ) + seq![')']));
            },
        }
    }

    /// The expression, written with all its parentheses.
    pub fn to_string(&self) -> (r: String)
        ensures
            r@ == expr_text(self@),
    {
        let mut out = String::new();
        self.push_to(&mut out);
        assert(out@ =~= expr_text(self@));
        out
    }
}

/// An expression with its place, or the failure.
pub type ExprReading = Reading<Spanned<ExprView>>;

/// The first of two readings that is no failure, or the failure of the
/// second.
pub open spec fn first_of(first: ExprReading, second: ExprReading) -> ExprReading {
    if first is Ok {
        first
    } else {
        second
    }
}

/// The operand at the beginning of the text: a name or, where there is
/// none, a constant.
pub open spec fn atom_at(c: Cursor) -> ExprReading {
    match identifier_at(c) {
        Ok((name, rest)) => Ok(
            (
                Spanned {
                    ast: ExprView::Identifier(name),
                    start: c.position as usize,
                    end: rest.position as usize,
                },
                rest,
            ),
        ),
        Err(_) => match value_at(c) {
            Ok((value, rest)) => Ok(
                (
                    Spanned {
                        ast: ExprView::Value(value),
                        start: c.position as usize,
                        end: rest.position as usize,
                    },
                    rest,
                ),
            ),
            Err(error) => Err(error),
        },
    }
}

/// What is left behind the white space at the beginning of the text.
pub open spec fn spaced(c: Cursor) -> Cursor {
    c.skip(skip_spaces(c.text, 0))
}

/// An operator at the beginning of the text with its place.
pub open spec fn placed(c: Cursor, operator: Operator) -> Spanned<Operator> {
    Spanned {
        ast: operator,
        start: c.position as usize,
        end: (c.position + operator.symbol().len()) as usize,
    }
}

/// A prefix operator and the expression it binds.
pub open spec fn prefix_expression_at(c: Cursor) -> ExprReading
    decreases c.text.len(), 0nat,
{
    match unary_prefix(c.text) {
        Some(operator) => {
            let behind = spaced(c.skip(operator.symbol().len() as int));
            if behind.text.len() < c.text.len() {
                match expression_bp_at(behind, operator.prefix_power()) {
                    Ok((operand, rest)) => Ok(
                        (
                            Spanned {
                                ast: ExprView::Unary {
                                    op: placed(c, operator),
                                    operand: Box::new(operand),
                                },
                                start: c.position as usize,
                                end: rest.position as usize,
                            },
                            rest,
                        ),
                    ),
                    Err(error) => Err(error),
                }
            } else {
                Err(c.failure())
            }
        },
        None => Err(c.failure()),
    }
}

/// The expression at the beginning of the text that holds no infix
/// operator which binds to its left weaker than `min`: a prefix
/// expression or an operand, and then what [`climb_at`] adds to it.
pub open spec fn expression_bp_at(c: Cursor, min: int) -> ExprReading
    decreases c.text.len(), 1nat,
{
    match first_of(prefix_expression_at(c), atom_at(c)) {
        Ok((left, rest)) => if rest.text.len() <= c.text.len() {
            climb_at(rest, left, min)
        } else {
            Err(c.failure())
        },
        Err(error) => Err(error),
    }
}

/// The expression `left`, behind which the text `c` is left, grown to
/// the right: as long as an infix operator follows that binds to its
/// left no weaker than `min`, it is taken, the expression to its right
/// is read with the operator's power to the right as the new least
/// power, and the two are joined. White space before the operator is
/// dropped, whether the operator is taken or not.
pub open spec fn climb_at(c: Cursor, left: Spanned<ExprView>, min: int) -> ExprReading
    decreases c.text.len(), 0nat,
{
    let at = spaced(c);
    match operator_prefix(at.text, 0) {
        Some(operator) => if !operator.is_infix() || operator.infix_power().0 < min {
            Ok((left, at))
        } else {
            let behind = spaced(at.skip(operator.symbol().len() as int));
            if behind.text.len() < c.text.len() {
                match expression_bp_at(behind, operator.infix_power().1) {
                    Ok((right, rest)) => if rest.text.len() < c.text.len() {
                        climb_at(
                            rest,
                            Spanned {
                                ast: ExprView::Binary {
                                    op: placed(at, operator),
                                    lhs: Box::new(left),
                                    rhs: Box::new(right),
                                },
                                start: left.start,
                                end: right.end,
                            },
                            min,
                        )
                    } else {
                        Err(c.failure())
                    },
                    Err(error) => Err(error),
                }
            } else {
                Err(c.failure())
            }
        },
        None => Ok((left, at)),
    }
}

/// What a function that reads an expression has to return.
pub open spec fn reads_expr<'a>(result: SpannedResult<'a, Expr>, expected: ExprReading) -> bool {
    match result {
        Ok((rest, got)) => expected == Ok::<(Spanned<ExprView>, Cursor), ParserError>(
            (spanned_view(got), rest@),
        ) && rest.wf(),
        Err(error) => expected == Err::<(Spanned<ExprView>, Cursor), ParserError>(error),
    }
}

/// Drops the white space at the beginning of the input.
fn skip_multispace(input: Input<'_>) -> (r: Input<'_>)
    requires
        input.wf(),
    ensures
        r@ == spaced(input@),
        r.wf(),
        r@.text.len() <= input@.text.len(),
{
    let len: usize = input.input.unicode_len();
    let mut i: usize = 0;
    while i < len && space(input.input.get_char(i))
        invariant
            0 <= i <= len,
            len == input.input@.len(),
            skip_spaces(input.input@, 0) == skip_spaces(input.input@, i as int),
        decreases len - i,
    {
        i += 1;
    }
    input.slice(i)
}

/// Reads a name as an expression.
fn parse_identifer_atom(input: Input<'_>) -> (r: SpannedResult<'_, Expr>)
    requires
        input.wf(),
    ensures
        match r {
            Ok((rest, got)) => identifier_at(input@) matches Ok((name, behind)) && behind == rest@
                && rest.wf() && spanned_view(got) == (Spanned {
                ast: ExprView::Identifier(name),
                start: input.position,
                end: rest.position,
            }),
            Err(error) => identifier_at(input@) == Err::<(Seq<char>, Cursor), ParserError>(error),
        },
{
    let (rest, name) = parse_identifier(input)?;
    Ok((rest, Spanned { ast: Expr::Identifier(name.ast), start: name.start, end: name.end }))
}

/// Reads a constant as an expression.
fn parse_value_atom(input: Input<'_>) -> (r: SpannedResult<'_, Expr>)
    requires
        input.wf(),
    ensures
        match r {
            Ok((rest, got)) => value_at(input@) matches Ok((value, behind)) && behind == rest@
                && rest.wf() && spanned_view(got) == (Spanned {
                ast: ExprView::Value(value),
                start: input.position,
                end: rest.position,
            }),
            Err(error) => value_at(input@) == Err::<(ValueView, Cursor), ParserError>(error),
        },
{
    let (rest, value) = parse_value(input)?;
    Ok((rest, Spanned { ast: Expr::Value(value.ast), start: value.start, end: value.end }))
}

/// Reads an operand; see [`atom_at`].
fn parse_atom(input: Input<'_>) -> (r: SpannedResult<'_, Expr>)
    requires
        input.wf(),
    ensures
        reads_expr(r, atom_at(input@)),
{
    match parse_identifer_atom(input) {
        Ok(found) => Ok(found),
        Err(_) => parse_value_atom(input),
    }
}

/// Reads a prefix operator and the expression it binds; see
/// [`prefix_expression_at`].
fn parse_prefix_expression(input: Input<'_>) -> (r: SpannedResult<'_, Expr>)
    requires
        input.wf(),
    ensures
        reads_expr(r, prefix_expression_at(input@)),
    decreases input@.text.len(), 0nat,
{
    let start: usize = input.position;
    let (behind, op) = match parse_unary_operator(input) {
        Ok(found) => found,
        Err(error) => {
            return Err(error);
        },
    };
    let ((), r_bp) = op.ast.prefix_binding_power();
    let behind = skip_multispace(behind);
    if behind.input_len() >= input.input_len() {
        return Err(input.fail());
    }
    let (rest, operand) = parse_expression_bp(behind, r_bp)?;
    let unary = Expr::Unary { op, operand: Box::new(operand) };
    Ok((rest, Spanned { ast: unary, start, end: rest.position }))
}

/// Reads an expression.
pub fn parse_expression(input: Input<'_>) -> (r: SpannedResult<'_, Expr>)
    requires
        input.wf(),
    ensures
        reads_expr(r, expression_bp_at(input@, 0)),
{
    parse_expression_bp(input, 0)
}

/// Reads an expression; see [`expression_bp_at`].
fn parse_expression_bp(input: Input<'_>, min_bp: u8) -> (r: SpannedResult<'_, Expr>)
    requires
        input.wf(),
    ensures
        reads_expr(r, expression_bp_at(input@, min_bp as int)),
    decreases input@.text.len(), 1nat,
{
    let (rest, left) = match parse_prefix_expression(input) {
        Ok(found) => found,
        Err(_) => parse_atom(input)?,
    };
    if rest.input_len() <= input.input_len() {
        parse_climb(rest, left, min_bp)
    } else {
        Err(input.fail())
    }
}

/// Grows the expression `left` to the right; see [`climb_at`].
fn parse_climb<'a>(input: Input<'a>, left: Spanned<Expr>, min_bp: u8) -> (r: SpannedResult<
    'a,
    Expr,
>)
    requires
        input.wf(),
    ensures
        reads_expr(r, climb_at(input@, spanned_view(left), min_bp as int)),
    decreases input@.text.len(), 0nat,
{
    let ghost goal = climb_at(input@, spanned_view(left), min_bp as int);
    let mut grown = left;
    let mut rest = input;
    loop
        invariant_except_break
            goal == climb_at(rest@, spanned_view(grown), min_bp as int),
        invariant
            rest.wf(),
            goal == climb_at(input@, spanned_view(left), min_bp as int),
            rest@.text.len() <= input@.text.len(),
        ensures
            goal == Ok::<(Spanned<ExprView>, Cursor), ParserError>((spanned_view(grown), rest@)),
        decreases rest@.text.len(),
    {
        let at = skip_multispace(rest);
        let (behind, op) = match parse_operator(at) {
            Ok(found) => found,
            Err(_) => {
                rest = at;
                break ;
            },
        };
        if op.ast == Operator::Not {
            rest = at;
            break ;
        }
        let (l_bp, r_bp) = op.ast.infix_binding_power();
        if l_bp < min_bp {
            rest = at;
            break ;
        }
        let behind = skip_multispace(behind);
        if behind.input_len() >= rest.input_len() {
            return Err(rest.fail());
        }
        let (after, rhs) = match parse_expression_bp(behind, r_bp) {
            Ok(found) => found,
            Err(error) => {
                return Err(error);
            },
        };
        if after.input_len() >= rest.input_len() {
            return Err(rest.fail());
        }
        grown =
        Spanned {
            start: grown.start,
            end: rhs.end,
            ast: Expr::Binary { op, lhs: Box::new(grown), rhs: Box::new(rhs) },
        };
        rest = after;
    }
    Ok((rest, grown))
}

} // verus!
