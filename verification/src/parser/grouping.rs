//! How the operators of an expression of any length are grouped.

use vstd::prelude::*;

use crate::ast::model::ExpressionView;
use crate::parser::{ParserError, Rule, Tree};
use crate::parser::builder::{
    binding_power, climb, climb_on, infix_of, operand_of, prefix_of, prefix_power,
};

verus! {

/// Whether none of the tokens is an expression in parentheses.
pub open spec fn plain(tokens: Seq<Tree>) -> bool {
    forall|i: int| 0 <= i < tokens.len() ==> (#[trigger] tokens[i]).rule != Rule::expression
}

/// Whether every operator at the left edge of the expression binds to
/// its left at least as strongly as `power`. The left edge holds the
/// operator at the top and then the left edge of its left operand.
pub open spec fn left_edge_from(e: ExpressionView, power: int) -> bool
    decreases e,
{
    match e {
        ExpressionView::Binary(left, operator, _) => binding_power(operator).0 >= power
            && left_edge_from(*left, power),
        _ => true,
    }
}

/// Whether every operator at the right edge of the expression binds to
/// its right stronger than `power`. The right edge holds the operator at
/// the top, infix or prefix, and then the right edge of its last operand.
pub open spec fn right_edge_above(e: ExpressionView, power: int) -> bool
    decreases e,
{
    match e {
        ExpressionView::Binary(_, operator, right) => binding_power(operator).1 > power
            && right_edge_above(*right, power),
        ExpressionView::Unary(_, operand) => prefix_power() > power && right_edge_above(
            *operand,
            power,
        ),
        _ => true,
    }
}

/// Whether every operator has the operands that its binding power gives
/// it. The left operand of an infix operator ends with nothing that
/// binds to the right no stronger than the operator binds to its left,
/// and the right operand begins with nothing that binds to the left
/// weaker than the operator binds to its right. The operand of a prefix
/// operator begins with nothing that binds to the left weaker than a
/// prefix operator binds.
pub open spec fn well_grouped(e: ExpressionView) -> bool
    decreases e,
{
    match e {
        ExpressionView::Binary(left, operator, right) => {
            &&& well_grouped(*left)
            &&& well_grouped(*right)
            &&& right_edge_above(*left, binding_power(operator).0)
            &&& left_edge_from(*right, binding_power(operator).1)
        },
        ExpressionView::Unary(_, operand) => well_grouped(*operand) && left_edge_from(
            *operand,
            prefix_power(),
        ),
        _ => true,
    }
}

/// Whether the expression `e`, which was read with the least power `min`
/// and ends before `next`, ends where it has to: an infix operator that
/// follows binds to its left weaker than `min`, and weaker than every
/// operator at the right edge of `e` binds to its right.
pub open spec fn ends_well(tokens: Seq<Tree>, e: ExpressionView, next: int, min: int) -> bool {
    0 <= next < tokens.len() ==> match infix_of(tokens[next].rule) {
        Some(operator) => binding_power(operator).0 < min && right_edge_above(
            e,
            binding_power(operator).0,
        ),
        None => true,
    }
}

/// Whether an infix operator at `pos` binds to its left weaker than every
/// operator at the right edge of `e` binds to its right.
pub open spec fn yields_to(tokens: Seq<Tree>, e: ExpressionView, pos: int) -> bool {
    0 <= pos < tokens.len() ==> match infix_of(tokens[pos].rule) {
        Some(operator) => right_edge_above(e, binding_power(operator).0),
        None => true,
    }
}

/// What holds of an expression that was read with the least power `min`.
pub open spec fn read_well(tokens: Seq<Tree>, read: Result<(ExpressionView, int), ParserError>, min: int) -> bool {
    match read {
        Ok((e, next)) => well_grouped(e) && left_edge_from(e, min) && ends_well(
            tokens,
            e,
            next,
            min,
        ),
        Err(_) => true,
    }
}

/// An operand is well grouped, is no expression of two operands, and
/// yields to the operator that follows it.
proof fn lemma_operand_read_well(tokens: Seq<Tree>, pos: int, whole: ParserError)
    requires
        plain(tokens),
    ensures
        match operand_of(tokens, pos, whole) {
            Ok((e, next)) => well_grouped(e) && !(e is Binary) && yields_to(tokens, e, next),
            Err(_) => true,
        },
    decreases tokens.len() - pos, 1nat,
{
    if 0 <= pos < tokens.len() {
        if prefix_of(tokens[pos].rule) is Some {
            lemma_climb_read_well(tokens, pos + 1, prefix_power(), whole);
        }
    }
}

/// See [`law_operators_take_what_binds_stronger`].
proof fn lemma_climb_read_well(tokens: Seq<Tree>, pos: int, min: int, whole: ParserError)
    requires
        plain(tokens),
    ensures
        read_well(tokens, climb(tokens, pos, min, whole), min),
    decreases tokens.len() - pos, 2nat,
{
    lemma_operand_read_well(tokens, pos, whole);
    match operand_of(tokens, pos, whole) {
        Ok((left, next)) => {
            if pos < next <= tokens.len() {
                lemma_climb_on_read_well(tokens, left, next, min, whole);
            }
        },
        Err(_) => {},
    }
}

/// See [`law_operators_take_what_binds_stronger`].
proof fn lemma_climb_on_read_well(
    tokens: Seq<Tree>,
    left: ExpressionView,
    pos: int,
    min: int,
    whole: ParserError,
)
    requires
        plain(tokens),
        well_grouped(left),
        left_edge_from(left, min),
        yields_to(tokens, left, pos),
    ensures
        read_well(tokens, climb_on(tokens, left, pos, min, whole), min),
    decreases tokens.len() - pos, 3nat,
{
    if 0 <= pos < tokens.len() {
        match infix_of(tokens[pos].rule) {
            Some(operator) => {
                if binding_power(operator).0 >= min {
                    lemma_climb_read_well(tokens, pos + 1, binding_power(operator).1, whole);
                    match climb(tokens, pos + 1, binding_power(operator).1, whole) {
                        Ok((right, next)) => {
                            if pos < next <= tokens.len() {
                                let joined = ExpressionView::Binary(
                                    Box::new(left),
                                    operator,
                                    Box::new(right),
                                );
                                assert(well_grouped(joined));
                                assert(left_edge_from(joined, min));
                                assert(yields_to(tokens, joined, next));
                                lemma_climb_on_read_well(tokens, joined, next, min, whole);
                            }
                        },
                        Err(_) => {},
                    }
                }
            },
            None => {},
        }
    }
}

/// However many operators an expression without parentheses holds, each
/// has the operands that its binding power gives it: see
/// [`well_grouped`].
pub proof fn law_operators_take_what_binds_stronger(tokens: Seq<Tree>, whole: ParserError)
    requires
        plain(tokens),
    ensures
        match climb(tokens, 0, 0, whole) {
            Ok((e, _)) => well_grouped(e),
            Err(_) => true,
        },
{
    lemma_climb_read_well(tokens, 0, 0, whole);
}

} // verus!
