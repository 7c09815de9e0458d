//! The places that the readers keep are right: what is read lies where
//! its place says, and what is left is the end of the text.

use vstd::prelude::*;

use crate::parser::expression::{
    atom_at, climb_at, expression_bp_at, placed, prefix_expression_at, spaced, ExprView,
};
use crate::parser::identifier::identifier_at;
use crate::parser::input::Cursor;
use crate::parser::lexical::{skip_spaces, word_end};
use crate::parser::literal::{
    blanks_end, bool_at, digits_at, float_at, integer_at, part_end, radix_integer_at, run_end,
    sign_at, value_at, word_at, Reading, Sign,
};
use crate::parser::operator::{operator_prefix, unary_prefix};
use crate::parser::spanned::Spanned;

verus! {

/// Whether `rest` is the end of the text of `c`, at its place.
pub open spec fn leads(c: Cursor, rest: Cursor) -> bool {
    &&& c.position <= rest.position <= c.position + c.text.len()
    &&& rest == c.skip(rest.position - c.position)
}

/// Whether a reading, if it is one, leaves the end of the text.
pub open spec fn leaves_rest<T>(c: Cursor, reading: Reading<T>) -> bool {
    reading matches Ok((_, rest)) ==> leads(c, rest)
}

proof fn lemma_leads_skip(c: Cursor, count: int)
    requires
        0 <= count <= c.text.len(),
    ensures
        leads(c, c.skip(count)),
        c.wf() ==> c.skip(count).wf(),
{
}

proof fn lemma_leads_trans(a: Cursor, b: Cursor, c: Cursor)
    requires
        leads(a, b),
        leads(b, c),
    ensures
        leads(a, c),
{
    let m = b.position - a.position;
    let n = c.position - b.position;
    assert(a.text.skip(m).skip(n) =~= a.text.skip(m + n));
}

proof fn lemma_leads_wf(a: Cursor, b: Cursor)
    requires
        a.wf(),
        leads(a, b),
    ensures
        b.wf(),
{
}

proof fn lemma_word_leads<T>(c: Cursor, word: Seq<char>, value: T)
    ensures
        leaves_rest(c, word_at(c, word, value)),
{
}

proof fn lemma_blanks_bounds(text: Seq<char>, from: int)
    requires
        0 <= from <= text.len(),
    ensures
        from <= blanks_end(text, from) <= text.len(),
    decreases text.len() - from,
{
    if from < text.len() {
        lemma_blanks_bounds(text, from + 1);
    }
}

proof fn lemma_spaces_bounds(text: Seq<char>, from: int)
    requires
        0 <= from <= text.len(),
    ensures
        from <= skip_spaces(text, from) <= text.len(),
    decreases text.len() - from,
{
    if from < text.len() {
        lemma_spaces_bounds(text, from + 1);
    }
}

proof fn lemma_run_bounds(text: Seq<char>, from: int, radix: int)
    requires
        0 <= from <= text.len(),
    ensures
        from <= run_end(text, from, radix) <= text.len(),
        from <= part_end(text, from) <= text.len(),
    decreases text.len() - from,
{
    if from < text.len() {
        lemma_run_bounds(text, from + 1, radix);
        lemma_run_bounds(text, from + 1, 10);
    }
}

proof fn lemma_word_end_bounds(text: Seq<char>, from: int)
    requires
        0 <= from <= text.len(),
    ensures
        from <= word_end(text, from) <= text.len(),
    decreases text.len() - from,
{
    if from < text.len() {
        lemma_word_end_bounds(text, from + 1);
    }
}

/// What is left behind white space is the end of the text.
proof fn lemma_spaced_leads(c: Cursor)
    ensures
        leads(c, spaced(c)),
        spaced(c).text.len() <= c.text.len(),
{
    lemma_spaces_bounds(c.text, 0);
}

/// What is left behind the sign, if there is one, and the blanks that
/// follow.
spec fn behind_sign(c: Cursor) -> Cursor {
    let signed = match sign_at(c) {
        Ok((_, behind)) => behind,
        Err(_) => c,
    };
    signed.skip(blanks_end(signed.text, 0))
}

proof fn lemma_behind_sign_leads(c: Cursor)
    ensures
        leads(c, behind_sign(c)),
{
    let signed = match sign_at(c) {
        Ok((_, behind)) => behind,
        Err(_) => c,
    };
    assert(c.skip(0).text =~= c.text);
    lemma_word_leads(c, "+"@, Sign::Positive);
    lemma_word_leads(c, "-"@, Sign::Negative);
    assert(leads(c, signed));
    lemma_blanks_bounds(signed.text, 0);
    lemma_leads_skip(signed, blanks_end(signed.text, 0));
    lemma_leads_trans(c, signed, behind_sign(c));
}

proof fn lemma_digits_lead(c: Cursor, radix: int)
    ensures
        leaves_rest(c, digits_at(c, radix)),
{
    lemma_run_bounds(c.text, 0, radix);
}

proof fn lemma_radix_integer_leads(c: Cursor, radix: int, prefix: Option<Seq<char>>)
    ensures
        leaves_rest(c, radix_integer_at(c, radix, prefix)),
{
    let blank = behind_sign(c);
    lemma_behind_sign_leads(c);
    let prefixed = match prefix {
        Some(prefix) => word_at(blank, prefix, ()),
        None => Ok(((), blank)),
    };
    match prefixed {
        Ok((_, digits)) => {
            assert(leads(blank, digits)) by {
                lemma_leads_skip(blank, 0);
                assert(blank.skip(0).text =~= blank.text);
            }
            lemma_digits_lead(digits, radix);
            match digits_at(digits, radix) {
                Ok((_, rest)) => {
                    lemma_leads_trans(c, blank, digits);
                    lemma_leads_trans(c, digits, rest);
                },
                Err(_) => {},
            }
        },
        Err(_) => {},
    }
}

proof fn lemma_value_leads(c: Cursor)
    ensures
        leaves_rest(c, value_at(c)),
        leaves_rest(c, integer_at(c)),
        leaves_rest(c, float_at(c)),
        leaves_rest(c, bool_at(c)),
{
    lemma_radix_integer_leads(c, 10, None);
    lemma_radix_integer_leads(c, 16, Some("0x"@));
    lemma_radix_integer_leads(c, 8, Some("0o"@));
    lemma_radix_integer_leads(c, 2, Some("0b"@));
    let blank = behind_sign(c);
    lemma_behind_sign_leads(c);
    lemma_run_bounds(blank.text, 0, 10);
    let point = part_end(blank.text, 0);
    if point < blank.text.len() {
        lemma_run_bounds(blank.text, point + 1, 10);
        lemma_leads_skip(blank, part_end(blank.text, point + 1));
        lemma_leads_trans(c, blank, blank.skip(part_end(blank.text, point + 1)));
    }
}

proof fn lemma_identifier_leads(c: Cursor)
    ensures
        leaves_rest(c, identifier_at(c)),
{
    lemma_word_end_bounds(c.text, 0);
}

/// Whether the places kept in an expression are in order: every part
/// lies inside the whole, and an operator behind its left operand and
/// before its right one. The whole begins with its first part. With two
/// operands it ends with the second; behind a prefix operator it ends
/// where reading went on, which may be behind white space.
pub open spec fn in_order(e: Spanned<ExprView>) -> bool
    decreases e,
{
    e.start <= e.end && match e.ast {
        ExprView::Identifier(_) => true,
        ExprView::Value(_) => true,
        ExprView::Binary { op, lhs, rhs } => {
            &&& lhs.start == e.start
            &&& lhs.end <= op.start
            &&& op.start <= op.end
            &&& op.end <= rhs.start
            &&& rhs.end == e.end
            &&& in_order(*lhs)
            &&& in_order(*rhs)
        },
        ExprView::Unary { op, operand } => {
            &&& op.start == e.start
            &&& op.start <= op.end
            &&& op.end <= operand.start
            &&& operand.end <= e.end
            &&& in_order(*operand)
        },
    }
}

/// Whether an expression that was read from `c` and left `rest` lies
/// where its place says: it begins where `c` does and ends before
/// `rest`, which is the end of the text, and its places are in order.
pub open spec fn placed_right(c: Cursor, reading: Reading<Spanned<ExprView>>) -> bool {
    reading matches Ok((e, rest)) ==> leads(c, rest) && e.start == c.position && e.end
        <= rest.position && in_order(e)
}

proof fn lemma_operator_fits(text: Seq<char>, from: int)
    ensures
        operator_prefix(text, from) matches Some(operator) ==> operator.symbol().len()
            <= text.len(),
        unary_prefix(text) matches Some(operator) ==> operator.symbol().len() <= text.len(),
    decreases 16 - from,
{
    if 0 <= from < 16 {
        lemma_operator_fits(text, from + 1);
    }
}

proof fn lemma_atom_placed(c: Cursor)
    requires
        c.wf(),
    ensures
        placed_right(c, atom_at(c)),
{
    lemma_identifier_leads(c);
    lemma_value_leads(c);
}

/// A prefix expression lies where its place says.
proof fn lemma_prefix_placed(c: Cursor)
    requires
        c.wf(),
    ensures
        placed_right(c, prefix_expression_at(c)),
    decreases c.text.len(), 0nat,
{
    lemma_operator_fits(c.text, 0);
    match unary_prefix(c.text) {
        Some(operator) => {
            let after = c.skip(operator.symbol().len() as int);
            let behind = spaced(after);
            lemma_leads_skip(c, operator.symbol().len() as int);
            lemma_spaced_leads(after);
            lemma_leads_trans(c, after, behind);
            lemma_leads_wf(c, after);
            lemma_leads_wf(c, behind);
            if behind.text.len() < c.text.len() {
                lemma_expression_placed(behind, operator.prefix_power());
                match expression_bp_at(behind, operator.prefix_power()) {
                    Ok((operand, rest)) => {
                        lemma_leads_trans(c, behind, rest);
                        lemma_leads_wf(c, rest);
                    },
                    Err(_) => {},
                }
            }
        },
        None => {},
    }
}

/// An expression lies where its place says, and what is left behind it
/// is the end of the text.
pub proof fn lemma_expression_placed(c: Cursor, min: int)
    requires
        c.wf(),
    ensures
        placed_right(c, expression_bp_at(c, min)),
    decreases c.text.len(), 1nat,
{
    lemma_prefix_placed(c);
    lemma_atom_placed(c);
    let first = if prefix_expression_at(c) is Ok {
        prefix_expression_at(c)
    } else {
        atom_at(c)
    };
    match first {
        Ok((left, rest)) => {
            if rest.text.len() <= c.text.len() {
                lemma_climb_placed(c, rest, left, min);
            }
        },
        Err(_) => {},
    }
}

/// An expression that is grown to the right lies where its place says.
proof fn lemma_climb_placed(origin: Cursor, c: Cursor, left: Spanned<ExprView>, min: int)
    requires
        origin.wf(),
        leads(origin, c),
        left.start == origin.position,
        left.end <= c.position,
        in_order(left),
    ensures
        placed_right(origin, climb_at(c, left, min)),
    decreases c.text.len(), 0nat,
{
    let at = spaced(c);
    lemma_spaced_leads(c);
    lemma_leads_trans(origin, c, at);
    lemma_operator_fits(at.text, 0);
    match operator_prefix(at.text, 0) {
        Some(operator) => {
            if operator.is_infix() && operator.infix_power().0 >= min {
                let after = at.skip(operator.symbol().len() as int);
                let behind = spaced(after);
                lemma_leads_skip(at, operator.symbol().len() as int);
                lemma_spaced_leads(after);
                lemma_leads_trans(origin, at, after);
                lemma_leads_trans(origin, after, behind);
                if behind.text.len() < c.text.len() {
                    lemma_expression_placed(behind, operator.infix_power().1);
                    match expression_bp_at(behind, operator.infix_power().1) {
                        Ok((right, rest)) => {
                            if rest.text.len() < c.text.len() {
                                lemma_leads_trans(origin, behind, rest);
                                let joined = Spanned {
                                    ast: ExprView::Binary {
                                        op: placed(at, operator),
                                        lhs: Box::new(left),
                                        rhs: Box::new(right),
                                    },
                                    start: left.start,
                                    end: right.end,
                                };
                                lemma_climb_placed(origin, rest, joined, min);
                            }
                        },
                        Err(_) => {},
                    }
                }
            }
        },
        None => {},
    }
}

/// The places that are kept in an expression are right: the expression
/// begins where the text does, ends before what is left, and holds its
/// parts in the order of the text; what is left is the end of the text.
pub proof fn law_places_are_right(c: Cursor)
    requires
        c.wf(),
    ensures
        placed_right(c, expression_bp_at(c, 0)),
{
    lemma_expression_placed(c, 0);
}

} // verus!
