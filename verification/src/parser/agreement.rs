//! The grammar and the readers of its trees agree: a tree that the
//! grammar makes is never out of place for the reader.

use vstd::prelude::*;

use crate::ast::model::ExpressionView;
use crate::parser::{malformed, program_of, ParserError, ParserErrorKind, Rule, Tree};
use crate::parser::builder::{
    binding_power, block_of, branch_of, climb, climb_on, conditional_children, else_if_of,
    else_ifs_of, else_of, expression_of, infix_of, operand_of, prefix_of, prefix_power, radix_of,
    statement_of, statements_of, value_of, Climb,
};
use crate::parser::grammar::{
    assignment_at, block_at, declaration_at, else_branches_at, expression_at,
    expression_statement_at, float_at, for_head_at, guard_at, identifier_at, if_at, infix_at,
    initializer_at, jump_at, keyword_at, lemma_digits_bounds, lemma_identifier_bounds,
    lemma_skip_bounds, optional_digits_end, prefix_at, print_at, program_at, statement_at,
    statements_at, tail_at, term_at, value_at, with_block, Match,
};
use crate::parser::lexical::{
    digits_end, has_char, has_word, is_digit, is_radix_digit, leaf, skip_spaces,
};
use crate::parser::numeral::{compact, digit_run, is_decimal_numeral};

verus! {

/// Whether a reading ended well or for the one reason that lies in the
/// text: an integer that does not fit. A tree that is out of place is
/// another matter, and so is a numeral that is none.
pub open spec fn agrees<T>(result: Result<T, ParserError>) -> bool {
    match result {
        Ok(_) => true,
        Err(error) => error.kind == ParserErrorKind::ParseIntError,
    }
}

/// Whether a token is a value, a name or an expression in parentheses
/// that the reader is at ease with.
pub open spec fn is_operand(token: Tree) -> bool {
    ||| token.rule == Rule::identifier
    ||| token.rule == Rule::value && agrees(value_of(token))
    ||| token.rule == Rule::expression && agrees(expression_of(token))
}

/// Whether the tokens from `from` on are operands with infix operators
/// between them, each operand with any number of prefix operators before
/// it.
pub open spec fn alternating(tokens: Seq<Tree>, from: int) -> bool
    decreases tokens.len() - from, 1nat,
{
    0 <= from < tokens.len() && if prefix_of(tokens[from].rule) is Some {
        alternating(tokens, from + 1)
    } else {
        is_operand(tokens[from]) && follows(tokens, from + 1)
    }
}

/// Whether the tokens from `from` on are what can follow an operand:
/// nothing, or an infix operator and then operands and operators in turn.
pub open spec fn follows(tokens: Seq<Tree>, from: int) -> bool
    decreases tokens.len() - from, 0nat,
{
    from == tokens.len() || (0 <= from < tokens.len() && infix_of(tokens[from].rule) is Some
        && alternating(tokens, from + 1))
}

/// Whether a reading from tokens ended well or for a reason that lies
/// in the text, and, when it ended well, ended behind `pos` where the
/// tokens go on with an infix operator that binds to its left weaker
/// than `min`, or where they end.
pub open spec fn lands(tokens: Seq<Tree>, pos: int, min: int, result: Climb) -> bool {
    match result {
        Ok((_, next)) => pos <= next <= tokens.len() && follows(tokens, next) && (next
            < tokens.len() ==> binding_power(infix_of(tokens[next].rule)->0).0 < min),
        Err(error) => error.kind == ParserErrorKind::ParseIntError,
    }
}

/// Whether a reading of one operand ended well or for a reason that lies
/// in the text, and, when it ended well, ended behind `pos` where an
/// infix operator follows, or nothing.
pub open spec fn lands_behind(tokens: Seq<Tree>, pos: int, result: Climb) -> bool {
    match result {
        Ok((_, next)) => pos < next <= tokens.len() && follows(tokens, next),
        Err(error) => error.kind == ParserErrorKind::ParseIntError,
    }
}

/// Reading an operand from tokens that alternate never finds a token out
/// of place.
pub proof fn lemma_operand_lands(tokens: Seq<Tree>, pos: int, whole: ParserError)
    requires
        alternating(tokens, pos),
    ensures
        lands_behind(tokens, pos, operand_of(tokens, pos, whole)),
    decreases tokens.len() - pos, 1nat,
{
    let token = tokens[pos];
    if prefix_of(token.rule) is Some {
        lemma_climb_lands(tokens, pos + 1, prefix_power(), whole);
    }
}

/// Reading an expression from tokens that alternate never finds a token
/// out of place.
pub proof fn lemma_climb_lands(tokens: Seq<Tree>, pos: int, min: int, whole: ParserError)
    requires
        alternating(tokens, pos),
    ensures
        lands(tokens, pos, min, climb(tokens, pos, min, whole)),
        climb(tokens, pos, min, whole) matches Ok((_, next)) ==> pos < next,
    decreases tokens.len() - pos, 2nat,
{
    lemma_operand_lands(tokens, pos, whole);
    match operand_of(tokens, pos, whole) {
        Ok((left, next)) => {
            lemma_climb_on_lands(tokens, left, next, min, whole);
        },
        Err(_) => {},
    }
}

/// Growing an expression to the right over tokens that alternate never
/// finds a token out of place.
pub proof fn lemma_climb_on_lands(
    tokens: Seq<Tree>,
    left: ExpressionView,
    pos: int,
    min: int,
    whole: ParserError,
)
    requires
        0 <= pos <= tokens.len(),
        follows(tokens, pos),
    ensures
        lands(tokens, pos, min, climb_on(tokens, left, pos, min, whole)),
    decreases tokens.len() - pos, 0nat,
{
    if pos < tokens.len() {
        let operator = infix_of(tokens[pos].rule)->0;
        if binding_power(operator).0 >= min {
            lemma_climb_lands(tokens, pos + 1, binding_power(operator).1, whole);
            match climb(tokens, pos + 1, binding_power(operator).1, whole) {
                Ok((right, next)) => {
                    lemma_climb_on_lands(
                        tokens,
                        ExpressionView::Binary(Box::new(left), operator, Box::new(right)),
                        next,
                        min,
                        whole,
                    );
                },
                Err(_) => {},
            }
        }
    }
}

/// An expression whose tokens alternate is read without a token being
/// found out of place.
pub proof fn lemma_alternating_is_read(tree: Tree)
    requires
        tree.rule == Rule::expression,
        alternating(tree.children, 0),
    ensures
        agrees(expression_of(tree)),
{
    let whole = malformed(tree, ParserErrorKind::WIP);
    lemma_climb_lands(tree.children, 0, 0, whole);
}


/// Whether the tokens alternate depends on the tokens from `from` on
/// alone.
proof fn lemma_shift(a: Seq<Tree>, p: int, b: Seq<Tree>, q: int)
    requires
        0 <= p <= a.len(),
        0 <= q <= b.len(),
        a.skip(p) == b.skip(q),
    ensures
        alternating(a, p) == alternating(b, q),
        follows(a, p) == follows(b, q),
    decreases a.len() - p,
{
    assert(a.skip(p).len() == a.len() - p);
    assert(b.skip(q).len() == b.len() - q);
    if p < a.len() {
        assert(a[p] == a.skip(p)[0]);
        assert(b[q] == b.skip(q)[0]);
        assert(a.skip(p + 1) =~= a.skip(p).skip(1));
        assert(b.skip(q + 1) =~= b.skip(q).skip(1));
        lemma_shift(a, p + 1, b, q + 1);
    }
}

/// What is compact in two texts in a row is what is compact in the one
/// and then what is compact in the other.
proof fn lemma_compact_concat(a: Seq<char>, b: Seq<char>)
    ensures
        compact(a + b) == compact(a) + compact(b),
    decreases b.len(),
{
    if b.len() == 0 {
        assert(a + b =~= a);
        assert(compact(a) + compact(b) =~= compact(a));
    } else {
        assert((a + b).drop_last() =~= a + b.drop_last());
        assert((a + b).last() == b.last());
        lemma_compact_concat(a, b.drop_last());
        assert(compact(a) + compact(b.drop_last()).push(b.last()) =~= (compact(a) + compact(
            b.drop_last(),
        )).push(b.last()));
    }
}

/// Whether the text holds nothing but digits and underscores.
spec fn is_run(text: Seq<char>) -> bool {
    forall|i: int| 0 <= i < text.len() ==> is_digit(#[trigger] text[i]) || text[i] == '_'
}

/// Whether the text holds nothing but digits.
spec fn all_digits(text: Seq<char>) -> bool {
    forall|i: int| 0 <= i < text.len() ==> is_digit(#[trigger] text[i])
}

/// What is compact in digits and underscores is digits, and at least one
/// where the first character is a digit.
proof fn lemma_compact_run(run: Seq<char>)
    requires
        is_run(run),
    ensures
        all_digits(compact(run)),
        run.len() > 0 && is_digit(run[0]) ==> compact(run).len() > 0,
    decreases run.len(),
{
    if run.len() > 0 {
        let front = run.drop_last();
        assert forall|i: int| 0 <= i < front.len() implies is_digit(#[trigger] front[i])
            || front[i] == '_' by {
            assert(front[i] == run[i]);
        }
        lemma_compact_run(front);
        if front.len() > 0 {
            assert(front[0] == run[0]);
        }
    }
}

/// The digits and underscores that the grammar takes for one run are
/// digits and underscores, and no digit follows them.
proof fn lemma_digits_end_run(s: Seq<char>, pos: int)
    requires
        0 <= pos <= s.len(),
    ensures
        pos <= digits_end(s, pos, 10) <= s.len(),
        is_run(s.subrange(pos, digits_end(s, pos, 10))),
        digits_end(s, pos, 10) < s.len() ==> !is_digit(s[digits_end(s, pos, 10)]),
    decreases s.len() - pos,
{
    let end = digits_end(s, pos, 10);
    if pos < s.len() && (is_radix_digit(s[pos], 10) || s[pos] == '_') {
        lemma_digits_end_run(s, pos + 1);
        let rest = s.subrange(pos + 1, end);
        let run = s.subrange(pos, end);
        assert forall|i: int| 0 <= i < run.len() implies is_digit(#[trigger] run[i]) || run[i]
            == '_' by {
            if i > 0 {
                assert(run[i] == rest[i - 1]);
            }
        }
    }
}

/// Digits up to a character that is none are one run of digits.
proof fn lemma_digit_run_over(text: Seq<char>, from: int, upto: int)
    requires
        0 <= from <= upto <= text.len(),
        forall|i: int| from <= i < upto ==> is_digit(#[trigger] text[i]),
        upto < text.len() ==> !is_digit(text[upto]),
    ensures
        digit_run(text, from) == upto,
    decreases upto - from,
{
    if from < upto {
        assert(is_digit(text[from]));
        lemma_digit_run_over(text, from + 1, upto);
    }
}

/// The digits that the grammar takes for one part of a float, compact:
/// they are digits, and at least one where the part is not empty.
proof fn lemma_part_compact(s: Seq<char>, pos: int)
    requires
        0 <= pos <= s.len(),
    ensures
        pos <= optional_digits_end(s, pos) <= s.len(),
        all_digits(compact(s.subrange(pos, optional_digits_end(s, pos)))),
        pos < optional_digits_end(s, pos) ==> compact(
            s.subrange(pos, optional_digits_end(s, pos)),
        ).len() > 0,
        optional_digits_end(s, pos) < s.len() ==> !is_digit(s[optional_digits_end(s, pos)]),
{
    let end = optional_digits_end(s, pos);
    let run = s.subrange(pos, end);
    if pos < s.len() && is_digit(s[pos]) {
        lemma_digits_end_run(s, pos);
        lemma_digits_end_run(s, pos + 1);
        assert(run[0] == s[pos]);
        lemma_compact_run(run);
    } else {
        assert(run =~= Seq::<char>::empty());
    }
}

/// The grammar makes floats without sign that are decimal numerals.
proof fn lemma_float_is_numeral(s: Seq<char>, pos: int)
    requires
        0 <= pos <= s.len(),
    ensures
        float_at(s, pos, false) matches Some((tree, _)) ==> tree.rule == Rule::float
            && is_decimal_numeral(compact(tree.text)),
{
    let point = optional_digits_end(s, pos);
    lemma_part_compact(s, pos);
    if point < s.len() {
        let end = optional_digits_end(s, point + 1);
        lemma_part_compact(s, point + 1);
        if has_char(s, point, '.') && (pos < point || point + 1 < end) {
            let whole = s.subrange(pos, point);
            let fraction = s.subrange(point + 1, end);
            let text = s.subrange(pos, end);
            assert(text =~= whole + seq!['.'] + fraction);
            lemma_compact_concat(whole + seq!['.'], fraction);
            lemma_compact_concat(whole, seq!['.']);
            assert(seq!['.'].drop_last() =~= Seq::<char>::empty());
            assert(compact(seq!['.']) =~= seq!['.']) by {
                reveal_with_fuel(compact, 2);
            }
            let before = compact(whole);
            let behind = compact(fraction);
            let numeral = compact(text);
            assert(numeral =~= before + seq!['.'] + behind);
            assert(numeral[before.len() as int] == '.');
            assert forall|i: int| 0 <= i < before.len() implies is_digit(#[trigger] numeral[i]) by {
                assert(numeral[i] == before[i]);
            }
            assert forall|i: int| before.len() + 1 <= i < numeral.len() implies is_digit(
                #[trigger] numeral[i],
            ) by {
                assert(numeral[i] == behind[i - before.len() - 1]);
            }
            assert(numeral[0] != '+' && numeral[0] != '-') by {
                if before.len() > 0 {
                    assert(is_digit(numeral[0]));
                }
            }
            lemma_digit_run_over(numeral, 0, before.len() as int);
            lemma_digit_run_over(numeral, before.len() as int + 1, numeral.len() as int);
        }
    }
}

/// The grammar makes values without sign that the reader is at ease
/// with.
pub proof fn lemma_value_agrees(s: Seq<char>, pos: int)
    requires
        0 <= pos <= s.len(),
    ensures
        value_at(s, pos, false) matches Some((tree, _)) ==> tree.rule == Rule::value && agrees(
            value_of(tree),
        ),
{
    lemma_digits_bounds(s, pos + 2, 16);
    lemma_digits_bounds(s, pos + 2, 8);
    lemma_digits_bounds(s, pos + 2, 2);
    lemma_float_is_numeral(s, pos);
    match value_at(s, pos, false) {
        Some((tree, _)) => {
            let inner = tree.children[0];
            if inner.rule == Rule::integer {
                let digits = inner.children.last();
                assert(radix_of(digits.rule) is Some);
                assert(digits.rule != Rule::decimal ==> digits.text.len() >= 2);
            } else if inner.rule == Rule::boolean {
                assert(inner.text == "true"@ || inner.text == "false"@);
            }
        },
        None => {},
    }
}

/// The grammar makes prefix operators and infix operators that the
/// reader knows.
pub proof fn lemma_operators_agree(s: Seq<char>, pos: int)
    ensures
        prefix_at(s, pos) matches Some((tree, _)) ==> prefix_of(tree.rule) is Some,
        infix_at(s, pos) matches Some((tree, _)) ==> infix_of(tree.rule) is Some && prefix_of(
            tree.rule,
        ) is None,
{
}

/// The tokens that the grammar makes for the term at `pos`.
pub open spec fn term_tokens(s: Seq<char>, pos: int) -> Seq<Tree> {
    match term_at(s, pos) {
        Some((tokens, _)) => tokens,
        None => Seq::empty(),
    }
}

/// The tokens that the grammar makes for a term, followed by tokens that
/// can follow an operand, alternate.
pub proof fn lemma_term_alternates(s: Seq<char>, pos: int, rest: Seq<Tree>)
    requires
        0 <= pos <= s.len(),
        follows(rest, 0),
        term_at(s, pos) is Some,
    ensures
        alternating(term_tokens(s, pos) + rest, 0),
    decreases s.len() - pos, 0nat,
{
    let tokens = term_tokens(s, pos);
    let all = tokens + rest;
    lemma_operators_agree(s, pos);
    match prefix_at(s, pos) {
        Some((operator, behind)) => {
            let next = skip_spaces(s, behind);
            let inner = term_tokens(s, next);
            lemma_term_alternates(s, next, rest);
            assert(tokens == seq![operator] + inner);
            assert(all[0] == operator);
            assert(all.skip(1) =~= (inner + rest).skip(0));
            lemma_shift(all, 1, inner + rest, 0);
        },
        None => {
            lemma_value_agrees(s, pos);
            let token = tokens[0];
            assert(tokens.len() == 1);
            assert(all[0] == token);
            match value_at(s, pos, false) {
                Some(_) => {},
                None => match identifier_at(s, pos) {
                    Some(_) => {},
                    None => {
                        lemma_expression_agrees(s, skip_spaces(s, pos + 1));
                    },
                },
            }
            assert(is_operand(token));
            assert(prefix_of(token.rule) is None);
            assert(all.skip(1) =~= rest.skip(0));
            lemma_shift(all, 1, rest, 0);
        },
    }
}

/// The tokens that the grammar makes behind a term can follow an
/// operand.
pub proof fn lemma_tail_follows(s: Seq<char>, pos: int)
    requires
        0 <= pos <= s.len(),
    ensures
        follows(tail_at(s, pos).0, 0),
    decreases s.len() - pos, 1nat,
{
    let at = skip_spaces(s, pos);
    lemma_operators_agree(s, at);
    match infix_at(s, at) {
        Some((operator, behind)) => {
            let next = skip_spaces(s, behind);
            if pos < next <= s.len() {
                match term_at(s, next) {
                    Some((term, end)) => {
                        if pos < end <= s.len() {
                            let rest = tail_at(s, end).0;
                            lemma_tail_follows(s, end);
                            lemma_term_alternates(s, next, rest);
                            let all = tail_at(s, pos).0;
                            assert(all =~= seq![operator] + (term + rest));
                            assert(all[0] == operator);
                            assert(all.skip(1) =~= (term + rest).skip(0));
                            lemma_shift(all, 1, term + rest, 0);
                        }
                    },
                    None => {},
                }
            }
        },
        None => {},
    }
}

/// The grammar makes expressions that the reader is at ease with.
pub proof fn lemma_expression_agrees(s: Seq<char>, pos: int)
    requires
        0 <= pos <= s.len(),
    ensures
        expression_at(s, pos) matches Some((tree, _)) ==> tree.rule == Rule::expression && agrees(
            expression_of(tree),
        ),
    decreases s.len() - pos, 2nat,
{
    match term_at(s, pos) {
        Some((first, end)) => {
            if pos <= end <= s.len() {
                lemma_tail_follows(s, end);
                lemma_term_alternates(s, pos, tail_at(s, end).0);
                match expression_at(s, pos) {
                    Some((tree, _)) => {
                        lemma_alternating_is_read(tree);
                    },
                    None => {},
                }
            }
        },
        None => {},
    }
}


/// Statements that are read one by one are read in a row.
proof fn lemma_statements_agree(nodes: Seq<Tree>, from: int)
    requires
        0 <= from,
        forall|i: int| from <= i < nodes.len() ==> agrees(statement_of(#[trigger] nodes[i])),
    ensures
        agrees(statements_of(nodes, from)),
    decreases nodes.len() - from,
{
    if from < nodes.len() {
        assert(agrees(statement_of(nodes[from])));
        lemma_statements_agree(nodes, from + 1);
    }
}

/// Branches that are read one by one are read in a row.
proof fn lemma_else_ifs_agree(nodes: Seq<Tree>, from: int, upto: int)
    requires
        0 <= from,
        upto <= nodes.len(),
        forall|i: int| from <= i < upto ==> agrees(else_if_of(#[trigger] nodes[i])),
    ensures
        agrees(else_ifs_of(nodes, from, upto)),
    decreases upto - from,
{
    if from < upto {
        assert(agrees(else_if_of(nodes[from])));
        lemma_else_ifs_agree(nodes, from + 1, upto);
    }
}

/// Whether the nodes from `from` on are `else if` branches that the
/// reader is at ease with, the last of them an `else` branch or not.
pub open spec fn branches(nodes: Seq<Tree>, from: int) -> bool
    decreases nodes.len() - from,
{
    if 0 <= from < nodes.len() {
        ||| nodes[from].rule == Rule::else_if_body && agrees(else_if_of(nodes[from])) && branches(
            nodes,
            from + 1,
        )
        ||| nodes[from].rule == Rule::else_body && agrees(else_of(nodes[from])) && from + 1
            == nodes.len()
    } else {
        from == nodes.len()
    }
}

/// In nodes that are branches, every node but the last is an `else if`
/// branch that the reader is at ease with, and so is the last unless it
/// is an `else` branch, which the reader is at ease with too.
proof fn lemma_branches(nodes: Seq<Tree>, from: int)
    requires
        0 <= from <= nodes.len(),
        branches(nodes, from),
    ensures
        forall|i: int|
            from <= i < nodes.len() && (i + 1 < nodes.len() || nodes[i].rule != Rule::else_body)
                ==> (#[trigger] nodes[i]).rule == Rule::else_if_body && agrees(
                else_if_of(nodes[i]),
            ),
        from < nodes.len() && nodes.last().rule == Rule::else_body ==> agrees(
            else_of(nodes.last()),
        ),
    decreases nodes.len() - from,
{
    if from < nodes.len() {
        if nodes[from].rule == Rule::else_if_body {
            lemma_branches(nodes, from + 1);
        }
    }
}

/// Whether the nodes are branches depends on the nodes from `from` on
/// alone.
proof fn lemma_branches_shift(a: Seq<Tree>, p: int, b: Seq<Tree>, q: int)
    requires
        0 <= p <= a.len(),
        0 <= q <= b.len(),
        a.skip(p) == b.skip(q),
    ensures
        branches(a, p) == branches(b, q),
    decreases a.len() - p,
{
    assert(a.skip(p).len() == a.len() - p);
    assert(b.skip(q).len() == b.len() - q);
    if p < a.len() {
        assert(a[p] == a.skip(p)[0]);
        assert(b[q] == b.skip(q)[0]);
        assert(a.skip(p + 1) =~= a.skip(p).skip(1));
        assert(b.skip(q + 1) =~= b.skip(q).skip(1));
        lemma_branches_shift(a, p + 1, b, q + 1);
    }
}

/// The grammar makes a keyword with its expression as the reader
/// expects them.
proof fn lemma_guard_agrees(s: Seq<char>, pos: int, word: Seq<char>, rule: Rule)
    requires
        0 <= pos <= s.len(),
    ensures
        guard_at(s, pos, word, rule) matches Some((head, _)) ==> head.len() == 2 && head[0].rule
            == rule && agrees(expression_of(head[1])),
{
    match keyword_at(s, pos, word, rule) {
        Some((_, behind)) => {
            lemma_skip_bounds(s, behind);
            lemma_expression_agrees(s, skip_spaces(s, behind));
        },
        None => {},
    }
}

proof fn lemma_print_agrees(s: Seq<char>, pos: int)
    requires
        0 <= pos <= s.len(),
    ensures
        print_at(s, pos) matches Some((tree, _)) ==> agrees(statement_of(tree)),
{
    lemma_guard_agrees(s, pos, "print"@, Rule::k_print);
}

proof fn lemma_while_agrees(s: Seq<char>, pos: int)
    requires
        0 <= pos <= s.len(),
        guard_at(s, pos, "while"@, Rule::k_while) is Some,
    ensures
        ({
            let (head, end) = guard_at(s, pos, "while"@, Rule::k_while)->0;
            with_block(s, pos, Rule::while_statement, head, end) matches Some((tree, _))
                ==> agrees(statement_of(tree))
        }),
    decreases s.len() - pos, 2nat,
{
    lemma_guard_agrees(s, pos, "while"@, Rule::k_while);
    let (head, end) = guard_at(s, pos, "while"@, Rule::k_while)->0;
    lemma_with_block_agrees(s, pos, Rule::while_statement, head, end);
    match with_block(s, pos, Rule::while_statement, head, end) {
        Some((tree, _)) => {
            assert(tree.children.take(2) == head);
            assert(tree.children[0] == head[0]);
            assert(tree.children[1] == head[1]);
        },
        None => {},
    }
}

proof fn lemma_for_head_agrees(s: Seq<char>, pos: int)
    requires
        0 <= pos <= s.len(),
    ensures
        for_head_at(s, pos) matches Some((head, _)) ==> head.len() == 4 && head[0].rule
            == Rule::k_for && head[1].rule == Rule::identifier && head[2].rule == Rule::k_in
            && agrees(expression_of(head[3])),
{
    match keyword_at(s, pos, "for"@, Rule::k_for) {
        Some((_, behind)) => {
            lemma_skip_bounds(s, behind);
            lemma_identifier_bounds(s, skip_spaces(s, behind));
            match identifier_at(s, skip_spaces(s, behind)) {
                Some((_, named)) => {
                    lemma_skip_bounds(s, named);
                    lemma_guard_agrees(s, skip_spaces(s, named), "in"@, Rule::k_in);
                },
                None => {},
            }
        },
        None => {},
    }
}

proof fn lemma_for_agrees(s: Seq<char>, pos: int)
    requires
        0 <= pos <= s.len(),
        for_head_at(s, pos) is Some,
    ensures
        ({
            let (head, end) = for_head_at(s, pos)->0;
            with_block(s, pos, Rule::for_statement, head, end) matches Some((tree, _)) ==> agrees(
                statement_of(tree),
            )
        }),
    decreases s.len() - pos, 2nat,
{
    lemma_for_head_agrees(s, pos);
    let (head, end) = for_head_at(s, pos)->0;
    lemma_with_block_agrees(s, pos, Rule::for_statement, head, end);
    match with_block(s, pos, Rule::for_statement, head, end) {
        Some((tree, _)) => {
            assert(tree.children.take(4) == head);
            assert(tree.children[0] == head[0]);
            assert(tree.children[1] == head[1]);
            assert(tree.children[2] == head[2]);
            assert(tree.children[3] == head[3]);
        },
        None => {},
    }
}

proof fn lemma_declaration_agrees(s: Seq<char>, pos: int)
    requires
        0 <= pos <= s.len(),
    ensures
        declaration_at(s, pos) matches Some((tree, _)) ==> agrees(statement_of(tree)),
{
    let keyword = if has_word(s, pos, "const"@) {
        keyword_at(s, pos, "const"@, Rule::k_const)
    } else {
        keyword_at(s, pos, "var"@, Rule::k_var)
    };
    match keyword {
        Some((_, behind)) => {
            lemma_skip_bounds(s, behind);
            lemma_identifier_bounds(s, skip_spaces(s, behind));
            match identifier_at(s, skip_spaces(s, behind)) {
                Some((_, named)) => {
                    lemma_initializer_agrees(s, named);
                },
                None => {},
            }
        },
        None => {},
    }
}

proof fn lemma_assignment_agrees(s: Seq<char>, pos: int)
    requires
        0 <= pos <= s.len(),
    ensures
        assignment_at(s, pos) matches Some((tree, _)) ==> agrees(statement_of(tree)),
{
    lemma_identifier_bounds(s, pos);
    match identifier_at(s, pos) {
        Some((_, named)) => {
            lemma_initializer_agrees(s, named);
        },
        None => {},
    }
}

proof fn lemma_expression_statement_agrees(s: Seq<char>, pos: int)
    requires
        0 <= pos <= s.len(),
    ensures
        expression_statement_at(s, pos) matches Some((tree, _)) ==> agrees(statement_of(tree)),
{
    lemma_expression_agrees(s, pos);
}

proof fn lemma_jump_agrees(s: Seq<char>, pos: int)
    ensures
        jump_at(s, pos, "break"@, Rule::k_break, Rule::break_statement) matches Some((tree, _))
            ==> agrees(statement_of(tree)),
        jump_at(s, pos, "continue"@, Rule::k_continue, Rule::continue_statement) matches Some(
            (tree, _),
        ) ==> agrees(statement_of(tree)),
{
}

/// The grammar makes statements that the reader is at ease with.
pub proof fn lemma_statement_agrees(s: Seq<char>, pos: int)
    requires
        0 <= pos <= s.len(),
    ensures
        statement_at(s, pos) matches Some((tree, _)) ==> agrees(statement_of(tree)),
    decreases s.len() - pos, 4nat,
{
    if has_word(s, pos, "print"@) {
        lemma_print_agrees(s, pos);
    } else if has_word(s, pos, "if"@) {
        lemma_if_agrees(s, pos);
    } else if has_word(s, pos, "while"@) {
        if guard_at(s, pos, "while"@, Rule::k_while) is Some {
            lemma_while_agrees(s, pos);
        }
    } else if has_word(s, pos, "for"@) {
        if for_head_at(s, pos) is Some {
            lemma_for_agrees(s, pos);
        }
    } else if has_word(s, pos, "break"@) {
        lemma_jump_agrees(s, pos);
    } else if has_word(s, pos, "continue"@) {
        lemma_jump_agrees(s, pos);
    } else if has_word(s, pos, "const"@) || has_word(s, pos, "var"@) {
        lemma_declaration_agrees(s, pos);
    } else if has_char(s, pos, '{') {
        lemma_block_agrees(s, pos);
    } else if assignment_at(s, pos) is Some {
        lemma_assignment_agrees(s, pos);
    } else {
        lemma_expression_statement_agrees(s, pos);
    }
}

/// The grammar makes initial values that the reader is at ease with.
proof fn lemma_initializer_agrees(s: Seq<char>, pos: int)
    requires
        0 <= pos <= s.len(),
    ensures
        initializer_at(s, pos) matches Some((tree, _)) ==> agrees(expression_of(tree)),
{
    lemma_skip_bounds(s, pos);
    if has_char(s, skip_spaces(s, pos), '=') {
        lemma_skip_bounds(s, skip_spaces(s, pos) + 1);
        lemma_expression_agrees(s, skip_spaces(s, skip_spaces(s, pos) + 1));
    }
}

/// The grammar makes statements with a block as the reader expects
/// them: the children given, and then a block that the reader is at ease
/// with.
proof fn lemma_with_block_agrees(s: Seq<char>, pos: int, rule: Rule, head: Seq<Tree>, end: int)
    requires
        0 <= pos <= s.len(),
    ensures
        with_block(s, pos, rule, head, end) matches Some((tree, next)) ==> tree.rule == rule
            && tree.children.len() == head.len() + 1 && tree.children.take(head.len() as int)
            == head && agrees(block_of(tree.children.last())) && pos < next <= s.len(),
    decreases s.len() - pos, 1nat,
{
    if pos < skip_spaces(s, end) <= s.len() {
        lemma_block_agrees(s, skip_spaces(s, end));
        match block_at(s, skip_spaces(s, end)) {
            Some((block, _)) => {
                assert(head.push(block).take(head.len() as int) =~= head);
            },
            None => {},
        }
    }
}

/// The grammar makes blocks that the reader is at ease with.
pub proof fn lemma_block_agrees(s: Seq<char>, pos: int)
    requires
        0 <= pos <= s.len(),
    ensures
        block_at(s, pos) matches Some((tree, next)) ==> tree.rule == Rule::block_statement
            && agrees(block_of(tree)) && pos < next <= s.len(),
    decreases s.len() - pos, 0nat,
{
    if has_char(s, pos, '{') && pos < skip_spaces(s, pos + 1) <= s.len() {
        let inner = statements_at(s, skip_spaces(s, pos + 1));
        lemma_statements_all_agree(s, skip_spaces(s, pos + 1));
        lemma_statements_agree(inner.0, 0);
        lemma_skip_bounds(s, inner.1);
    }
}

/// The grammar makes statements in a row that the reader is at ease
/// with, one by one.
pub proof fn lemma_statements_all_agree(s: Seq<char>, pos: int)
    requires
        0 <= pos <= s.len(),
    ensures
        forall|i: int|
            0 <= i < statements_at(s, pos).0.len() ==> agrees(
                statement_of(#[trigger] statements_at(s, pos).0[i]),
            ),
        pos <= statements_at(s, pos).1 <= s.len(),
    decreases s.len() - pos, 5nat,
{
    lemma_statement_agrees(s, pos);
    match statement_at(s, pos) {
        Some((statement, end)) => {
            if pos < skip_spaces(s, end) <= s.len() {
                lemma_statements_all_agree(s, skip_spaces(s, end));
                let rest = statements_at(s, skip_spaces(s, end)).0;
                let all = statements_at(s, pos).0;
                assert(all =~= seq![statement] + rest);
                assert forall|i: int| 0 <= i < all.len() implies agrees(
                    statement_of(#[trigger] all[i]),
                ) by {
                    if i > 0 {
                        assert(all[i] == rest[i - 1]);
                    }
                }
            }
        },
        None => {},
    }
}

/// The grammar makes the branches behind the first as the reader
/// expects them.
proof fn lemma_else_branches_agree(s: Seq<char>, pos: int)
    requires
        0 <= pos <= s.len(),
    ensures
        branches(else_branches_at(s, pos).0, 0),
    decreases s.len() - pos, 2nat,
{
    let start = skip_spaces(s, pos);
    lemma_skip_bounds(s, pos);
    match keyword_at(s, start, "else"@, Rule::k_else) {
        Some((keyword, behind)) => {
            let begin = skip_spaces(s, behind);
            if pos <= start && pos < begin <= s.len() {
                if has_word(s, begin, "if"@) {
                    lemma_guard_agrees(s, begin, "if"@, Rule::k_if);
                    match guard_at(s, begin, "if"@, Rule::k_if) {
                        Some((head, end)) => {
                            let children = seq![keyword] + head;
                            lemma_with_block_agrees(s, start, Rule::else_if_body, children, end);
                            match with_block(s, start, Rule::else_if_body, children, end) {
                                Some((branch, next)) => {
                                    if pos < next <= s.len() {
                                        assert(branch.children.take(3) == children);
                                        assert(branch.children[0] == children[0]);
                                        assert(branch.children[1] == children[1]);
                                        assert(branch.children[2] == children[2]);
                                        assert(agrees(else_if_of(branch)));
                                        lemma_else_branches_agree(s, next);
                                        let rest = else_branches_at(s, next).0;
                                        let all = else_branches_at(s, pos).0;
                                        assert(all =~= seq![branch] + rest);
                                        assert(all.skip(1) =~= rest.skip(0));
                                        lemma_branches_shift(all, 1, rest, 0);
                                    }
                                },
                                None => {},
                            }
                        },
                        None => {},
                    }
                } else {
                    let children = seq![keyword];
                    lemma_with_block_agrees(s, start, Rule::else_body, children, behind);
                    match with_block(s, start, Rule::else_body, children, behind) {
                        Some((branch, next)) => {
                            assert(branch.children.take(1) == children);
                            assert(branch.children[0] == children[0]);
                            assert(agrees(else_of(branch)));
                        },
                        None => {},
                    }
                }
            }
        },
        None => {},
    }
}

/// An `if` statement whose parts are read one by one is read.
proof fn lemma_if_parts_agree(tree: Tree)
    requires
        tree.rule == Rule::if_statement,
        tree.children.len() >= 1,
        tree.children[0].rule == Rule::if_body,
        agrees(branch_of(tree.children[0], 0)),
        agrees(else_ifs_of(tree.children, 1, conditional_children(tree))),
        conditional_children(tree) < tree.children.len() ==> agrees(
            else_of(tree.children.last()),
        ),
    ensures
        agrees(statement_of(tree)),
{
}

/// In the branches of an `if` statement, those that are no `else`
/// branch are read in a row.
proof fn lemma_if_branches_agree(tree: Tree)
    requires
        tree.children.len() >= 1,
        branches(tree.children, 1),
    ensures
        agrees(else_ifs_of(tree.children, 1, conditional_children(tree))),
        conditional_children(tree) < tree.children.len() ==> agrees(
            else_of(tree.children.last()),
        ),
{
    let kids = tree.children;
    let upto = conditional_children(tree);
    lemma_branches(kids, 1);
    assert forall|i: int| 1 <= i < upto implies agrees(else_if_of(#[trigger] kids[i])) by {
        assert(i + 1 < kids.len() || kids[i].rule != Rule::else_body);
    }
    lemma_else_ifs_agree(kids, 1, upto);
}

/// An `if` statement with a first branch and further branches that the
/// reader is at ease with is read.
proof fn lemma_if_tree_agrees(tree: Tree)
    requires
        tree.rule == Rule::if_statement,
        tree.children.len() >= 1,
        tree.children[0].rule == Rule::if_body,
        agrees(branch_of(tree.children[0], 0)),
        branches(tree.children, 1),
    ensures
        agrees(statement_of(tree)),
{
    lemma_if_branches_agree(tree);
    lemma_if_parts_agree(tree);
}

/// The grammar makes first branches that the reader is at ease with.
proof fn lemma_if_body_agrees(s: Seq<char>, pos: int)
    requires
        0 <= pos <= s.len(),
        guard_at(s, pos, "if"@, Rule::k_if) is Some,
    ensures
        ({
            let (head, end) = guard_at(s, pos, "if"@, Rule::k_if)->0;
            with_block(s, pos, Rule::if_body, head, end) matches Some((first, behind))
                ==> first.rule == Rule::if_body && agrees(branch_of(first, 0)) && pos < behind
                <= s.len()
        }),
    decreases s.len() - pos, 2nat,
{
    lemma_guard_agrees(s, pos, "if"@, Rule::k_if);
    let (head, end) = guard_at(s, pos, "if"@, Rule::k_if)->0;
    lemma_with_block_agrees(s, pos, Rule::if_body, head, end);
    match with_block(s, pos, Rule::if_body, head, end) {
        Some((first, behind)) => {
            assert(first.children.take(2) == head);
            assert(first.children[0] == head[0]);
            assert(first.children[1] == head[1]);
        },
        None => {},
    }
}

/// The grammar makes `if` statements that the reader is at ease with.
proof fn lemma_if_agrees(s: Seq<char>, pos: int)
    requires
        0 <= pos <= s.len(),
    ensures
        if_at(s, pos) matches Some((tree, _)) ==> agrees(statement_of(tree)),
    decreases s.len() - pos, 3nat,
{
    if guard_at(s, pos, "if"@, Rule::k_if) is Some {
        lemma_if_body_agrees(s, pos);
        let (head, end) = guard_at(s, pos, "if"@, Rule::k_if)->0;
        match with_block(s, pos, Rule::if_body, head, end) {
            Some((first, behind)) => {
                if pos < behind <= s.len() {
                    lemma_else_branches_agree(s, behind);
                    let rest = else_branches_at(s, behind).0;
                    match if_at(s, pos) {
                        Some((tree, _)) => {
                            let kids = tree.children;
                            assert(kids =~= seq![first] + rest);
                            assert(kids.skip(1) =~= rest.skip(0));
                            lemma_branches_shift(kids, 1, rest, 0);
                            lemma_if_tree_agrees(tree);
                        },
                        None => {},
                    }
                }
            },
            None => {},
        }
    }
}

/// A text that the grammar takes for a program is read without a tree
/// being found out of place: it stands for statements, unless one of its
/// integers does not fit.
pub proof fn law_programs_are_read(text: Seq<char>)
    requires
        program_at(text) is Ok,
    ensures
        agrees(program_of(text)),
{
    lemma_skip_bounds(text, 0);
    let body = statements_at(text, skip_spaces(text, 0));
    lemma_statements_all_agree(text, skip_spaces(text, 0));
    let end = leaf(Rule::EOI, text, text.len() as int, text.len() as int);
    let nodes = body.0.push(end);
    assert forall|i: int| 0 <= i < nodes.len() implies agrees(statement_of(#[trigger] nodes[i]))
        || nodes[i].rule == Rule::EOI by {
        if i < body.0.len() {
            assert(nodes[i] == body.0[i]);
        }
    }
    lemma_program_agrees(nodes, 0);
}

/// Statements that are read one by one, up to a node that marks the end
/// of the input, are read in a row.
proof fn lemma_program_agrees(nodes: Seq<Tree>, from: int)
    requires
        0 <= from,
        forall|i: int|
            from <= i < nodes.len() ==> agrees(statement_of(#[trigger] nodes[i])) || nodes[i].rule
                == Rule::EOI,
    ensures
        agrees(statements_of(nodes, from)),
    decreases nodes.len() - from,
{
    if from < nodes.len() {
        assert(agrees(statement_of(nodes[from])) || nodes[from].rule == Rule::EOI);
        lemma_program_agrees(nodes, from + 1);
    }
}


/// Whether a match holds its text: the node begins at `pos`, ends where
/// the match ends, and keeps the text between.
pub open spec fn holds_text(s: Seq<char>, pos: int, found: Match) -> bool {
    found matches Some((tree, next)) ==> tree.start == pos && tree.end == next && tree.text
        == s.subrange(pos, next)
}

/// A node of a statement, of an expression, of a value or of a name
/// holds the text that was matched, with its place.
pub proof fn law_nodes_hold_their_text(s: Seq<char>, pos: int, signed: bool)
    ensures
        holds_text(s, pos, identifier_at(s, pos)),
        holds_text(s, pos, value_at(s, pos, signed)),
        holds_text(s, pos, expression_at(s, pos)),
        holds_text(s, pos, block_at(s, pos)),
        holds_text(s, pos, statement_at(s, pos)),
{
    assert(holds_text(s, pos, print_at(s, pos)));
    assert(holds_text(s, pos, if_at(s, pos)));
    assert(holds_text(s, pos, declaration_at(s, pos)));
    assert(holds_text(s, pos, assignment_at(s, pos)));
    assert(holds_text(s, pos, expression_statement_at(s, pos)));
    assert(holds_text(
        s,
        pos,
        jump_at(s, pos, "break"@, Rule::k_break, Rule::break_statement),
    ));
    assert(holds_text(
        s,
        pos,
        jump_at(s, pos, "continue"@, Rule::k_continue, Rule::continue_statement),
    ));
    assert forall|rule: Rule, head: Seq<Tree>, end: int|
        holds_text(s, pos, #[trigger] with_block(s, pos, rule, head, end)) by {}
}

} // verus!
