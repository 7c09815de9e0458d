//! The grammar: which text each rule matches, and the parse tree it
//! gives.
//!
//! Every rule is stated as a function from the text and a position to the
//! tree of the match and the position behind it, and comes with the
//! function that computes it. Alternatives are tried in the order given;
//! the first that matches is taken.

use vstd::prelude::*;

use crate::parser::{trees, Node, Rule, Tree};
use crate::parser::lexical::{
    at_char, at_literal, at_word, branch, digit, digits_end, has_char, has_literal, has_word,
    is_digit, is_letter, is_radix_digit, is_reserved, is_space, is_word_char, leaf, letter,
    make_branch, make_leaf, radix_digit, reserved, scan_digits, scan_word, skip, skip_spaces,
    word_end,
};

verus! {

/// A match: the tree and the position behind the matched text.
pub type Match = Option<(Tree, int)>;

/// `identifier`: a word that begins with a letter and is not reserved.
pub open spec fn identifier_at(s: Seq<char>, pos: int) -> Match {
    if 0 <= pos < s.len() && is_letter(s[pos]) && !is_reserved(s.subrange(pos, word_end(s, pos))) {
        Some((leaf(Rule::identifier, s, pos, word_end(s, pos)), word_end(s, pos)))
    } else {
        None
    }
}

/// A word that stands for itself, as a node of the given rule.
pub open spec fn keyword_at(s: Seq<char>, pos: int, word: Seq<char>, rule: Rule) -> Match {
    if has_word(s, pos, word) {
        Some((leaf(rule, s, pos, pos + word.len()), pos + word.len()))
    } else {
        None
    }
}

/// `plus` or `minus`: the sign of a number.
pub open spec fn sign_at(s: Seq<char>, pos: int) -> Match {
    if has_char(s, pos, '+') {
        Some((leaf(Rule::plus, s, pos, pos + 1), pos + 1))
    } else if has_char(s, pos, '-') {
        Some((leaf(Rule::minus, s, pos, pos + 1), pos + 1))
    } else {
        None
    }
}

/// Digits of the radix behind the two characters of `prefix`.
pub open spec fn prefixed_at(s: Seq<char>, pos: int, prefix: Seq<char>, radix: u32, rule: Rule) -> Match {
    if has_literal(s, pos, prefix) && pos + 2 < s.len() && is_radix_digit(s[pos + 2], radix) {
        Some((leaf(rule, s, pos, digits_end(s, pos + 2, radix)), digits_end(s, pos + 2, radix)))
    } else {
        None
    }
}

/// `hexadecimal`, `octal`, `binary` or `decimal`: the digits of an
/// integer, with the prefix `0x`, `0o` or `0b`, or with none. Underscores
/// may stand between and behind the digits.
pub open spec fn digits_at(s: Seq<char>, pos: int) -> Match {
    if prefixed_at(s, pos, "0x"@, 16, Rule::hexadecimal) is Some {
        prefixed_at(s, pos, "0x"@, 16, Rule::hexadecimal)
    } else if prefixed_at(s, pos, "0o"@, 8, Rule::octal) is Some {
        prefixed_at(s, pos, "0o"@, 8, Rule::octal)
    } else if prefixed_at(s, pos, "0b"@, 2, Rule::binary) is Some {
        prefixed_at(s, pos, "0b"@, 2, Rule::binary)
    } else if 0 <= pos < s.len() && is_digit(s[pos]) {
        Some((leaf(Rule::decimal, s, pos, digits_end(s, pos, 10)), digits_end(s, pos, 10)))
    } else {
        None
    }
}

/// `integer`: the digits, behind a sign and white space if `signed`.
pub open spec fn integer_at(s: Seq<char>, pos: int, signed: bool) -> Match {
    match sign_at(s, pos) {
        Some((sign, behind)) if signed => match digits_at(s, skip_spaces(s, behind)) {
            Some((digits, end)) => Some(
                (branch(Rule::integer, s, pos, end, seq![sign, digits]), end),
            ),
            None => None,
        },
        _ => match digits_at(s, pos) {
            Some((digits, end)) => Some((branch(Rule::integer, s, pos, end, seq![digits]), end)),
            None => None,
        },
    }
}

/// The end of the decimal digits that begin at `pos`, or `pos` if there
/// is none.
pub open spec fn optional_digits_end(s: Seq<char>, pos: int) -> int {
    if 0 <= pos < s.len() && is_digit(s[pos]) {
        digits_end(s, pos, 10)
    } else {
        pos
    }
}

/// `float`: digits, a point, digits; the digits before or behind the
/// point may be missing, not both. A sign and white space may come first
/// if `signed`.
pub open spec fn float_at(s: Seq<char>, pos: int, signed: bool) -> Match {
    let whole = if signed && sign_at(s, pos) is Some {
        skip_spaces(s, pos + 1)
    } else {
        pos
    };
    let point = optional_digits_end(s, whole);
    let end = optional_digits_end(s, point + 1);
    if has_char(s, point, '.') && (whole < point || point + 1 < end) {
        Some((leaf(Rule::float, s, pos, end), end))
    } else {
        None
    }
}

/// `boolean`: the word `true` or the word `false`.
pub open spec fn boolean_at(s: Seq<char>, pos: int) -> Match {
    if has_word(s, pos, "true"@) {
        keyword_at(s, pos, "true"@, Rule::boolean)
    } else {
        keyword_at(s, pos, "false"@, Rule::boolean)
    }
}

/// `value`: a float, an integer or a boolean.
pub open spec fn value_at(s: Seq<char>, pos: int, signed: bool) -> Match {
    let inner = if float_at(s, pos, signed) is Some {
        float_at(s, pos, signed)
    } else if integer_at(s, pos, signed) is Some {
        integer_at(s, pos, signed)
    } else {
        boolean_at(s, pos)
    };
    match inner {
        Some((tree, end)) => Some((branch(Rule::value, s, pos, end, seq![tree]), end)),
        None => None,
    }
}

/// A prefix operator: `+`, `-`, `!` or the word `not`.
pub open spec fn prefix_at(s: Seq<char>, pos: int) -> Match {
    if has_char(s, pos, '+') {
        Some((leaf(Rule::plus, s, pos, pos + 1), pos + 1))
    } else if has_char(s, pos, '-') {
        Some((leaf(Rule::minus, s, pos, pos + 1), pos + 1))
    } else if has_char(s, pos, '!') && !has_char(s, pos + 1, '=') {
        Some((leaf(Rule::not, s, pos, pos + 1), pos + 1))
    } else {
        keyword_at(s, pos, "not"@, Rule::not)
    }
}

/// An infix operator. The longer of two operators that begin alike is
/// taken.
pub open spec fn infix_at(s: Seq<char>, pos: int) -> Match {
    if has_literal(s, pos, "**"@) {
        Some((leaf(Rule::power, s, pos, pos + 2), pos + 2))
    } else if has_char(s, pos, '*') {
        Some((leaf(Rule::multiply, s, pos, pos + 1), pos + 1))
    } else if has_char(s, pos, '/') {
        Some((leaf(Rule::divide, s, pos, pos + 1), pos + 1))
    } else if has_char(s, pos, '%') {
        Some((leaf(Rule::remainder, s, pos, pos + 1), pos + 1))
    } else if has_char(s, pos, '+') {
        Some((leaf(Rule::add, s, pos, pos + 1), pos + 1))
    } else if has_char(s, pos, '-') {
        Some((leaf(Rule::subtract, s, pos, pos + 1), pos + 1))
    } else if has_literal(s, pos, "<="@) {
        Some((leaf(Rule::less_than_eq, s, pos, pos + 2), pos + 2))
    } else if has_char(s, pos, '<') {
        Some((leaf(Rule::less_than, s, pos, pos + 1), pos + 1))
    } else if has_literal(s, pos, ">="@) {
        Some((leaf(Rule::greater_than_eq, s, pos, pos + 2), pos + 2))
    } else if has_char(s, pos, '>') {
        Some((leaf(Rule::greater_than, s, pos, pos + 1), pos + 1))
    } else if has_literal(s, pos, "=="@) {
        Some((leaf(Rule::equal_to, s, pos, pos + 2), pos + 2))
    } else if has_literal(s, pos, "!="@) {
        Some((leaf(Rule::not_equal_to, s, pos, pos + 2), pos + 2))
    } else if has_word(s, pos, "and"@) {
        keyword_at(s, pos, "and"@, Rule::logical_and)
    } else if has_word(s, pos, "or"@) {
        keyword_at(s, pos, "or"@, Rule::logical_or)
    } else {
        keyword_at(s, pos, "xor"@, Rule::logical_xor)
    }
}

/// A run of tokens and the position behind it.
pub type Run = Option<(Seq<Tree>, int)>;

/// One operand with the prefix operators before it: each prefix operator
/// is a token, and so is the operand, which is a value without sign, an
/// identifier, or an expression in parentheses.
pub open spec fn term_at(s: Seq<char>, pos: int) -> Run
    decreases s.len() - pos, 0nat,
{
    match prefix_at(s, pos) {
        Some((operator, behind)) => if pos < skip_spaces(s, behind) <= s.len() {
            match term_at(s, skip_spaces(s, behind)) {
                Some((rest, end)) => Some((seq![operator] + rest, end)),
                None => None,
            }
        } else {
            None
        },
        None => match value_at(s, pos, false) {
            Some((value, end)) => Some((seq![value], end)),
            None => match identifier_at(s, pos) {
                Some((identifier, end)) => Some((seq![identifier], end)),
                None => if has_char(s, pos, '(') && pos < skip_spaces(s, pos + 1) <= s.len() {
                    match expression_at(s, skip_spaces(s, pos + 1)) {
                        Some((inner, behind)) => if has_char(s, skip_spaces(s, behind), ')') {
                            Some((seq![inner], skip_spaces(s, behind) + 1))
                        } else {
                            None
                        },
                        None => None,
                    }
                } else {
                    None
                },
            },
        },
    }
}

/// The operators and operands that follow a term which ends at `pos`:
/// as many pairs of an infix operator and a term as there are.
pub open spec fn tail_at(s: Seq<char>, pos: int) -> (Seq<Tree>, int)
    decreases s.len() - pos, 1nat,
{
    match infix_at(s, skip_spaces(s, pos)) {
        Some((operator, behind)) => if pos < skip_spaces(s, behind) <= s.len() {
            match term_at(s, skip_spaces(s, behind)) {
                Some((term, end)) => if pos < end <= s.len() {
                    (seq![operator] + term + tail_at(s, end).0, tail_at(s, end).1)
                } else {
                    (Seq::empty(), pos)
                },
                None => (Seq::empty(), pos),
            }
        } else {
            (Seq::empty(), pos)
        },
        None => (Seq::empty(), pos),
    }
}

/// `expression`: terms joined by infix operators. The children of the
/// node are the tokens in source order; which operator binds which
/// operands is left to the reader of the tree.
pub open spec fn expression_at(s: Seq<char>, pos: int) -> Match
    decreases s.len() - pos, 2nat,
{
    match term_at(s, pos) {
        Some((first, end)) => if pos <= end <= s.len() {
            Some(
                (
                    branch(Rule::expression, s, pos, tail_at(s, end).1, first + tail_at(s, end).0),
                    tail_at(s, end).1,
                ),
            )
        } else {
            None
        },
        None => None,
    }
}

/// The text behind an expression: white space and the character `c`.
pub open spec fn closing_at(s: Seq<char>, pos: int, c: char) -> Option<int> {
    if has_char(s, skip_spaces(s, pos), c) {
        Some(skip_spaces(s, pos) + 1)
    } else {
        None
    }
}

/// `print_statement`: `print`, an expression, `;`.
pub open spec fn print_at(s: Seq<char>, pos: int) -> Match {
    match keyword_at(s, pos, "print"@, Rule::k_print) {
        Some((keyword, behind)) => match expression_at(s, skip_spaces(s, behind)) {
            Some((expression, end)) => match closing_at(s, end, ';') {
                Some(next) => Some(
                    (branch(Rule::print_statement, s, pos, next, seq![keyword, expression]), next),
                ),
                None => None,
            },
            None => None,
        },
        None => None,
    }
}

/// `break_statement` or `continue_statement`: the word and `;`.
pub open spec fn jump_at(s: Seq<char>, pos: int, word: Seq<char>, keyword: Rule, rule: Rule) -> Match {
    match keyword_at(s, pos, word, keyword) {
        Some((keyword, behind)) => match closing_at(s, behind, ';') {
            Some(next) => Some((branch(rule, s, pos, next, seq![keyword]), next)),
            None => None,
        },
        None => None,
    }
}

/// `= <expression>` behind the name of a declaration or an assignment.
pub open spec fn initializer_at(s: Seq<char>, pos: int) -> Match {
    if has_char(s, skip_spaces(s, pos), '=') {
        expression_at(s, skip_spaces(s, skip_spaces(s, pos) + 1))
    } else {
        None
    }
}

/// `declaration_statement`: `const`, a name, `=`, an expression, `;`, or
/// `var`, a name, `;`, with `=` and an expression before the `;` or not.
pub open spec fn declaration_at(s: Seq<char>, pos: int) -> Match {
    let keyword = if has_word(s, pos, "const"@) {
        keyword_at(s, pos, "const"@, Rule::k_const)
    } else {
        keyword_at(s, pos, "var"@, Rule::k_var)
    };
    match keyword {
        Some((keyword, behind)) => match identifier_at(s, skip_spaces(s, behind)) {
            Some((name, named)) => match initializer_at(s, named) {
                Some((value, end)) => match closing_at(s, end, ';') {
                    Some(next) => Some(
                        (
                            branch(
                                Rule::declaration_statement,
                                s,
                                pos,
                                next,
                                seq![keyword, name, value],
                            ),
                            next,
                        ),
                    ),
                    None => None,
                },
                None => match closing_at(s, named, ';') {
                    Some(next) if keyword.rule == Rule::k_var => Some(
                        (
                            branch(Rule::declaration_statement, s, pos, next, seq![keyword, name]),
                            next,
                        ),
                    ),
                    _ => None,
                },
            },
            None => None,
        },
        None => None,
    }
}

/// `assignment_statement`: a name, `=`, an expression, `;`.
pub open spec fn assignment_at(s: Seq<char>, pos: int) -> Match {
    match identifier_at(s, pos) {
        Some((name, named)) => if has_char(s, skip_spaces(s, named) + 1, '=') {
            None
        } else {
            match initializer_at(s, named) {
                Some((value, end)) => match closing_at(s, end, ';') {
                    Some(next) => Some(
                        (branch(Rule::assignment_statement, s, pos, next, seq![name, value]), next),
                    ),
                    None => None,
                },
                None => None,
            }
        },
        None => None,
    }
}

/// `expression_statement`: an expression and `;`.
pub open spec fn expression_statement_at(s: Seq<char>, pos: int) -> Match {
    match expression_at(s, pos) {
        Some((expression, end)) => match closing_at(s, end, ';') {
            Some(next) => Some(
                (branch(Rule::expression_statement, s, pos, next, seq![expression]), next),
            ),
            None => None,
        },
        None => None,
    }
}

/// A keyword and the expression behind it, as the first two children of a
/// statement with a block.
pub open spec fn guard_at(s: Seq<char>, pos: int, word: Seq<char>, rule: Rule) -> Run {
    match keyword_at(s, pos, word, rule) {
        Some((keyword, behind)) => match expression_at(s, skip_spaces(s, behind)) {
            Some((condition, end)) => Some((seq![keyword, condition], end)),
            None => None,
        },
        None => None,
    }
}

/// `for`, a name, `in` and an expression, as the first four children of
/// a `for_statement`.
pub open spec fn for_head_at(s: Seq<char>, pos: int) -> Run {
    match keyword_at(s, pos, "for"@, Rule::k_for) {
        Some((keyword, behind)) => match identifier_at(s, skip_spaces(s, behind)) {
            Some((name, named)) => match guard_at(s, skip_spaces(s, named), "in"@, Rule::k_in) {
                Some((rest, end)) => Some((seq![keyword, name] + rest, end)),
                None => None,
            },
            None => None,
        },
        None => None,
    }
}

/// A statement. The alternatives are, in this order: `print`, `if`,
/// `while`, `for`, `break`, `continue`, a declaration, a block, an
/// assignment, an expression.
pub open spec fn statement_at(s: Seq<char>, pos: int) -> Match
    decreases s.len() - pos, 3nat,
{
    if has_word(s, pos, "print"@) {
        print_at(s, pos)
    } else if has_word(s, pos, "if"@) {
        if_at(s, pos)
    } else if has_word(s, pos, "while"@) {
        match guard_at(s, pos, "while"@, Rule::k_while) {
            Some((head, end)) => with_block(s, pos, Rule::while_statement, head, end),
            None => None,
        }
    } else if has_word(s, pos, "for"@) {
        match for_head_at(s, pos) {
            Some((head, end)) => with_block(s, pos, Rule::for_statement, head, end),
            None => None,
        }
    } else if has_word(s, pos, "break"@) {
        jump_at(s, pos, "break"@, Rule::k_break, Rule::break_statement)
    } else if has_word(s, pos, "continue"@) {
        jump_at(s, pos, "continue"@, Rule::k_continue, Rule::continue_statement)
    } else if has_word(s, pos, "const"@) || has_word(s, pos, "var"@) {
        declaration_at(s, pos)
    } else if has_char(s, pos, '{') {
        block_at(s, pos)
    } else if assignment_at(s, pos) is Some {
        assignment_at(s, pos)
    } else {
        expression_statement_at(s, pos)
    }
}

/// A statement of the rule `rule` that began at `pos`: the children
/// `head`, which end at `end`, and then a block.
pub open spec fn with_block(s: Seq<char>, pos: int, rule: Rule, head: Seq<Tree>, end: int) -> Match
    decreases s.len() - pos, 1nat,
{
    if pos < skip_spaces(s, end) <= s.len() {
        match block_at(s, skip_spaces(s, end)) {
            Some((block, next)) => Some((branch(rule, s, pos, next, head.push(block)), next)),
            None => None,
        }
    } else {
        None
    }
}

/// `block_statement`: statements between `{` and `}`.
pub open spec fn block_at(s: Seq<char>, pos: int) -> Match
    decreases s.len() - pos, 0nat,
{
    if has_char(s, pos, '{') && pos < skip_spaces(s, pos + 1) <= s.len() {
        let inner = statements_at(s, skip_spaces(s, pos + 1));
        match closing_at(s, inner.1, '}') {
            Some(next) => Some((branch(Rule::block_statement, s, pos, next, inner.0), next)),
            None => None,
        }
    } else {
        None
    }
}

/// As many statements as there are from `pos` on, and the position
/// behind the last of them.
pub open spec fn statements_at(s: Seq<char>, pos: int) -> (Seq<Tree>, int)
    decreases s.len() - pos, 4nat,
{
    match statement_at(s, pos) {
        Some((statement, end)) => if pos < skip_spaces(s, end) <= s.len() {
            (
                seq![statement] + statements_at(s, skip_spaces(s, end)).0,
                statements_at(s, skip_spaces(s, end)).1,
            )
        } else {
            (Seq::empty(), pos)
        },
        None => (Seq::empty(), pos),
    }
}

/// The `else if` branches and the `else` branch that follow a branch
/// which ends at `pos`.
pub open spec fn else_branches_at(s: Seq<char>, pos: int) -> (Seq<Tree>, int)
    decreases s.len() - pos, 2nat,
{
    let start = skip_spaces(s, pos);
    match keyword_at(s, start, "else"@, Rule::k_else) {
        Some((keyword, behind)) => if pos <= start && pos < skip_spaces(s, behind) <= s.len() {
            if has_word(s, skip_spaces(s, behind), "if"@) {
                match guard_at(s, skip_spaces(s, behind), "if"@, Rule::k_if) {
                    Some((head, end)) => match with_block(
                        s,
                        start,
                        Rule::else_if_body,
                        seq![keyword] + head,
                        end,
                    ) {
                        Some((branch, next)) => if pos < next <= s.len() {
                            (
                                seq![branch] + else_branches_at(s, next).0,
                                else_branches_at(s, next).1,
                            )
                        } else {
                            (Seq::empty(), pos)
                        },
                        None => (Seq::empty(), pos),
                    },
                    None => (Seq::empty(), pos),
                }
            } else {
                match with_block(s, start, Rule::else_body, seq![keyword], behind) {
                    Some((branch, next)) => (seq![branch], next),
                    None => (Seq::empty(), pos),
                }
            }
        } else {
            (Seq::empty(), pos)
        },
        None => (Seq::empty(), pos),
    }
}

/// `if_statement`: an `if_body`, then `else_if_body` nodes, then an
/// `else_body` or none.
pub open spec fn if_at(s: Seq<char>, pos: int) -> Match
    decreases s.len() - pos, 2nat,
{
    match guard_at(s, pos, "if"@, Rule::k_if) {
        Some((head, end)) => match with_block(s, pos, Rule::if_body, head, end) {
            Some((first, behind)) => if pos < behind <= s.len() {
                Some(
                    (
                        branch(
                            Rule::if_statement,
                            s,
                            pos,
                            else_branches_at(s, behind).1,
                            seq![first] + else_branches_at(s, behind).0,
                        ),
                        else_branches_at(s, behind).1,
                    ),
                )
            } else {
                None
            },
            None => None,
        },
        None => None,
    }
}

/// `program`: white space, statements, white space, and the end of the
/// text. The nodes are those of the statements and a last one of the
/// rule `EOI`. Where the statements end before the text does, the result
/// is the position at which no statement begins.
pub open spec fn program_at(s: Seq<char>) -> Result<Seq<Tree>, int> {
    let body = statements_at(s, skip_spaces(s, 0));
    if skip_spaces(s, body.1) >= s.len() {
        Ok(body.0.push(leaf(Rule::EOI, s, s.len() as int, s.len() as int)))
    } else {
        Err(skip_spaces(s, body.1))
    }
}


/// What a function that computes a rule has to return.
pub open spec fn computes(result: Option<(Node, usize)>, rule: Match, len: int) -> bool {
    match result {
        Some((node, next)) => rule == Some((node@, next as int)) && next <= len,
        None => rule is None,
    }
}

/// What a function that computes a run of tokens has to return.
pub open spec fn computes_run(result: Option<(Vec<Node>, usize)>, rule: Run, len: int) -> bool {
    match result {
        Some((nodes, next)) => rule == Some((trees(nodes@), next as int)) && next <= len,
        None => rule is None,
    }
}

/// A vector that holds one node.
fn single(node: Node) -> (r: Vec<Node>)
    ensures
        trees(r@) == seq![node@],
{
    let mut out: Vec<Node> = Vec::new();
    out.push(node);
    assert(trees(out@) =~= seq![node@]);
    out
}

/// A vector that holds two nodes.
fn couple(first: Node, second: Node) -> (r: Vec<Node>)
    ensures
        trees(r@) == seq![first@, second@],
{
    let mut out: Vec<Node> = Vec::new();
    out.push(first);
    out.push(second);
    assert(trees(out@) =~= seq![first@, second@]);
    out
}

/// The node `first` followed by the nodes of `rest`.
fn prepend(first: Node, rest: Vec<Node>) -> (r: Vec<Node>)
    ensures
        trees(r@) == seq![first@] + trees(rest@),
{
    let mut out: Vec<Node> = Vec::new();
    let mut rest = rest;
    let ghost tail = trees(rest@);
    out.push(first);
    out.append(&mut rest);
    assert(trees(out@) =~= seq![first@] + tail);
    out
}

/// The nodes of `head` followed by the nodes of `tail`.
fn concat(head: Vec<Node>, tail: Vec<Node>) -> (r: Vec<Node>)
    ensures
        trees(r@) == trees(head@) + trees(tail@),
{
    let mut out = head;
    let mut tail = tail;
    let ghost a = trees(out@);
    let ghost b = trees(tail@);
    out.append(&mut tail);
    assert(trees(out@) =~= a + b);
    out
}

/// The nodes of `head` followed by the node `last`.
fn append(head: Vec<Node>, last: Node) -> (r: Vec<Node>)
    ensures
        trees(r@) == trees(head@).push(last@),
{
    let mut out = head;
    let ghost a = trees(out@);
    out.push(last);
    assert(trees(out@) =~= a.push(last@));
    out
}

/// Computes [`identifier_at`].
pub fn parse_identifier(source: &Vec<char>, pos: usize) -> (r: Option<(Node, usize)>)
    requires
        pos <= source@.len(),
    ensures
        computes(r, identifier_at(source@, pos as int), source@.len() as int),
{
    if pos < source.len() && letter(source[pos]) {
        let end: usize = scan_word(source, pos);
        if reserved(source, pos, end) {
            None
        } else {
            Some((make_leaf(Rule::identifier, source, pos, end), end))
        }
    } else {
        None
    }
}

/// Computes [`keyword_at`].
pub fn parse_keyword(source: &Vec<char>, pos: usize, word: &str, rule: Rule) -> (r: Option<
    (Node, usize),
>)
    requires
        pos <= source@.len(),
    ensures
        computes(r, keyword_at(source@, pos as int, word@, rule), source@.len() as int),
{
    if at_word(source, pos, word) {
        let end: usize = scan_word(source, pos);
        Some((make_leaf(rule, source, pos, end), end))
    } else {
        None
    }
}

/// A node for the one character at `pos`.
fn one(rule: Rule, source: &Vec<char>, pos: usize) -> (r: Option<(Node, usize)>)
    requires
        pos < source@.len(),
    ensures
        r matches Some((node, next)) && next == pos + 1 && node@ == leaf(
            rule,
            source@,
            pos as int,
            pos + 1,
        ),
{
    // the length of a vector fits the machine, and so does `pos + 1`
    let _len: usize = source.len();
    Some((make_leaf(rule, source, pos, pos + 1), pos + 1))
}

/// A node for the two characters at `pos`.
fn two(rule: Rule, source: &Vec<char>, pos: usize) -> (r: Option<(Node, usize)>)
    requires
        pos + 2 <= source@.len(),
    ensures
        r matches Some((node, next)) && next == pos + 2 && node@ == leaf(
            rule,
            source@,
            pos as int,
            pos + 2,
        ),
{
    // the length of a vector fits the machine, and so does `pos + 2`
    let _len: usize = source.len();
    Some((make_leaf(rule, source, pos, pos + 2), pos + 2))
}

/// Computes [`sign_at`].
pub fn parse_sign(source: &Vec<char>, pos: usize) -> (r: Option<(Node, usize)>)
    requires
        pos <= source@.len(),
    ensures
        computes(r, sign_at(source@, pos as int), source@.len() as int),
{
    if at_char(source, pos, '+') {
        one(Rule::plus, source, pos)
    } else if at_char(source, pos, '-') {
        one(Rule::minus, source, pos)
    } else {
        None
    }
}

/// Computes [`prefixed_at`].
fn parse_prefixed(source: &Vec<char>, pos: usize, prefix: &str, radix: u32, rule: Rule) -> (r:
    Option<(Node, usize)>)
    requires
        pos <= source@.len(),
    ensures
        computes(r, prefixed_at(source@, pos as int, prefix@, radix, rule), source@.len() as int),
{
    if at_literal(source, pos, prefix) && source.len() - pos > 2 && radix_digit(
        source[pos + 2],
        radix,
    ) {
        let end: usize = scan_digits(source, pos + 2, radix);
        Some((make_leaf(rule, source, pos, end), end))
    } else {
        None
    }
}

/// Computes [`digits_at`].
pub fn parse_digits(source: &Vec<char>, pos: usize) -> (r: Option<(Node, usize)>)
    requires
        pos <= source@.len(),
    ensures
        computes(r, digits_at(source@, pos as int), source@.len() as int),
{
    let hexadecimal = parse_prefixed(source, pos, "0x", 16, Rule::hexadecimal);
    if hexadecimal.is_some() {
        return hexadecimal;
    }
    let octal = parse_prefixed(source, pos, "0o", 8, Rule::octal);
    if octal.is_some() {
        return octal;
    }
    let binary = parse_prefixed(source, pos, "0b", 2, Rule::binary);
    if binary.is_some() {
        return binary;
    }
    if pos < source.len() && digit(source[pos]) {
        let end: usize = scan_digits(source, pos, 10);
        Some((make_leaf(Rule::decimal, source, pos, end), end))
    } else {
        None
    }
}

/// Computes [`integer_at`].
pub fn parse_integer(source: &Vec<char>, pos: usize, signed: bool) -> (r: Option<(Node, usize)>)
    requires
        pos <= source@.len(),
    ensures
        computes(r, integer_at(source@, pos as int, signed), source@.len() as int),
{
    proof {
        lemma_match_bounds(source@, pos as int, signed);
    }
    if signed {
        match parse_sign(source, pos) {
            Some((sign, behind)) => {
                return match parse_digits(source, skip(source, behind)) {
                    Some((digits, end)) => Some(
                        (make_branch(Rule::integer, source, pos, end, couple(sign, digits)), end),
                    ),
                    None => None,
                };
            },
            None => {},
        }
    }
    match parse_digits(source, pos) {
        Some((digits, end)) => Some(
            (make_branch(Rule::integer, source, pos, end, single(digits)), end),
        ),
        None => None,
    }
}

/// Computes [`optional_digits_end`].
fn scan_optional_digits(source: &Vec<char>, pos: usize) -> (r: usize)
    requires
        pos <= source@.len(),
    ensures
        r == optional_digits_end(source@, pos as int),
        pos <= r <= source@.len(),
{
    if pos < source.len() && digit(source[pos]) {
        scan_digits(source, pos, 10)
    } else {
        pos
    }
}

/// Computes [`float_at`].
pub fn parse_float(source: &Vec<char>, pos: usize, signed: bool) -> (r: Option<(Node, usize)>)
    requires
        pos <= source@.len(),
    ensures
        computes(r, float_at(source@, pos as int, signed), source@.len() as int),
{
    let whole: usize = if signed && (at_char(source, pos, '+') || at_char(source, pos, '-')) {
        skip(source, pos + 1)
    } else {
        pos
    };
    let point: usize = scan_optional_digits(source, whole);
    if at_char(source, point, '.') {
        let end: usize = scan_optional_digits(source, point + 1);
        if whole < point || point + 1 < end {
            return Some((make_leaf(Rule::float, source, pos, end), end));
        }
    }
    None
}

/// Computes [`boolean_at`].
pub fn parse_boolean(source: &Vec<char>, pos: usize) -> (r: Option<(Node, usize)>)
    requires
        pos <= source@.len(),
    ensures
        computes(r, boolean_at(source@, pos as int), source@.len() as int),
{
    if at_word(source, pos, "true") {
        parse_keyword(source, pos, "true", Rule::boolean)
    } else {
        parse_keyword(source, pos, "false", Rule::boolean)
    }
}

/// Computes [`value_at`].
pub fn parse_value(source: &Vec<char>, pos: usize, signed: bool) -> (r: Option<(Node, usize)>)
    requires
        pos <= source@.len(),
    ensures
        computes(r, value_at(source@, pos as int, signed), source@.len() as int),
{
    let float = parse_float(source, pos, signed);
    let inner = if float.is_some() {
        float
    } else {
        let integer = parse_integer(source, pos, signed);
        if integer.is_some() {
            integer
        } else {
            parse_boolean(source, pos)
        }
    };
    match inner {
        Some((node, end)) => {
            proof {
                lemma_match_bounds(source@, pos as int, signed);
            }
            Some((make_branch(Rule::value, source, pos, end, single(node)), end))
        },
        None => None,
    }
}

/// A value ends behind the place it begins at.
proof fn lemma_match_bounds(s: Seq<char>, pos: int, signed: bool)
    requires
        0 <= pos <= s.len(),
    ensures
        float_at(s, pos, signed) matches Some((_, end)) ==> pos <= end,
        integer_at(s, pos, signed) matches Some((_, end)) ==> pos <= end,
        boolean_at(s, pos) matches Some((_, end)) ==> pos <= end,
{
    lemma_skip_bounds(s, pos + 1);
    lemma_digits_bounds(s, pos, 10);
    lemma_digits_bounds(s, pos + 2, 16);
    lemma_digits_bounds(s, pos + 2, 8);
    lemma_digits_bounds(s, pos + 2, 2);
    let whole = if signed && sign_at(s, pos) is Some {
        skip_spaces(s, pos + 1)
    } else {
        pos
    };
    lemma_digits_bounds(s, whole, 10);
    let point = optional_digits_end(s, whole);
    lemma_digits_bounds(s, point + 1, 10);
    let digits = skip_spaces(s, pos + 1);
    lemma_digits_bounds(s, digits, 10);
    lemma_digits_bounds(s, digits + 2, 16);
    lemma_digits_bounds(s, digits + 2, 8);
    lemma_digits_bounds(s, digits + 2, 2);
}

/// Skipping white space goes forward.
pub proof fn lemma_skip_bounds(s: Seq<char>, pos: int)
    ensures
        pos <= skip_spaces(s, pos),
        pos <= s.len() ==> skip_spaces(s, pos) <= s.len(),
    decreases s.len() - pos,
{
    if 0 <= pos < s.len() && is_space(s[pos]) {
        lemma_skip_bounds(s, pos + 1);
    }
}

/// A run of digits ends behind the place it begins at.
pub proof fn lemma_digits_bounds(s: Seq<char>, pos: int, radix: u32)
    ensures
        pos <= digits_end(s, pos, radix),
        pos <= s.len() ==> digits_end(s, pos, radix) <= s.len(),
    decreases s.len() - pos,
{
    if 0 <= pos < s.len() && (is_radix_digit(s[pos], radix) || s[pos] == '_') {
        lemma_digits_bounds(s, pos + 1, radix);
    }
}

/// Computes [`prefix_at`].
pub fn parse_prefix(source: &Vec<char>, pos: usize) -> (r: Option<(Node, usize)>)
    requires
        pos <= source@.len(),
    ensures
        computes(r, prefix_at(source@, pos as int), source@.len() as int),
{
    if at_char(source, pos, '+') {
        one(Rule::plus, source, pos)
    } else if at_char(source, pos, '-') {
        one(Rule::minus, source, pos)
    } else if at_char(source, pos, '!') && !at_char(source, pos + 1, '=') {
        one(Rule::not, source, pos)
    } else {
        parse_keyword(source, pos, "not", Rule::not)
    }
}

/// Computes [`infix_at`].
pub fn parse_infix(source: &Vec<char>, pos: usize) -> (r: Option<(Node, usize)>)
    requires
        pos <= source@.len(),
    ensures
        computes(r, infix_at(source@, pos as int), source@.len() as int),
{
    proof {
        reveal_strlit("**");
        reveal_strlit("<=");
        reveal_strlit(">=");
        reveal_strlit("==");
        reveal_strlit("!=");
    }
    if at_literal(source, pos, "**") {
        two(Rule::power, source, pos)
    } else if at_char(source, pos, '*') {
        one(Rule::multiply, source, pos)
    } else if at_char(source, pos, '/') {
        one(Rule::divide, source, pos)
    } else if at_char(source, pos, '%') {
        one(Rule::remainder, source, pos)
    } else if at_char(source, pos, '+') {
        one(Rule::add, source, pos)
    } else if at_char(source, pos, '-') {
        one(Rule::subtract, source, pos)
    } else if at_literal(source, pos, "<=") {
        two(Rule::less_than_eq, source, pos)
    } else if at_char(source, pos, '<') {
        one(Rule::less_than, source, pos)
    } else if at_literal(source, pos, ">=") {
        two(Rule::greater_than_eq, source, pos)
    } else if at_char(source, pos, '>') {
        one(Rule::greater_than, source, pos)
    } else if at_literal(source, pos, "==") {
        two(Rule::equal_to, source, pos)
    } else if at_literal(source, pos, "!=") {
        two(Rule::not_equal_to, source, pos)
    } else if at_word(source, pos, "and") {
        parse_keyword(source, pos, "and", Rule::logical_and)
    } else if at_word(source, pos, "or") {
        parse_keyword(source, pos, "or", Rule::logical_or)
    } else {
        parse_keyword(source, pos, "xor", Rule::logical_xor)
    }
}

/// Computes [`term_at`].
pub fn parse_term(source: &Vec<char>, pos: usize) -> (r: Option<(Vec<Node>, usize)>)
    requires
        pos <= source@.len(),
    ensures
        computes_run(r, term_at(source@, pos as int), source@.len() as int),
    decreases source@.len() - pos, 0nat,
{
    match parse_prefix(source, pos) {
        Some((operator, behind)) => {
            let next: usize = skip(source, behind);
            if pos < next {
                match parse_term(source, next) {
                    Some((rest, end)) => Some((prepend(operator, rest), end)),
                    None => None,
                }
            } else {
                None
            }
        },
        None => {
            match parse_value(source, pos, false) {
                Some((value, end)) => {
                    return Some((single(value), end));
                },
                None => {},
            }
            match parse_identifier(source, pos) {
                Some((identifier, end)) => {
                    return Some((single(identifier), end));
                },
                None => {},
            }
            if at_char(source, pos, '(') {
                let inside: usize = skip(source, pos + 1);
                if pos < inside {
                    match parse_expression(source, inside) {
                        Some((inner, behind)) => {
                            let close: usize = skip(source, behind);
                            if at_char(source, close, ')') {
                                return Some((single(inner), close + 1));
                            }
                        },
                        None => {},
                    }
                }
            }
            None
        },
    }
}

/// Computes [`tail_at`].
pub fn parse_tail(source: &Vec<char>, pos: usize) -> (r: (Vec<Node>, usize))
    requires
        pos <= source@.len(),
    ensures
        (trees(r.0@), r.1 as int) == tail_at(source@, pos as int),
        pos <= r.1 <= source@.len(),
    decreases source@.len() - pos, 1nat,
{
    let mut nodes: Vec<Node> = Vec::new();
    let mut at: usize = pos;
    assert(trees(nodes@) + tail_at(source@, at as int).0 =~= tail_at(source@, pos as int).0);
    loop
        invariant
            pos <= at <= source@.len(),
            tail_at(source@, pos as int) == (
                trees(nodes@) + tail_at(source@, at as int).0,
                tail_at(source@, at as int).1,
            ),
        ensures
            (trees(nodes@), at as int) == tail_at(source@, pos as int),
            pos <= at <= source@.len(),
        decreases source@.len() - at,
    {
        match parse_infix(source, skip(source, at)) {
            Some((operator, behind)) => {
                let next: usize = skip(source, behind);
                if at < next {
                    match parse_term(source, next) {
                        Some((term, end)) => {
                            if at < end {
                                let ghost rest = tail_at(source@, end as int);
                                let ghost before = trees(nodes@);
                                let ghost added = seq![operator@] + trees(term@);
                                nodes = concat(nodes, prepend(operator, term));
                                proof {
                                    assert(before + (added + rest.0) =~= trees(nodes@) + rest.0);
                                }
                                at = end;
                                continue ;
                            }
                        },
                        None => {},
                    }
                }
            },
            None => {},
        }
        assert(trees(nodes@) + Seq::<Tree>::empty() =~= trees(nodes@));
        break ;
    }
    (nodes, at)
}

/// Computes [`expression_at`].
pub fn parse_expression(source: &Vec<char>, pos: usize) -> (r: Option<(Node, usize)>)
    requires
        pos <= source@.len(),
    ensures
        computes(r, expression_at(source@, pos as int), source@.len() as int),
    decreases source@.len() - pos, 2nat,
{
    match parse_term(source, pos) {
        Some((first, end)) => {
            if pos <= end {
                let (rest, last) = parse_tail(source, end);
                Some((make_branch(Rule::expression, source, pos, last, concat(first, rest)), last))
            } else {
                None
            }
        },
        None => None,
    }
}

/// Computes [`closing_at`].
fn parse_closing(source: &Vec<char>, pos: usize, c: char) -> (r: Option<usize>)
    requires
        pos <= source@.len(),
    ensures
        r matches Some(next) ==> closing_at(source@, pos as int, c) == Some(next as int) && pos
            < next <= source@.len(),
        r is None ==> closing_at(source@, pos as int, c) is None,
{
    let at: usize = skip(source, pos);
    if at_char(source, at, c) {
        Some(at + 1)
    } else {
        None
    }
}

/// Computes [`print_at`].
pub fn parse_print(source: &Vec<char>, pos: usize) -> (r: Option<(Node, usize)>)
    requires
        pos <= source@.len(),
    ensures
        computes(r, print_at(source@, pos as int), source@.len() as int),
{
    match parse_keyword(source, pos, "print", Rule::k_print) {
        Some((keyword, behind)) => match parse_expression(source, skip(source, behind)) {
            Some((expression, end)) => match parse_closing(source, end, ';') {
                Some(next) => {
                    proof {
                        lemma_keyword_bounds(source@, pos as int, "print"@, Rule::k_print);
                        lemma_skip_bounds(source@, behind as int);
                        lemma_expression_bounds(source@, skip_spaces(source@, behind as int));
                    }
                    Some(
                        (
                            make_branch(
                                Rule::print_statement,
                                source,
                                pos,
                                next,
                                couple(keyword, expression),
                            ),
                            next,
                        ),
                    )
                },
                None => None,
            },
            None => None,
        },
        None => None,
    }
}

/// A keyword ends behind the place it begins at.
pub proof fn lemma_keyword_bounds(s: Seq<char>, pos: int, word: Seq<char>, rule: Rule)
    ensures
        keyword_at(s, pos, word, rule) matches Some((_, end)) ==> pos <= end <= s.len(),
{
}

/// An identifier ends behind the place it begins at.
pub proof fn lemma_identifier_bounds(s: Seq<char>, pos: int)
    ensures
        identifier_at(s, pos) matches Some((_, end)) ==> pos < end <= s.len(),
{
    if 0 <= pos < s.len() {
        lemma_word_bounds(s, pos + 1);
    }
}

/// A run of word characters ends behind the place it begins at.
pub proof fn lemma_word_bounds(s: Seq<char>, pos: int)
    ensures
        pos <= word_end(s, pos),
        pos <= s.len() ==> word_end(s, pos) <= s.len(),
    decreases s.len() - pos,
{
    if 0 <= pos < s.len() && is_word_char(s[pos]) {
        lemma_word_bounds(s, pos + 1);
    }
}

/// An expression ends behind the place it begins at.
pub proof fn lemma_expression_bounds(s: Seq<char>, pos: int)
    ensures
        expression_at(s, pos) matches Some((_, end)) ==> pos <= end <= s.len(),
        tail_at(s, pos).1 >= pos,
        pos <= s.len() ==> tail_at(s, pos).1 <= s.len(),
    decreases s.len() - pos,
{
    match term_at(s, pos) {
        Some((first, end)) => {
            if pos <= end <= s.len() {
                lemma_tail_bounds(s, end);
            }
        },
        None => {},
    }
    lemma_tail_bounds(s, pos);
}

/// The tail of an expression ends behind the place it begins at.
pub proof fn lemma_tail_bounds(s: Seq<char>, pos: int)
    ensures
        tail_at(s, pos).1 >= pos,
        pos <= s.len() ==> tail_at(s, pos).1 <= s.len(),
    decreases s.len() - pos,
{
    match infix_at(s, skip_spaces(s, pos)) {
        Some((operator, behind)) => {
            if pos < skip_spaces(s, behind) <= s.len() {
                match term_at(s, skip_spaces(s, behind)) {
                    Some((term, end)) => {
                        if pos < end <= s.len() {
                            lemma_tail_bounds(s, end);
                        }
                    },
                    None => {},
                }
            }
        },
        None => {},
    }
}


/// Computes [`jump_at`].
pub fn parse_jump(source: &Vec<char>, pos: usize, word: &str, keyword: Rule, rule: Rule) -> (r:
    Option<(Node, usize)>)
    requires
        pos <= source@.len(),
    ensures
        computes(r, jump_at(source@, pos as int, word@, keyword, rule), source@.len() as int),
{
    match parse_keyword(source, pos, word, keyword) {
        Some((keyword, behind)) => match parse_closing(source, behind, ';') {
            Some(next) => {
                proof {
                    lemma_skip_bounds(source@, behind as int);
                }
                Some((make_branch(rule, source, pos, next, single(keyword)), next))
            },
            None => None,
        },
        None => None,
    }
}

/// Computes [`initializer_at`].
fn parse_initializer(source: &Vec<char>, pos: usize) -> (r: Option<(Node, usize)>)
    requires
        pos <= source@.len(),
    ensures
        computes(r, initializer_at(source@, pos as int), source@.len() as int),
        r matches Some((_, next)) ==> pos <= next,
{
    let at: usize = skip(source, pos);
    if at_char(source, at, '=') {
        let begin: usize = skip(source, at + 1);
        proof {
            lemma_expression_bounds(source@, begin as int);
        }
        parse_expression(source, begin)
    } else {
        None
    }
}

/// Computes [`declaration_at`].
pub fn parse_declaration(source: &Vec<char>, pos: usize) -> (r: Option<(Node, usize)>)
    requires
        pos <= source@.len(),
    ensures
        computes(r, declaration_at(source@, pos as int), source@.len() as int),
{
    let constant = at_word(source, pos, "const");
    let keyword = if constant {
        parse_keyword(source, pos, "const", Rule::k_const)
    } else {
        parse_keyword(source, pos, "var", Rule::k_var)
    };
    match keyword {
        Some((keyword, behind)) => {
            let begin: usize = skip(source, behind);
            proof {
                lemma_keyword_bounds(source@, pos as int, "const"@, Rule::k_const);
                lemma_keyword_bounds(source@, pos as int, "var"@, Rule::k_var);
                lemma_identifier_bounds(source@, begin as int);
            }
            match parse_identifier(source, begin) {
                Some((name, named)) => match parse_initializer(source, named) {
                    Some((value, end)) => match parse_closing(source, end, ';') {
                        Some(next) => {
                            let children = append(couple(keyword, name), value);
                            assert(trees(children@) =~= seq![keyword@, name@, value@]);
                            Some(
                                (
                                    make_branch(
                                        Rule::declaration_statement,
                                        source,
                                        pos,
                                        next,
                                        children,
                                    ),
                                    next,
                                ),
                            )
                        },
                        None => None,
                    },
                    None => match parse_closing(source, named, ';') {
                        Some(next) => {
                            if constant {
                                None
                            } else {
                                Some(
                                    (
                                        make_branch(
                                            Rule::declaration_statement,
                                            source,
                                            pos,
                                            next,
                                            couple(keyword, name),
                                        ),
                                        next,
                                    ),
                                )
                            }
                        },
                        None => None,
                    },
                },
                None => None,
            }
        },
        None => None,
    }
}

/// Computes [`assignment_at`].
pub fn parse_assignment(source: &Vec<char>, pos: usize) -> (r: Option<(Node, usize)>)
    requires
        pos <= source@.len(),
    ensures
        computes(r, assignment_at(source@, pos as int), source@.len() as int),
{
    proof {
        lemma_identifier_bounds(source@, pos as int);
    }
    match parse_identifier(source, pos) {
        Some((name, named)) => {
            let at: usize = skip(source, named);
            if at < source.len() && at_char(source, at + 1, '=') {
                return None;
            }
            match parse_initializer(source, named) {
                Some((value, end)) => match parse_closing(source, end, ';') {
                    Some(next) => Some(
                        (
                            make_branch(
                                Rule::assignment_statement,
                                source,
                                pos,
                                next,
                                couple(name, value),
                            ),
                            next,
                        ),
                    ),
                    None => None,
                },
                None => None,
            }
        },
        None => None,
    }
}

/// Computes [`expression_statement_at`].
pub fn parse_expression_statement(source: &Vec<char>, pos: usize) -> (r: Option<(Node, usize)>)
    requires
        pos <= source@.len(),
    ensures
        computes(r, expression_statement_at(source@, pos as int), source@.len() as int),
{
    proof {
        lemma_expression_bounds(source@, pos as int);
    }
    match parse_expression(source, pos) {
        Some((expression, end)) => match parse_closing(source, end, ';') {
            Some(next) => Some(
                (
                    make_branch(Rule::expression_statement, source, pos, next, single(expression)),
                    next,
                ),
            ),
            None => None,
        },
        None => None,
    }
}

/// Computes [`guard_at`].
fn parse_guard(source: &Vec<char>, pos: usize, word: &str, rule: Rule) -> (r: Option<
    (Vec<Node>, usize),
>)
    requires
        pos <= source@.len(),
    ensures
        computes_run(r, guard_at(source@, pos as int, word@, rule), source@.len() as int),
        r matches Some((_, next)) ==> pos <= next,
{
    match parse_keyword(source, pos, word, rule) {
        Some((keyword, behind)) => {
            let begin: usize = skip(source, behind);
            proof {
                lemma_expression_bounds(source@, begin as int);
            }
            match parse_expression(source, begin) {
                Some((condition, end)) => Some((couple(keyword, condition), end)),
                None => None,
            }
        },
        None => None,
    }
}

/// Computes [`for_head_at`].
fn parse_for_head(source: &Vec<char>, pos: usize) -> (r: Option<(Vec<Node>, usize)>)
    requires
        pos <= source@.len(),
    ensures
        computes_run(r, for_head_at(source@, pos as int), source@.len() as int),
        r matches Some((_, next)) ==> pos <= next,
{
    match parse_keyword(source, pos, "for", Rule::k_for) {
        Some((keyword, behind)) => {
            let begin: usize = skip(source, behind);
            proof {
                lemma_identifier_bounds(source@, begin as int);
            }
            match parse_identifier(source, begin) {
                Some((name, named)) => match parse_guard(
                    source,
                    skip(source, named),
                    "in",
                    Rule::k_in,
                ) {
                    Some((rest, end)) => Some((concat(couple(keyword, name), rest), end)),
                    None => None,
                },
                None => None,
            }
        },
        None => None,
    }
}

/// Computes [`statement_at`].
pub fn parse_statement(source: &Vec<char>, pos: usize) -> (r: Option<(Node, usize)>)
    requires
        pos <= source@.len(),
    ensures
        computes(r, statement_at(source@, pos as int), source@.len() as int),
        r matches Some((_, next)) ==> pos <= next,
    decreases source@.len() - pos, 3nat,
{
    if at_word(source, pos, "print") {
        let r = parse_print(source, pos);
        proof {
            lemma_statement_bounds(source@, pos as int);
        }
        r
    } else if at_word(source, pos, "if") {
        parse_if(source, pos)
    } else if at_word(source, pos, "while") {
        match parse_guard(source, pos, "while", Rule::k_while) {
            Some((head, end)) => finish_with_block(source, pos, Rule::while_statement, head, end),
            None => None,
        }
    } else if at_word(source, pos, "for") {
        match parse_for_head(source, pos) {
            Some((head, end)) => finish_with_block(source, pos, Rule::for_statement, head, end),
            None => None,
        }
    } else if at_word(source, pos, "break") {
        let r = parse_jump(source, pos, "break", Rule::k_break, Rule::break_statement);
        proof {
            lemma_statement_bounds(source@, pos as int);
        }
        r
    } else if at_word(source, pos, "continue") {
        let r = parse_jump(source, pos, "continue", Rule::k_continue, Rule::continue_statement);
        proof {
            lemma_statement_bounds(source@, pos as int);
        }
        r
    } else if at_word(source, pos, "const") || at_word(source, pos, "var") {
        let r = parse_declaration(source, pos);
        proof {
            lemma_statement_bounds(source@, pos as int);
        }
        r
    } else if at_char(source, pos, '{') {
        parse_block(source, pos)
    } else {
        proof {
            lemma_statement_bounds(source@, pos as int);
        }
        let assignment = parse_assignment(source, pos);
        if assignment.is_some() {
            assignment
        } else {
            parse_expression_statement(source, pos)
        }
    }
}

/// A statement that is no block and has none ends behind the place it
/// begins at.
proof fn lemma_statement_bounds(s: Seq<char>, pos: int)
    requires
        0 <= pos <= s.len(),
    ensures
        print_at(s, pos) matches Some((_, end)) ==> pos <= end,
        jump_at(s, pos, "break"@, Rule::k_break, Rule::break_statement) matches Some((_, end))
            ==> pos <= end,
        jump_at(s, pos, "continue"@, Rule::k_continue, Rule::continue_statement) matches Some(
            (_, end),
        ) ==> pos <= end,
        declaration_at(s, pos) matches Some((_, end)) ==> pos <= end,
        assignment_at(s, pos) matches Some((_, end)) ==> pos <= end,
        expression_statement_at(s, pos) matches Some((_, end)) ==> pos <= end,
{
    lemma_expression_bounds(s, pos);
    lemma_identifier_bounds(s, pos);
    match expression_at(s, pos) {
        Some((_, end)) => {
            lemma_skip_bounds(s, end);
        },
        None => {},
    }
    match identifier_at(s, pos) {
        Some((_, named)) => {
            lemma_initializer_bounds(s, named);
            lemma_skip_bounds(s, named);
            match initializer_at(s, named) {
                Some((_, end)) => {
                    lemma_skip_bounds(s, end);
                },
                None => {},
            }
        },
        None => {},
    }
    match keyword_at(s, pos, "print"@, Rule::k_print) {
        Some((_, behind)) => {
            lemma_skip_bounds(s, behind);
            lemma_expression_bounds(s, skip_spaces(s, behind));
            match expression_at(s, skip_spaces(s, behind)) {
                Some((_, end)) => {
                    lemma_skip_bounds(s, end);
                },
                None => {},
            }
        },
        None => {},
    }
    match keyword_at(s, pos, "break"@, Rule::k_break) {
        Some((_, behind)) => {
            lemma_skip_bounds(s, behind);
        },
        None => {},
    }
    match keyword_at(s, pos, "continue"@, Rule::k_continue) {
        Some((_, behind)) => {
            lemma_skip_bounds(s, behind);
        },
        None => {},
    }
    let keyword = if has_word(s, pos, "const"@) {
        keyword_at(s, pos, "const"@, Rule::k_const)
    } else {
        keyword_at(s, pos, "var"@, Rule::k_var)
    };
    match keyword {
        Some((_, behind)) => {
            lemma_skip_bounds(s, behind);
            lemma_identifier_bounds(s, skip_spaces(s, behind));
            match identifier_at(s, skip_spaces(s, behind)) {
                Some((_, named)) => {
                    lemma_initializer_bounds(s, named);
                    lemma_skip_bounds(s, named);
                    match initializer_at(s, named) {
                        Some((_, end)) => {
                            lemma_skip_bounds(s, end);
                        },
                        None => {},
                    }
                },
                None => {},
            }
        },
        None => {},
    }
}

/// An initializer ends behind the place it begins at.
proof fn lemma_initializer_bounds(s: Seq<char>, pos: int)
    ensures
        initializer_at(s, pos) matches Some((_, end)) ==> pos <= end,
{
    lemma_skip_bounds(s, pos);
    lemma_skip_bounds(s, skip_spaces(s, pos) + 1);
    lemma_expression_bounds(s, skip_spaces(s, skip_spaces(s, pos) + 1));
}

/// Computes [`with_block`].
fn finish_with_block(source: &Vec<char>, pos: usize, rule: Rule, head: Vec<Node>, end: usize) -> (r:
    Option<(Node, usize)>)
    requires
        pos <= end <= source@.len(),
    ensures
        computes(
            r,
            with_block(source@, pos as int, rule, trees(head@), end as int),
            source@.len() as int,
        ),
        r matches Some((_, next)) ==> pos < next,
    decreases source@.len() - pos, 1nat,
{
    let begin: usize = skip(source, end);
    if pos < begin {
        match parse_block(source, begin) {
            Some((block, next)) => Some(
                (make_branch(rule, source, pos, next, append(head, block)), next),
            ),
            None => None,
        }
    } else {
        None
    }
}

/// Computes [`block_at`].
pub fn parse_block(source: &Vec<char>, pos: usize) -> (r: Option<(Node, usize)>)
    requires
        pos <= source@.len(),
    ensures
        computes(r, block_at(source@, pos as int), source@.len() as int),
        r matches Some((_, next)) ==> pos < next,
    decreases source@.len() - pos, 0nat,
{
    if at_char(source, pos, '{') {
        let begin: usize = skip(source, pos + 1);
        let (inner, end) = parse_statements(source, begin);
        match parse_closing(source, end, '}') {
            Some(next) => Some((make_branch(Rule::block_statement, source, pos, next, inner), next)),
            None => None,
        }
    } else {
        None
    }
}

/// Computes [`statements_at`].
pub fn parse_statements(source: &Vec<char>, pos: usize) -> (r: (Vec<Node>, usize))
    requires
        pos <= source@.len(),
    ensures
        (trees(r.0@), r.1 as int) == statements_at(source@, pos as int),
        pos <= r.1 <= source@.len(),
    decreases source@.len() - pos, 4nat,
{
    let mut nodes: Vec<Node> = Vec::new();
    let mut at: usize = pos;
    assert(trees(nodes@) + statements_at(source@, at as int).0 =~= statements_at(
        source@,
        pos as int,
    ).0);
    loop
        invariant
            pos <= at <= source@.len(),
            statements_at(source@, pos as int) == (
                trees(nodes@) + statements_at(source@, at as int).0,
                statements_at(source@, at as int).1,
            ),
        ensures
            (trees(nodes@), at as int) == statements_at(source@, pos as int),
            pos <= at <= source@.len(),
        decreases source@.len() - at,
    {
        let ghost here = statements_at(source@, at as int);
        match parse_statement(source, at) {
            Some((statement, end)) => {
                let next: usize = skip(source, end);
                if at < next {
                    let ghost rest = statements_at(source@, next as int);
                    let ghost before = trees(nodes@);
                    nodes.push(statement);
                    proof {
                        assert(trees(nodes@) =~= before.push(statement@));
                        assert(before + (seq![statement@] + rest.0) =~= trees(nodes@) + rest.0);
                    }
                    at = next;
                    continue ;
                }
            },
            None => {},
        }
        assert(trees(nodes@) + Seq::<Tree>::empty() =~= trees(nodes@));
        break ;
    }
    (nodes, at)
}

/// Computes [`else_branches_at`].
fn parse_else_branches(source: &Vec<char>, pos: usize) -> (r: (Vec<Node>, usize))
    requires
        pos <= source@.len(),
    ensures
        (trees(r.0@), r.1 as int) == else_branches_at(source@, pos as int),
        pos <= r.1 <= source@.len(),
    decreases source@.len() - pos, 2nat,
{
    let start: usize = skip(source, pos);
    match parse_keyword(source, start, "else", Rule::k_else) {
        Some((keyword, behind)) => {
            let begin: usize = skip(source, behind);
            if pos < begin {
                if at_word(source, begin, "if") {
                    match parse_guard(source, begin, "if", Rule::k_if) {
                        Some((head, end)) => {
                            proof {
                                lemma_keyword_bounds(
                                    source@,
                                    start as int,
                                    "else"@,
                                    Rule::k_else,
                                );
                            }
                            match finish_with_block(
                                source,
                                start,
                                Rule::else_if_body,
                                prepend(keyword, head),
                                end,
                            ) {
                                Some((branch, next)) => {
                                    if pos < next {
                                        let (rest, last) = parse_else_branches(source, next);
                                        return (prepend(branch, rest), last);
                                    }
                                },
                                None => {},
                            }
                        },
                        None => {},
                    }
                } else {
                    proof {
                        lemma_keyword_bounds(source@, start as int, "else"@, Rule::k_else);
                    }
                    match finish_with_block(
                        source,
                        start,
                        Rule::else_body,
                        single(keyword),
                        behind,
                    ) {
                        Some((branch, next)) => {
                            return (single(branch), next);
                        },
                        None => {},
                    }
                }
            }
        },
        None => {},
    }
    let none: Vec<Node> = Vec::new();
    assert(trees(none@) =~= Seq::<Tree>::empty());
    (none, pos)
}

/// Computes [`if_at`].
pub fn parse_if(source: &Vec<char>, pos: usize) -> (r: Option<(Node, usize)>)
    requires
        pos <= source@.len(),
    ensures
        computes(r, if_at(source@, pos as int), source@.len() as int),
        r matches Some((_, next)) ==> pos <= next,
    decreases source@.len() - pos, 2nat,
{
    match parse_guard(source, pos, "if", Rule::k_if) {
        Some((head, end)) => match finish_with_block(source, pos, Rule::if_body, head, end) {
            Some((first, behind)) => {
                if pos < behind {
                    let (rest, last) = parse_else_branches(source, behind);
                    Some(
                        (
                            make_branch(
                                Rule::if_statement,
                                source,
                                pos,
                                last,
                                prepend(first, rest),
                            ),
                            last,
                        ),
                    )
                } else {
                    None
                }
            },
            None => None,
        },
        None => None,
    }
}

/// Computes [`program_at`].
pub fn parse_program(source: &Vec<char>) -> (r: Result<Vec<Node>, usize>)
    ensures
        match r {
            Ok(nodes) => program_at(source@) == Ok::<Seq<Tree>, int>(trees(nodes@))
                && nodes@.len() >= 1,
            Err(at) => program_at(source@) == Err::<Seq<Tree>, int>(at as int) && at
                <= source@.len(),
        },
{
    let (body, end) = parse_statements(source, skip(source, 0));
    let last: usize = skip(source, end);
    if last >= source.len() {
        let len: usize = source.len();
        let nodes = append(body, make_leaf(Rule::EOI, source, len, len));
        assert(trees(nodes@).len() == nodes@.len());
        Ok(nodes)
    } else {
        Err(last)
    }
}

} // verus!
