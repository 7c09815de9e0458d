//! Characters, words and literals of the source text.

use vstd::prelude::*;
use vstd::std_specs::iter::IteratorSpec;

use crate::parser::{lemma_node_view, trees, Node, Rule, Tree};
use crate::text::push_char;

verus! {

/// Blank, tab, line feed or carriage return.
pub open spec fn is_space(c: char) -> bool {
    c == ' ' || c == '\t' || c == '\n' || c == '\r'
}

/// A letter of the Latin alphabet.
pub open spec fn is_letter(c: char) -> bool {
    ('a' <= c && c <= 'z') || ('A' <= c && c <= 'Z')
}

/// A decimal digit.
pub open spec fn is_digit(c: char) -> bool {
    '0' <= c && c <= '9'
}

/// A character that can stand inside a word: a letter, a digit or `_`.
pub open spec fn is_word_char(c: char) -> bool {
    is_letter(c) || is_digit(c) || c == '_'
}

/// A digit of the given radix, which is 2, 8, 10 or 16.
pub open spec fn is_radix_digit(c: char, radix: u32) -> bool {
    if radix == 2 {
        c == '0' || c == '1'
    } else if radix == 8 {
        '0' <= c && c <= '7'
    } else if radix == 10 {
        is_digit(c)
    } else {
        is_digit(c) || ('a' <= c && c <= 'f') || ('A' <= c && c <= 'F')
    }
}

/// The first position from `pos` on that holds no white space.
pub open spec fn skip_spaces(s: Seq<char>, pos: int) -> int
    decreases s.len() - pos,
{
    if 0 <= pos < s.len() && is_space(s[pos]) {
        skip_spaces(s, pos + 1)
    } else {
        pos
    }
}

/// The end of the longest run of word characters that begins at `pos`.
pub open spec fn word_end(s: Seq<char>, pos: int) -> int
    decreases s.len() - pos,
{
    if 0 <= pos < s.len() && is_word_char(s[pos]) {
        word_end(s, pos + 1)
    } else {
        pos
    }
}

/// The end of the longest run of digits of the radix and underscores that
/// begins at `pos`.
pub open spec fn digits_end(s: Seq<char>, pos: int, radix: u32) -> int
    decreases s.len() - pos,
{
    if 0 <= pos < s.len() && (is_radix_digit(s[pos], radix) || s[pos] == '_') {
        digits_end(s, pos + 1, radix)
    } else {
        pos
    }
}

/// Whether the text holds `literal` at `pos`.
pub open spec fn has_literal(s: Seq<char>, pos: int, literal: Seq<char>) -> bool {
    0 <= pos && pos + literal.len() <= s.len() && s.subrange(pos, pos + literal.len()) == literal
}

/// Whether the text holds the character `c` at `pos`.
pub open spec fn has_char(s: Seq<char>, pos: int, c: char) -> bool {
    0 <= pos < s.len() && s[pos] == c
}

/// Whether the word that begins at `pos` is `word`.
pub open spec fn has_word(s: Seq<char>, pos: int, word: Seq<char>) -> bool {
    has_literal(s, pos, word) && word_end(s, pos) == pos + word.len()
}

/// Whether a word is reserved and cannot name anything.
pub open spec fn is_reserved(word: Seq<char>) -> bool {
    ||| word == "if"@
    ||| word == "else"@
    ||| word == "print"@
    ||| word == "while"@
    ||| word == "for"@
    ||| word == "return"@
    ||| word == "var"@
    ||| word == "const"@
    ||| word == "continue"@
    ||| word == "break"@
    ||| word == "in"@
    ||| word == "and"@
    ||| word == "or"@
    ||| word == "not"@
    ||| word == "xor"@
    ||| word == "fn"@
    ||| word == "true"@
    ||| word == "false"@
}

/// A node without children for the text from `start` to `end`.
pub open spec fn leaf(rule: Rule, s: Seq<char>, start: int, end: int) -> Tree {
    Tree { rule, text: s.subrange(start, end), start, end, children: Seq::empty() }
}

/// A node with children for the text from `start` to `end`.
pub open spec fn branch(rule: Rule, s: Seq<char>, start: int, end: int, children: Seq<Tree>) -> Tree {
    Tree { rule, text: s.subrange(start, end), start, end, children }
}

pub fn space(c: char) -> (r: bool)
    ensures
        r == is_space(c),
{
    c == ' ' || c == '\t' || c == '\n' || c == '\r'
}

pub fn letter(c: char) -> (r: bool)
    ensures
        r == is_letter(c),
{
    ('a' <= c && c <= 'z') || ('A' <= c && c <= 'Z')
}

pub fn digit(c: char) -> (r: bool)
    ensures
        r == is_digit(c),
{
    '0' <= c && c <= '9'
}

pub fn word_char(c: char) -> (r: bool)
    ensures
        r == is_word_char(c),
{
    letter(c) || digit(c) || c == '_'
}

pub fn radix_digit(c: char, radix: u32) -> (r: bool)
    ensures
        r == is_radix_digit(c, radix),
{
    if radix == 2 {
        c == '0' || c == '1'
    } else if radix == 8 {
        '0' <= c && c <= '7'
    } else if radix == 10 {
        digit(c)
    } else {
        digit(c) || ('a' <= c && c <= 'f') || ('A' <= c && c <= 'F')
    }
}

/// The characters of a string slice.
pub fn chars_of(text: &str) -> (r: Vec<char>)
    ensures
        r@ == text@,
{
    let mut out: Vec<char> = Vec::new();
    let mut rest = text.chars();
    assert(out@ + rest.remaining() =~= text@);
    loop
        invariant
            rest.obeys_prophetic_iter_laws(),
            rest.decrease() is Some,
            out@ + rest.remaining() == text@,
        ensures
            out@ == text@,
        decreases rest.decrease()->0,
    {
        let ghost before = rest.remaining();
        match rest.next() {
            Some(c) => {
                out.push(c);
                assert(out@ + rest.remaining() =~= text@) by {
                    assert(before =~= seq![c] + before.drop_first());
                }
            },
            None => {
                assert(out@ + before =~= out@);
                break;
            },
        }
    }
    out
}

/// The characters from `start` to `end` as a string.
pub fn slice_text(source: &Vec<char>, start: usize, end: usize) -> (r: String)
    requires
        start <= end <= source@.len(),
    ensures
        r@ == source@.subrange(start as int, end as int),
{
    let mut out = String::new();
    let mut i: usize = start;
    assert(out@ =~= source@.subrange(start as int, i as int));
    while i < end
        invariant
            start <= i <= end <= source@.len(),
            out@ == source@.subrange(start as int, i as int),
        decreases end - i,
    {
        push_char(&mut out, source[i]);
        assert(out@ =~= source@.subrange(start as int, i as int + 1));
        i += 1;
    }
    out
}

/// The first position from `pos` on that holds no white space.
pub fn skip(source: &Vec<char>, pos: usize) -> (r: usize)
    requires
        pos <= source@.len(),
    ensures
        r == skip_spaces(source@, pos as int),
        pos <= r <= source@.len() <= usize::MAX,
{
    let mut i: usize = pos;
    while i < source.len() && space(source[i])
        invariant
            pos <= i <= source@.len(),
            skip_spaces(source@, pos as int) == skip_spaces(source@, i as int),
        decreases source@.len() - i,
    {
        i += 1;
    }
    i
}

/// The end of the longest run of word characters that begins at `pos`.
pub fn scan_word(source: &Vec<char>, pos: usize) -> (r: usize)
    requires
        pos <= source@.len(),
    ensures
        r == word_end(source@, pos as int),
        pos <= r <= source@.len(),
{
    let mut i: usize = pos;
    while i < source.len() && word_char(source[i])
        invariant
            pos <= i <= source@.len(),
            word_end(source@, pos as int) == word_end(source@, i as int),
        decreases source@.len() - i,
    {
        i += 1;
    }
    i
}

/// The end of the longest run of digits and underscores that begins at
/// `pos`.
pub fn scan_digits(source: &Vec<char>, pos: usize, radix: u32) -> (r: usize)
    requires
        pos <= source@.len(),
    ensures
        r == digits_end(source@, pos as int, radix),
        pos <= r <= source@.len(),
{
    let mut i: usize = pos;
    while i < source.len() && (radix_digit(source[i], radix) || source[i] == '_')
        invariant
            pos <= i <= source@.len(),
            digits_end(source@, pos as int, radix) == digits_end(source@, i as int, radix),
        decreases source@.len() - i,
    {
        i += 1;
    }
    i
}

/// Whether the text holds `literal` at `pos`.
pub fn at_literal(source: &Vec<char>, pos: usize, literal: &str) -> (r: bool)
    requires
        pos <= source@.len(),
    ensures
        r == has_literal(source@, pos as int, literal@),
        r ==> pos + literal@.len() <= source@.len() <= usize::MAX,
{
    let len: usize = literal.unicode_len();
    if len > source.len() - pos {
        return false;
    }
    let mut i: usize = 0;
    while i < len
        invariant
            0 <= i <= len,
            len == literal@.len(),
            pos + len <= source@.len() <= usize::MAX,
            source@.subrange(pos as int, pos + i) == literal@.subrange(0, i as int),
        decreases len - i,
    {
        if source[pos + i] != literal.get_char(i) {
            proof {
                if source@.subrange(pos as int, pos + len) == literal@ {
                    assert(source@.subrange(pos as int, pos + len)[i as int] == literal@[i as int]);
                }
            }
            return false;
        }
        assert(source@.subrange(pos as int, pos + i + 1) =~= source@.subrange(
            pos as int,
            pos + i,
        ).push(source@[pos + i]));
        assert(literal@.subrange(0, i as int + 1) =~= literal@.subrange(0, i as int).push(
            literal@[i as int],
        ));
        i += 1;
    }
    assert(literal@.subrange(0, len as int) =~= literal@);
    true
}

/// Whether the text holds the character `c` at `pos`.
pub fn at_char(source: &Vec<char>, pos: usize, c: char) -> (r: bool)
    ensures
        r == has_char(source@, pos as int, c),
        r ==> pos < source@.len() <= usize::MAX,
{
    pos < source.len() && source[pos] == c
}

/// Whether the word that begins at `pos` is `word`.
pub fn at_word(source: &Vec<char>, pos: usize, word: &str) -> (r: bool)
    requires
        pos <= source@.len(),
    ensures
        r == has_word(source@, pos as int, word@),
{
    if at_literal(source, pos, word) {
        let end: usize = scan_word(source, pos);
        end - pos == word.unicode_len()
    } else {
        false
    }
}

/// Whether the word from `start` to `end` is reserved.
pub fn reserved(source: &Vec<char>, start: usize, end: usize) -> (r: bool)
    requires
        start <= end <= source@.len(),
    ensures
        r == is_reserved(source@.subrange(start as int, end as int)),
{
    let len: usize = end - start;
    let ghost word = source@.subrange(start as int, end as int);
    let is = |candidate: &str| -> (r: bool)
        requires
            start <= end <= source@.len(),
        ensures
            r == (source@.subrange(start as int, end as int) == candidate@),
        {
            candidate.unicode_len() == end - start && at_literal(source, start, candidate)
        };
    is("if") || is("else") || is("print") || is("while") || is("for") || is("return") || is("var")
        || is("const") || is("continue") || is("break") || is("in") || is("and") || is("or") || is(
        "not",
    ) || is("xor") || is("fn") || is("true") || is("false")
}

/// A node without children for the text from `start` to `end`.
pub fn make_leaf(rule: Rule, source: &Vec<char>, start: usize, end: usize) -> (r: Node)
    requires
        start <= end <= source@.len(),
    ensures
        r@ == leaf(rule, source@, start as int, end as int),
{
    let r = Node { rule, text: slice_text(source, start, end), start, end, children: Vec::new() };
    proof {
        lemma_node_view(&r);
        assert(r@.children =~= Seq::<Tree>::empty());
    }
    r
}

/// A node with children for the text from `start` to `end`.
pub fn make_branch(rule: Rule, source: &Vec<char>, start: usize, end: usize, children: Vec<Node>) -> (r:
    Node)
    requires
        start <= end <= source@.len(),
    ensures
        r@ == branch(rule, source@, start as int, end as int, trees(children@)),
{
    let r = Node { rule, text: slice_text(source, start, end), start, end, children };
    proof {
        lemma_node_view(&r);
    }
    r
}

} // verus!
