//! The reserved words.

use vstd::prelude::*;

use crate::parser::input::{Input, ParserResult};
use crate::text::same_text;

verus! {

/// A reserved word.
#[derive(Debug, Clone, Copy, PartialEq, Eq, Hash, Structural)]
pub enum Keyword {
    If,
    Else,
    Print,
    While,
    For,
    Return,
    Var,
    Const,
    Continue,
    Break,
    In,
    And,
    Or,
    Not,
    Xor,
    Fn,
}

/// What a function that reads a fixed word has to return: behind the
/// word, `value`; where the input does not begin with the word, the
/// failure to read the input.
pub open spec fn reads_word<'a, T>(
    input: Input<'a>,
    result: ParserResult<'a, T>,
    word: Seq<char>,
    value: T,
) -> bool {
    match result {
        Ok((rest, got)) => word.is_prefix_of(input.input@) && got == value && input.leaves(
            word.len() as int,
            rest,
        ) && rest.wf(),
        Err(error) => !word.is_prefix_of(input.input@) && error == input.failure(),
    }
}

/// Reads `word` from the beginning of the input and gives `value` for it.
pub fn tag<'a, T>(input: Input<'a>, word: &str, value: T) -> (r: ParserResult<'a, T>)
    requires
        input.wf(),
    ensures
        reads_word(input, r, word@, value),
{
    if input.compare(word) {
        Ok((input.slice(word.unicode_len()), value))
    } else {
        Err(input.fail())
    }
}

impl Keyword {
    /// The word as it is written.
    pub open spec fn word(self) -> Seq<char> {
        match self {
            Keyword::If => "if"@,
            Keyword::Else => "else"@,
            Keyword::Print => "print"@,
            Keyword::While => "while"@,
            Keyword::For => "for"@,
            Keyword::Return => "return"@,
            Keyword::Var => "var"@,
            Keyword::Const => "const"@,
            Keyword::Continue => "continue"@,
            Keyword::Break => "break"@,
            Keyword::In => "in"@,
            Keyword::And => "and"@,
            Keyword::Or => "or"@,
            Keyword::Not => "not"@,
            Keyword::Xor => "xor"@,
            Keyword::Fn => "fn"@,
        }
    }

    /// The word as it is written.
    pub fn as_str(&self) -> (r: &'static str)
        ensures
            r@ == self.word(),
    {
        match self {
            Keyword::If => "if",
            Keyword::Else => "else",
            Keyword::Print => "print",
            Keyword::While => "while",
            Keyword::For => "for",
            Keyword::Return => "return",
            Keyword::Var => "var",
            Keyword::Const => "const",
            Keyword::Continue => "continue",
            Keyword::Break => "break",
            Keyword::In => "in",
            Keyword::And => "and",
            Keyword::Or => "or",
            Keyword::Not => "not",
            Keyword::Xor => "xor",
            Keyword::Fn => "fn",
        }
    }

    /// The keyword with the given place in the order in which keywords
    /// are tried.
    pub open spec fn nth(index: int) -> Keyword {
        if index == 0 {
            Keyword::If
        } else if index == 1 {
            Keyword::Else
        } else if index == 2 {
            Keyword::Print
        } else if index == 3 {
            Keyword::While
        } else if index == 4 {
            Keyword::For
        } else if index == 5 {
            Keyword::Return
        } else if index == 6 {
            Keyword::Var
        } else if index == 7 {
            Keyword::Const
        } else if index == 8 {
            Keyword::Continue
        } else if index == 9 {
            Keyword::Break
        } else if index == 10 {
            Keyword::In
        } else if index == 11 {
            Keyword::And
        } else if index == 12 {
            Keyword::Or
        } else if index == 13 {
            Keyword::Not
        } else if index == 14 {
            Keyword::Xor
        } else {
            Keyword::Fn
        }
    }

    /// The keyword with the given place in the order in which keywords
    /// are tried.
    pub fn at(index: usize) -> (r: Keyword)
        ensures
            r == Keyword::nth(index as int),
    {
        if index == 0 {
            Keyword::If
        } else if index == 1 {
            Keyword::Else
        } else if index == 2 {
            Keyword::Print
        } else if index == 3 {
            Keyword::While
        } else if index == 4 {
            Keyword::For
        } else if index == 5 {
            Keyword::Return
        } else if index == 6 {
            Keyword::Var
        } else if index == 7 {
            Keyword::Const
        } else if index == 8 {
            Keyword::Continue
        } else if index == 9 {
            Keyword::Break
        } else if index == 10 {
            Keyword::In
        } else if index == 11 {
            Keyword::And
        } else if index == 12 {
            Keyword::Or
        } else if index == 13 {
            Keyword::Not
        } else if index == 14 {
            Keyword::Xor
        } else {
            Keyword::Fn
        }
    }

    /// The keyword that is written as `word`.
    pub fn from_word(word: &str) -> (r: Option<Keyword>)
        ensures
            match r {
                Some(keyword) => keyword.word() == word@,
                None => forall|index: int| 0 <= index < 16 ==> (#[trigger] Keyword::nth(
                    index,
                )).word() != word@,
            },
    {
        let mut index: usize = 0;
        while index < 16
            invariant
                0 <= index <= 16,
                forall|before: int|
                    0 <= before < index ==> (#[trigger] Keyword::nth(before)).word() != word@,
            decreases 16 - index,
        {
            let keyword = Keyword::at(index);
            if same_text(keyword.as_str(), word) {
                return Some(keyword);
            }
            index += 1;
        }
        None
    }
}

/// The first keyword from the one with the place `from` on, in the order
/// in which keywords are tried, that the text begins with.
pub open spec fn keyword_prefix(text: Seq<char>, from: int) -> Option<Keyword>
    decreases 16 - from,
{
    if 0 <= from < 16 {
        if Keyword::nth(from).word().is_prefix_of(text) {
            Some(Keyword::nth(from))
        } else {
            keyword_prefix(text, from + 1)
        }
    } else {
        None
    }
}

pub fn parse_if(input: Input<'_>) -> (r: ParserResult<'_, Keyword>)
    requires
        input.wf(),
    ensures
        reads_word(input, r, "if"@, Keyword::If),
{
    tag(input, "if", Keyword::If)
}

pub fn parse_else(input: Input<'_>) -> (r: ParserResult<'_, Keyword>)
    requires
        input.wf(),
    ensures
        reads_word(input, r, "else"@, Keyword::Else),
{
    tag(input, "else", Keyword::Else)
}

pub fn parse_print(input: Input<'_>) -> (r: ParserResult<'_, Keyword>)
    requires
        input.wf(),
    ensures
        reads_word(input, r, "print"@, Keyword::Print),
{
    tag(input, "print", Keyword::Print)
}

pub fn parse_while(input: Input<'_>) -> (r: ParserResult<'_, Keyword>)
    requires
        input.wf(),
    ensures
        reads_word(input, r, "while"@, Keyword::While),
{
    tag(input, "while", Keyword::While)
}

pub fn parse_for(input: Input<'_>) -> (r: ParserResult<'_, Keyword>)
    requires
        input.wf(),
    ensures
        reads_word(input, r, "for"@, Keyword::For),
{
    tag(input, "for", Keyword::For)
}

pub fn parse_return(input: Input<'_>) -> (r: ParserResult<'_, Keyword>)
    requires
        input.wf(),
    ensures
        reads_word(input, r, "return"@, Keyword::Return),
{
    tag(input, "return", Keyword::Return)
}

pub fn parse_var(input: Input<'_>) -> (r: ParserResult<'_, Keyword>)
    requires
        input.wf(),
    ensures
        reads_word(input, r, "var"@, Keyword::Var),
{
    tag(input, "var", Keyword::Var)
}

pub fn parse_const(input: Input<'_>) -> (r: ParserResult<'_, Keyword>)
    requires
        input.wf(),
    ensures
        reads_word(input, r, "const"@, Keyword::Const),
{
    tag(input, "const", Keyword::Const)
}

pub fn parse_continue(input: Input<'_>) -> (r: ParserResult<'_, Keyword>)
    requires
        input.wf(),
    ensures
        reads_word(input, r, "continue"@, Keyword::Continue),
{
    tag(input, "continue", Keyword::Continue)
}

pub fn parse_break(input: Input<'_>) -> (r: ParserResult<'_, Keyword>)
    requires
        input.wf(),
    ensures
        reads_word(input, r, "break"@, Keyword::Break),
{
    tag(input, "break", Keyword::Break)
}

pub fn parse_in(input: Input<'_>) -> (r: ParserResult<'_, Keyword>)
    requires
        input.wf(),
    ensures
        reads_word(input, r, "in"@, Keyword::In),
{
    tag(input, "in", Keyword::In)
}

pub fn parse_and(input: Input<'_>) -> (r: ParserResult<'_, Keyword>)
    requires
        input.wf(),
    ensures
        reads_word(input, r, "and"@, Keyword::And),
{
    tag(input, "and", Keyword::And)
}

pub fn parse_or(input: Input<'_>) -> (r: ParserResult<'_, Keyword>)
    requires
        input.wf(),
    ensures
        reads_word(input, r, "or"@, Keyword::Or),
{
    tag(input, "or", Keyword::Or)
}

pub fn parse_not(input: Input<'_>) -> (r: ParserResult<'_, Keyword>)
    requires
        input.wf(),
    ensures
        reads_word(input, r, "not"@, Keyword::Not),
{
    tag(input, "not", Keyword::Not)
}

pub fn parse_xor(input: Input<'_>) -> (r: ParserResult<'_, Keyword>)
    requires
        input.wf(),
    ensures
        reads_word(input, r, "xor"@, Keyword::Xor),
{
    tag(input, "xor", Keyword::Xor)
}

pub fn parse_fn(input: Input<'_>) -> (r: ParserResult<'_, Keyword>)
    requires
        input.wf(),
    ensures
        reads_word(input, r, "fn"@, Keyword::Fn),
{
    tag(input, "fn", Keyword::Fn)
}

/// Reads the first keyword, in the order in which keywords are tried,
/// that the input begins with. A keyword is read wherever its letters
/// stand, also at the beginning of a longer word.
pub fn parse_keyword(input: Input<'_>) -> (r: ParserResult<'_, Keyword>)
    requires
        input.wf(),
    ensures
        match r {
            Ok((rest, keyword)) => keyword_prefix(input.input@, 0) == Some(keyword)
                && input.leaves(keyword.word().len() as int, rest) && rest.wf(),
            Err(error) => keyword_prefix(input.input@, 0) is None && error == input.failure(),
        },
{
    let mut index: usize = 0;
    while index < 16
        invariant
            0 <= index <= 16,
            input.wf(),
            keyword_prefix(input.input@, 0) == keyword_prefix(input.input@, index as int),
        decreases 16 - index,
    {
        let keyword = Keyword::at(index);
        match tag(input, keyword.as_str(), keyword) {
            Ok(found) => {
                return Ok(found);
            },
            Err(_) => {},
        }
        index += 1;
    }
    Err(input.fail())
}

} // verus!
