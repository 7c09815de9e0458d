//! Names read from the beginning of an input.

use vstd::prelude::*;

use crate::parser::ParserError;
use crate::parser::input::{Cursor, Input, SpannedResult};
use crate::parser::keyword::{keyword_prefix, parse_keyword};
use crate::parser::lexical::{is_letter, letter, word_char, word_end};
use crate::parser::literal::Reading;
use crate::parser::spanned::Spanned;
use crate::text::push_char;

verus! {

/// The name at the beginning of the text: letters, digits and
/// underscores, of which the first is no digit. A text that begins with
/// the letters of a keyword holds no name.
pub open spec fn identifier_at(c: Cursor) -> Reading<Seq<char>> {
    if keyword_prefix(c.text, 0) is None && c.text.len() > 0 && (is_letter(c.text[0]) || c.text[0]
        == '_') {
        Ok((c.text.take(word_end(c.text, 0)), c.skip(word_end(c.text, 0))))
    } else {
        Err(c.failure())
    }
}

/// Reads a name.
pub fn parse_identifier(input: Input<'_>) -> (r: SpannedResult<'_, String>)
    requires
        input.wf(),
    ensures
        match r {
            Ok((rest, got)) => identifier_at(input@) == Ok::<(Seq<char>, Cursor), ParserError>(
                (got.ast@, rest@),
            ) && rest.wf() && got.start == input.position && got.end == rest.position,
            Err(error) => identifier_at(input@) == Err::<(Seq<char>, Cursor), ParserError>(error),
        },
{
    let start: usize = input.position;
    if parse_keyword(input).is_ok() {
        return Err(input.fail());
    }
    let len: usize = input.input.unicode_len();
    if len == 0 || !(letter(input.input.get_char(0)) || input.input.get_char(0) == '_') {
        return Err(input.fail());
    }
    let mut identifier = String::new();
    let mut i: usize = 0;
    assert(identifier@ =~= input.input@.take(0));
    while i < len && word_char(input.input.get_char(i))
        invariant
            0 <= i <= len,
            len == input.input@.len(),
            word_end(input.input@, 0) == word_end(input.input@, i as int),
            identifier@ == input.input@.take(i as int),
        decreases len - i,
    {
        push_char(&mut identifier, input.input.get_char(i));
        assert(identifier@ =~= input.input@.take(i + 1));
        i += 1;
    }
    let rest = input.slice(i);
    Ok((rest, Spanned { ast: identifier, start, end: rest.position }))
}

} // verus!
