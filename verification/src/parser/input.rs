//! The text that is still to be read.

use vstd::prelude::*;
use vstd::std_specs::convert::FromSpecImpl;
use vstd::string::StringSliceAdditionalSpecFns;

use crate::parser::{ParserError, ParserErrorKind};
use crate::parser::spanned::Spanned;

verus! {

/// What is left of a text, and the position of its first character in
/// the whole text, counted in characters.
#[derive(Debug, Clone, Copy, PartialEq, Eq)]
pub struct Input<'a> {
    pub input: &'a str,
    pub position: usize,
}

/// The mathematical content of an [`Input`].
pub struct Cursor {
    pub text: Seq<char>,
    pub position: int,
}

impl Cursor {
    /// What is left behind the first `count` characters.
    pub open spec fn skip(self, count: int) -> Cursor {
        Cursor { text: self.text.skip(count), position: self.position + count }
    }

    /// The failure to read what is left.
    pub open spec fn failure(self) -> ParserError {
        ParserError {
            kind: ParserErrorKind::WIP,
            start: self.position as usize,
            end: (self.position + self.text.len()) as usize,
        }
    }

    /// The failure to read a number that does not fit.
    pub open spec fn overflow(self) -> ParserError {
        ParserError { kind: ParserErrorKind::ParseIntError, ..self.failure() }
    }

    /// The position behind the last character is a number that fits the
    /// machine.
    pub open spec fn wf(self) -> bool {
        0 <= self.position && self.position + self.text.len() <= usize::MAX
    }
}

impl<'a> View for Input<'a> {
    type V = Cursor;

    open spec fn view(&self) -> Cursor {
        Cursor { text: self.input@, position: self.position as int }
    }
}

/// What a reading function returns: what is left of the text and what
/// was read, or a failure.
pub type ParserResult<'a, T> = Result<(Input<'a>, T), ParserError>;

/// What a reading function returns whose result carries its place.
pub type SpannedResult<'a, T> = ParserResult<'a, Spanned<T>>;

impl<'a> Input<'a> {
    /// The position behind the last character is a number that fits the
    /// machine.
    pub open spec fn wf(&self) -> bool {
        self.position + self.input@.len() <= usize::MAX
    }

    /// Whether `rest` is this input without its first `count` characters.
    pub open spec fn leaves(&self, count: int, rest: Input<'a>) -> bool {
        &&& 0 <= count <= self.input@.len()
        &&& rest.input@ == self.input@.skip(count)
        &&& rest.position == self.position + count
    }

    /// The failure to read this input.
    pub open spec fn failure(&self) -> ParserError {
        ParserError {
            kind: ParserErrorKind::WIP,
            start: self.position,
            end: (self.position + self.input@.len()) as usize,
        }
    }

    /// The whole of `input`, at position 0.
    #[inline]
    pub fn new(input: &'a str) -> (r: Self)
        ensures
            r.input@ == input@,
            r.position == 0,
    {
        Input { input, position: 0 }
    }

    /// The number of bytes that are left.
    #[inline]
    pub fn len(&self) -> (r: usize)
        ensures
            r == self.input.spec_bytes().len() as usize,
    {
        self.input.len()
    }

    /// Whether nothing is left.
    #[inline]
    pub fn is_empty(&self) -> (r: bool)
        ensures
            r == (self.input@.len() == 0),
    {
        self.input.is_empty()
    }

    /// The number of characters that are left.
    pub fn input_len(&self) -> (r: usize)
        ensures
            r == self.input@.len(),
    {
        self.input.unicode_len()
    }

    /// The failure to read this input; see [`Input::failure`].
    pub fn fail(&self) -> (r: ParserError)
        requires
            self.wf(),
        ensures
            r == self.failure(),
    {
        ParserError::for_span(
            self.position,
            self.position + self.input.unicode_len(),
            ParserErrorKind::WIP,
        )
    }

    /// The first `count` characters, at the same position.
    pub fn take(&self, count: usize) -> (r: Self)
        requires
            count <= self.input@.len(),
        ensures
            r.input@ == self.input@.take(count as int),
            r.position == self.position,
    {
        let prefix = self.input.substring_char(0, count);
        assert(self.input@.subrange(0, count as int) =~= self.input@.take(count as int));
        Input { input: prefix, position: self.position }
    }

    /// What is left behind the first `count` characters.
    pub fn slice(&self, count: usize) -> (r: Self)
        requires
            self.wf(),
            count <= self.input@.len(),
        ensures
            self.leaves(count as int, r),
            r.wf(),
    {
        let len: usize = self.input.unicode_len();
        let suffix = self.input.substring_char(count, len);
        assert(self.input@.subrange(count as int, len as int) =~= self.input@.skip(count as int));
        Input { input: suffix, position: self.position + count }
    }

    /// What is left behind the first `count` characters, and those
    /// characters.
    pub fn take_split(&self, count: usize) -> (r: (Self, Self))
        requires
            self.wf(),
            count <= self.input@.len(),
        ensures
            self.leaves(count as int, r.0),
            r.0.wf(),
            r.1.input@ == self.input@.take(count as int),
            r.1.position == self.position,
    {
        (self.slice(count), self.take(count))
    }

    /// Whether the input begins with `tag`.
    pub fn compare(&self, tag: &str) -> (r: bool)
        ensures
            r == tag@.is_prefix_of(self.input@),
    {
        let len: usize = tag.unicode_len();
        if len > self.input.unicode_len() {
            return false;
        }
        let mut i: usize = 0;
        while i < len
            invariant
                0 <= i <= len,
                len == tag@.len(),
                len <= self.input@.len(),
                self.input@.subrange(0, i as int) == tag@.subrange(0, i as int),
            decreases len - i,
        {
            if self.input.get_char(i) != tag.get_char(i) {
                proof {
                    if tag@.is_prefix_of(self.input@) {
                        assert(self.input@.subrange(0, len as int)[i as int] == tag@[i as int]);
                    }
                }
                return false;
            }
            assert(self.input@.subrange(0, i + 1) =~= self.input@.subrange(0, i as int).push(
                self.input@[i as int],
            ));
            assert(tag@.subrange(0, i + 1) =~= tag@.subrange(0, i as int).push(tag@[i as int]));
            i += 1;
        }
        assert(tag@.subrange(0, len as int) =~= tag@);
        true
    }

    /// What is left, as a value with its place.
    pub fn into_spanned(self) -> (r: Spanned<&'a str>)
        requires
            self.wf(),
        ensures
            r.ast@ == self.input@,
            r.start == self.position,
            r.end == self.position + self.input@.len(),
    {
        Spanned {
            ast: self.input,
            start: self.position,
            end: self.position + self.input.unicode_len(),
        }
    }

    /// What is left, as a string slice.
    pub fn as_str(&self) -> (r: &'a str)
        ensures
            r@ == self.input@,
    {
        self.input
    }
}


impl<'a> From<&'a str> for Input<'a> {
    fn from(v: &'a str) -> (r: Self) {
        Input { input: v, position: 0 }
    }
}

impl<'a> FromSpecImpl<&'a str> for Input<'a> {
    open spec fn obeys_from_spec() -> bool {
        true
    }

    open spec fn from_spec(v: &'a str) -> Self {
        Input { input: v, position: 0 }
    }
}

impl<'a> From<Input<'a>> for &'a str {
    fn from(v: Input<'a>) -> (r: Self) {
        v.input
    }
}

impl<'a> FromSpecImpl<Input<'a>> for &'a str {
    open spec fn obeys_from_spec() -> bool {
        true
    }

    open spec fn from_spec(v: Input<'a>) -> Self {
        v.input
    }
}

} // verus!
