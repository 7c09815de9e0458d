//! Values with their place in the source.

use vstd::prelude::*;

verus! {

/// A value together with the positions at which the text it was read
/// from begins and ends.
#[derive(Debug, Clone, PartialEq, Eq)]
pub struct Spanned<T> {
    pub ast: T,
    pub start: usize,
    pub end: usize,
}

impl<T> Spanned<T> {
    /// The value `ast`, read from the text between `start` and `end`.
    pub fn new(ast: T, start: usize, end: usize) -> (r: Self)
        ensures
            r.ast == ast,
            r.start == start,
            r.end == end,
    {
        Spanned { ast, start, end }
    }
}

} // verus!
