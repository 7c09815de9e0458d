//! The typed syntax tree.

use vstd::prelude::*;

pub mod arithmetic;
pub mod expression;
pub mod model;
pub mod statement;
pub mod value;

verus! {

/// Whether a declared name may be assigned to after its declaration.
#[derive(Debug, PartialEq, Eq, Clone, Copy, Structural)]
pub enum IdentifierKind {
    Constant,
    Variable,
}

/// A declared name together with its kind.
#[derive(Debug, PartialEq, Eq)]
pub struct Identifier {
    pub ident: String,
    pub kind: IdentifierKind,
}

impl Identifier {
    /// A name declared with `const`.
    pub fn new_const(ident: String) -> (r: Self)
        ensures
            r.ident == ident,
            r.kind == IdentifierKind::Constant,
    {
        Self { ident, kind: IdentifierKind::Constant }
    }

    /// A name declared with `var`.
    pub fn new_var(ident: String) -> (r: Self)
        ensures
            r.ident == ident,
            r.kind == IdentifierKind::Variable,
    {
        Self { ident, kind: IdentifierKind::Variable }
    }

    pub fn is_const(&self) -> (r: bool)
        ensures
            r == (self.kind == IdentifierKind::Constant),
    {
        self.kind == IdentifierKind::Constant
    }

    pub fn is_var(&self) -> (r: bool)
        ensures
            r == (self.kind == IdentifierKind::Variable),
    {
        self.kind == IdentifierKind::Variable
    }

    /// A copy of this identifier.
    pub fn duplicate(&self) -> (r: Self)
        ensures
            r == *self,
    {
        Self { ident: self.ident.clone(), kind: self.kind }
    }
}

} // verus!
