//! Front end and bytecode compiler of the Alloy scripting language.
//!
//! Source text is read into a rule-tagged parse tree, the tree is folded
//! into a typed syntax tree, and the syntax tree is lowered to a flat
//! sequence of stack-machine instructions with a constant pool.
//!
//! - [`parser`] reads text: the grammar with its parse tree, and readers
//!   that take expressions and literals straight from the text.
//! - [`ast`] holds the syntax tree, with what each node is read from and
//!   what it compiles to.
//! - [`compiler`] holds the compiler, the rules of lowering as functions
//!   on the state of a compiler, and what is proved of them.
//! - [`object`] holds tagged values as a machine would keep them.
//! - [`text`] helps with characters and numerals.

pub mod ast;
pub mod compiler;
pub mod object;
pub mod parser;
pub mod text;
