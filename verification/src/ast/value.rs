//! Literal constants.

use vstd::prelude::*;
use vstd::std_specs::convert::FromSpecImpl;

use crate::compiler::Compiler;
use crate::compiler::error::{fault_of, CompilerResult};
use crate::compiler::instruction::Instruction;
use crate::compiler::lowering::lower_value;
use crate::compiler::model::Lowering;
use crate::parser::{
    lemma_node_view, malformed, Node, ParserError, ParserErrorKind, ParseResult, Rule,
};
use crate::parser::builder::{integer_of, unsigned_of, value_of};
use crate::parser::lexical::chars_of;
use crate::parser::numeral::{
    compact, compacted, decimal_numeral, is_decimal_numeral, lemma_value_positive, numeral_value,
    read_numeral,
};
use crate::text::{push_signed_decimal, same_text, signed_decimal};

verus! {

/// A literal constant of the language.
///
/// A floating-point literal is kept as its numeral: the characters of the
/// literal without blanks and underscores, ready to be read as a decimal
/// fraction by whoever evaluates it.
#[derive(Debug, PartialEq, Eq)]
pub enum Value {
    Integer(i64),
    Float(String),
    True,
    False,
}

/// The mathematical content of a [`Value`].
pub enum ValueView {
    Integer(int),
    Float(Seq<char>),
    True,
    False,
}

impl View for Value {
    type V = ValueView;

    open spec fn view(&self) -> ValueView {
        match *self {
            Value::Integer(i) => ValueView::Integer(i as int),
            Value::Float(numeral) => ValueView::Float(numeral@),
            Value::True => ValueView::True,
            Value::False => ValueView::False,
        }
    }
}

/// Whether one of the characters from `from` on is a digit other than
/// zero.
pub open spec fn has_nonzero_digit(numeral: Seq<char>, from: int) -> bool
    decreases numeral.len() - from,
{
    if 0 <= from < numeral.len() {
        ('1' <= numeral[from] && numeral[from] <= '9') || has_nonzero_digit(numeral, from + 1)
    } else {
        false
    }
}

impl ValueView {
    /// Whether the constant counts as true: `true` does, and so does
    /// every number but zero.
    pub open spec fn truth(self) -> bool {
        match self {
            ValueView::Integer(i) => i != 0,
            ValueView::Float(numeral) => has_nonzero_digit(numeral, 0),
            ValueView::True => true,
            ValueView::False => false,
        }
    }

    /// The constant as an integer, where `true` is one and `false` is
    /// zero; a float is none.
    pub open spec fn number(self) -> Option<int> {
        match self {
            ValueView::Integer(i) => Some(i),
            ValueView::Float(_) => None,
            ValueView::True => Some(1),
            ValueView::False => Some(0),
        }
    }

    /// How the constant is written in a listing.
    pub open spec fn rendering(self) -> Seq<char> {
        match self {
            ValueView::Integer(i) => signed_decimal(i),
            ValueView::Float(numeral) => numeral,
            ValueView::True => "true"@,
            ValueView::False => "false"@,
        }
    }
}

impl Value {
    /// The integer constant `integer`.
    pub fn from_integer(integer: i64) -> (r: Self)
        ensures
            r@ == ValueView::Integer(integer as int),
    {
        Value::Integer(integer)
    }

    /// The boolean constant `b`.
    pub fn from_bool(b: bool) -> (r: Self)
        ensures
            r@ == (if b {
                ValueView::True
            } else {
                ValueView::False
            }),
    {
        if b {
            Value::True
        } else {
            Value::False
        }
    }

    /// Whether the constant counts as true; see [`ValueView::truth`].
    pub fn as_bool(&self) -> (r: bool)
        ensures
            r == self@.truth(),
    {
        match self {
            Value::Integer(i) => *i != 0,
            Value::Float(numeral) => {
                let text = numeral.as_str();
                let len: usize = text.unicode_len();
                let mut k: usize = 0;
                while k < len
                    invariant
                        0 <= k <= len,
                        len == text@.len(),
                        self@.truth() == has_nonzero_digit(text@, 0),
                        has_nonzero_digit(text@, 0) == has_nonzero_digit(text@, k as int),
                    decreases len - k,
                {
                    let c = text.get_char(k);
                    if '1' <= c && c <= '9' {
                        return true;
                    }
                    k += 1;
                }
                false
            },
            Value::True => true,
            Value::False => false,
        }
    }

    /// The constant as an integer; see [`ValueView::number`].
    pub fn as_integer(&self) -> (r: Option<i64>)
        ensures
            match r {
                Some(i) => self@.number() == Some(i as int),
                None => self@.number() is None,
            },
    {
        match self {
            Value::Integer(i) => Some(*i),
            Value::Float(_) => None,
            Value::True => Some(1),
            Value::False => Some(0),
        }
    }

    /// Whether both constants count as true.
    pub fn and(self, rhs: Self) -> (r: Self)
        ensures
            r@ == (if self@.truth() && rhs@.truth() {
                ValueView::True
            } else {
                ValueView::False
            }),
    {
        let left = self.as_bool();
        let right = rhs.as_bool();
        Value::from_bool(left && right)
    }

    /// Whether one of the constants counts as true.
    pub fn or(self, rhs: Self) -> (r: Self)
        ensures
            r@ == (if self@.truth() || rhs@.truth() {
                ValueView::True
            } else {
                ValueView::False
            }),
    {
        let left = self.as_bool();
        let right = rhs.as_bool();
        Value::from_bool(left || right)
    }

    /// Whether exactly one of the constants counts as true.
    pub fn xor(self, rhs: Self) -> (r: Self)
        ensures
            r@ == (if self@.truth() != rhs@.truth() {
                ValueView::True
            } else {
                ValueView::False
            }),
    {
        let left = self.as_bool();
        let right = rhs.as_bool();
        Value::from_bool(left != right)
    }

    /// A copy of this constant.
    pub fn duplicate(&self) -> (r: Self)
        ensures
            r@ == self@,
    {
        match self {
            Value::Integer(i) => Value::Integer(*i),
            Value::Float(numeral) => Value::Float(numeral.clone()),
            Value::True => Value::True,
            Value::False => Value::False,
        }
    }

    /// The constant as it is written in a listing.
    pub fn to_string(&self) -> (r: String)
        ensures
            r@ == self@.rendering(),
    {
        match self {
            Value::Integer(i) => {
                let mut out = String::new();
                push_signed_decimal(&mut out, *i);
                assert(out@ =~= signed_decimal(*i as int));
                out
            },
            Value::Float(numeral) => numeral.clone(),
            Value::True => String::from_str("true"),
            Value::False => String::from_str("false"),
        }
    }
}


impl Value {
    /// Adds the constant to the pool and emits the instruction that loads it.
    pub fn compile(&self, compiler: &mut Compiler) -> (r: CompilerResult<()>)
        requires
            old(compiler).wf(),
        ensures
            final(compiler).wf(),
            (Lowering { state: final(compiler)@, fault: fault_of(r) }) == lower_value(
                old(compiler)@,
                self@,
            ),
    {
        let index = compiler.register_value(self.duplicate())?;
        compiler.emit(Instruction::LoadValue(index));
        Ok(())
    }
}


impl Value {
    /// The constant that a `value` node stands for.
    pub fn parse(node: &Node) -> (r: ParseResult<Self>)
        ensures
            match r {
                Ok(value) => value_of(node@) == Ok::<ValueView, ParserError>(value@),
                Err(error) => value_of(node@) == Err::<ValueView, ParserError>(error),
            },
    {
        proof {
            lemma_node_view(node);
        }
        if node.rule != Rule::value || node.children.len() != 1 {
            return Err(ParserError::for_pair(node, ParserErrorKind::WIP));
        }
        let inner = &node.children[0];
        proof {
            lemma_node_view(inner);
        }
        match inner.rule {
            Rule::integer => Value::parse_integer(inner),
            Rule::float => Value::parse_float(inner),
            Rule::boolean => {
                if same_text(inner.text.as_str(), "true") {
                    Ok(Value::True)
                } else if same_text(inner.text.as_str(), "false") {
                    Ok(Value::False)
                } else {
                    Err(ParserError::for_pair(inner, ParserErrorKind::WIP))
                }
            },
            _ => Err(ParserError::for_pair(inner, ParserErrorKind::WIP)),
        }
    }

    /// The constant that a `float` node stands for: its text without
    /// blanks and underscores, which has to be a decimal numeral.
    fn parse_float(node: &Node) -> (r: ParseResult<Self>)
        requires
            node@.rule == Rule::float,
        ensures
            match r {
                Ok(value) => is_decimal_numeral(
                    compact(node@.text),
                ) && value@ == ValueView::Float(compact(node@.text)),
                Err(error) => !is_decimal_numeral(
                    compact(node@.text),
                ) && error == malformed(node@, ParserErrorKind::ParseFloatError),
            },
    {
        proof {
            lemma_node_view(node);
        }
        let numeral = compacted(node.text.as_str());
        if decimal_numeral(numeral.as_str()) {
            Ok(Value::Float(numeral))
        } else {
            Err(ParserError::for_pair(node, ParserErrorKind::ParseFloatError))
        }
    }

    /// The constant that an `integer` node stands for.
    fn parse_integer(node: &Node) -> (r: ParseResult<Self>)
        ensures
            match r {
                Ok(value) => integer_of(node@) matches Ok(i) && value@ == ValueView::Integer(i),
                Err(error) => integer_of(node@) == Err::<int, ParserError>(error),
            },
    {
        proof {
            lemma_node_view(node);
        }
        if node.children.len() == 1 {
            match Value::parse_unsigned_integer(&node.children[0]) {
                Ok(unsigned) => Ok(Value::Integer(unsigned)),
                Err(kind) => Err(ParserError::for_pair(node, kind)),
            }
        } else if node.children.len() == 2 {
            match Value::parse_unsigned_integer(&node.children[1]) {
                Ok(unsigned) => {
                    if node.children[0].rule == Rule::plus {
                        Ok(Value::Integer(unsigned))
                    } else if node.children[0].rule == Rule::minus {
                        Ok(Value::Integer(-unsigned))
                    } else {
                        Err(ParserError::for_pair(node, ParserErrorKind::WIP))
                    }
                },
                Err(kind) => Err(ParserError::for_pair(node, kind)),
            }
        } else {
            Err(ParserError::for_pair(node, ParserErrorKind::WIP))
        }
    }

    /// The number that a node of digits stands for.
    fn parse_unsigned_integer(node: &Node) -> (r: Result<i64, ParserErrorKind>)
        ensures
            match r {
                Ok(value) => unsigned_of(node@) == Ok::<int, ParserErrorKind>(value as int)
                    && value >= 0,
                Err(kind) => unsigned_of(node@) == Err::<int, ParserErrorKind>(kind),
            },
    {
        proof {
            lemma_node_view(node);
        }
        match node.rule {
            Rule::binary => Value::parse_integer_with_radix(node.text.as_str(), 2),
            Rule::octal => Value::parse_integer_with_radix(node.text.as_str(), 8),
            Rule::decimal => Value::parse_integer_with_radix(node.text.as_str(), 10),
            Rule::hexadecimal => Value::parse_integer_with_radix(node.text.as_str(), 16),
            _ => Err(ParserErrorKind::WIP),
        }
    }

    /// The number that the digits of `input` stand for in the radix, which
    /// is 2, 8, 10 or 16. But in radix 10, the first two characters are a
    /// prefix and are left out. Blanks and underscores do not count.
    fn parse_integer_with_radix(input: &str, radix: u32) -> (r: Result<i64, ParserErrorKind>)
        requires
            radix == 2 || radix == 8 || radix == 10 || radix == 16,
        ensures
            match r {
                Ok(value) => value >= 0 && numeral_value(
                    compact(
                        if radix == 10 {
                            input@
                        } else {
                            input@.skip(2)
                        },
                    ),
                    radix as int,
                ) == Some(value as int) && (radix == 10 || input@.len() >= 2),
                Err(kind) => if radix != 10 && input@.len() < 2 {
                    kind == ParserErrorKind::WIP
                } else {
                    kind == ParserErrorKind::ParseIntError && numeral_value(
                        compact(
                            if radix == 10 {
                                input@
                            } else {
                                input@.skip(2)
                            },
                        ),
                        radix as int,
                    ) is None
                },
            },
    {
        let text = chars_of(input);
        let from: usize = if radix == 10 {
            0
        } else {
            2
        };
        if from > text.len() {
            return Err(ParserErrorKind::WIP);
        }
        proof {
            assert(text@.skip(0) =~= input@);
            lemma_value_positive(
                compact(text@.skip(from as int)),
                radix as int,
            );
        }
        match read_numeral(&text, from, radix) {
            Some(value) => Ok(value),
            None => Err(ParserErrorKind::ParseIntError),
        }
    }
}


impl From<i64> for Value {
    fn from(v: i64) -> (r: Self) {
        Value::Integer(v)
    }
}

impl FromSpecImpl<i64> for Value {
    open spec fn obeys_from_spec() -> bool {
        true
    }

    open spec fn from_spec(v: i64) -> Self {
        Value::Integer(v)
    }
}

} // verus!
