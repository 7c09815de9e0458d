//! Character-level helpers shared by the parser and the disassembler.

use vstd::prelude::*;

verus! {

/// Appends one character to a string.
///
/// The body is `String::push` of the standard library, which adds the
/// character at the end of the string and changes nothing else.
#[verifier::external_body]
pub(crate) fn push_char(text: &mut String, c: char)
    ensures
        final(text)@ == old(text)@.push(c),
{
    text.push(c)
}

/// Whether two string slices hold the same characters.
///
/// The body is the `==` of `str` in the standard library, which compares
/// the two slices character by character.
#[verifier::external_body]
pub(crate) fn same_text(a: &str, b: &str) -> (r: bool)
    ensures
        r == (a@ == b@),
{
    a == b
}

/// The decimal digit that stands for a value below ten.
pub open spec fn digit_char(d: int) -> char {
    if d == 0 {
        '0'
    } else if d == 1 {
        '1'
    } else if d == 2 {
        '2'
    } else if d == 3 {
        '3'
    } else if d == 4 {
        '4'
    } else if d == 5 {
        '5'
    } else if d == 6 {
        '6'
    } else if d == 7 {
        '7'
    } else if d == 8 {
        '8'
    } else {
        '9'
    }
}

/// The decimal numeral of a natural number, without leading zeros.
pub open spec fn decimal(n: nat) -> Seq<char>
    decreases n,
{
    if n < 10 {
        seq![digit_char(n as int)]
    } else {
        decimal(n / 10).push(digit_char((n % 10) as int))
    }
}

/// The decimal numeral of an integer, with a leading `-` below zero.
pub open spec fn signed_decimal(n: int) -> Seq<char> {
    if n < 0 {
        seq!['-'] + decimal((-n) as nat)
    } else {
        decimal(n as nat)
    }
}

/// A sequence of `count` blanks.
pub open spec fn blanks(count: nat) -> Seq<char> {
    Seq::new(count, |i: int| ' ')
}

/// A text padded with blanks on the left up to `width` characters.
pub open spec fn right_aligned(text: Seq<char>, width: nat) -> Seq<char> {
    if text.len() >= width {
        text
    } else {
        blanks((width - text.len()) as nat) + text
    }
}

fn digit_of(d: u8) -> (c: char)
    requires
        d < 10,
    ensures
        c == digit_char(d as int),
{
    if d == 0 {
        '0'
    } else if d == 1 {
        '1'
    } else if d == 2 {
        '2'
    } else if d == 3 {
        '3'
    } else if d == 4 {
        '4'
    } else if d == 5 {
        '5'
    } else if d == 6 {
        '6'
    } else if d == 7 {
        '7'
    } else if d == 8 {
        '8'
    } else {
        '9'
    }
}

/// Appends the digits held in `digits`, last element first.
fn push_reversed(text: &mut String, digits: &Vec<char>)
    ensures
        final(text)@ == old(text)@ + digits@.reverse(),
{
    let mut i: usize = digits.len();
    while i > 0
        invariant
            i <= digits.len(),
            text@ == old(text)@ + digits@.reverse().subrange(0, digits.len() - i),
        decreases i,
    {
        i -= 1;
        push_char(text, digits[i]);
        assert(digits@.reverse().subrange(0, digits.len() - i) =~= digits@.reverse().subrange(
            0,
            digits.len() - i - 1,
        ).push(digits@[i as int]));
    }
    assert(digits@.reverse().subrange(0, digits.len() as int) =~= digits@.reverse());
}

/// Appends the decimal numeral of `n` to `text`.
pub fn push_decimal(text: &mut String, n: u64)
    ensures
        final(text)@ == old(text)@ + decimal(n as nat),
{
    let mut digits: Vec<char> = Vec::new();
    let mut rest: u64 = n;
    while rest >= 10
        invariant
            decimal(n as nat) == decimal(rest as nat) + digits@.reverse(),
        decreases rest,
    {
        let d: u8 = (rest % 10) as u8;
        let ghost before = digits@;
        digits.push(digit_of(d));
        assert(digits@.reverse() =~= seq![digit_char((rest % 10) as int)] + before.reverse());
        assert(decimal(rest as nat) == decimal((rest / 10) as nat).push(
            digit_char((rest % 10) as int),
        ));
        assert(decimal((rest / 10) as nat).push(digit_char((rest % 10) as int))
            + before.reverse() =~= decimal((rest / 10) as nat) + digits@.reverse());
        rest = rest / 10;
    }
    let ghost before = digits@;
    digits.push(digit_of(rest as u8));
    assert(digits@.reverse() =~= seq![digit_char(rest as int)] + before.reverse());
    assert(decimal(rest as nat) + before.reverse() =~= digits@.reverse());
    push_reversed(text, &digits);
}

/// Appends the decimal numeral of a signed integer to `text`.
pub fn push_signed_decimal(text: &mut String, n: i64)
    ensures
        final(text)@ == old(text)@ + signed_decimal(n as int),
{
    if n < 0 {
        push_char(text, '-');
        let magnitude: u64 = if n == i64::MIN {
            9223372036854775808u64
        } else {
            (-n) as u64
        };
        let ghost mid = text@;
        push_decimal(text, magnitude);
        assert(text@ =~= old(text)@ + (seq!['-'] + decimal((-n) as nat)));
    } else {
        push_decimal(text, n as u64);
    }
}

/// Appends `literal` to `text`.
pub fn push_str(text: &mut String, literal: &str)
    ensures
        final(text)@ == old(text)@ + literal@,
{
    text.append(literal);
}

/// Appends `n` in decimal, padded with blanks on the left to `width`.
pub fn push_right_aligned(text: &mut String, n: u64, width: usize)
    ensures
        final(text)@ == old(text)@ + right_aligned(decimal(n as nat), width as nat),
{
    let mut numeral = String::new();
    push_decimal(&mut numeral, n);
    assert(numeral@ =~= decimal(n as nat));
    let len: usize = numeral.as_str().unicode_len();
    let mut i: usize = len;
    while i < width
        invariant
            len == numeral@.len(),
            len <= i,
            i <= width || i == len,
            text@ == old(text)@ + blanks((i - len) as nat),
        decreases width - i,
    {
        push_char(text, ' ');
        assert(blanks((i + 1 - len) as nat) =~= blanks((i - len) as nat).push(' '));
        i += 1;
    }
    let ghost mid = text@;
    text.append(numeral.as_str());
    proof {
        if len >= width {
            assert(i == len);
            assert(blanks(0) =~= Seq::<char>::empty());
            assert(text@ =~= old(text)@ + numeral@);
        } else {
            assert(i == width);
            assert(text@ =~= old(text)@ + (blanks((width - len) as nat) + numeral@));
        }
    }
}

} // verus!
