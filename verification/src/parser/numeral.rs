//! The numbers that numerals stand for.

use vstd::prelude::*;

use crate::text::push_char;

verus! {

/// The value of a digit, where the letters of the Latin alphabet, small
/// or capital, are the digits from ten on; 36 for a character that is no
/// digit.
pub open spec fn digit_value(c: char) -> int {
    if '0' <= c && c <= '9' {
        c as int - '0' as int
    } else if 'a' <= c && c <= 'z' {
        c as int - 'a' as int + 10
    } else if 'A' <= c && c <= 'Z' {
        c as int - 'A' as int + 10
    } else {
        36
    }
}

/// The number that the digits stand for in the radix, the most
/// significant digit first; nothing where one of them is no digit of the
/// radix. No digits stand for zero.
pub open spec fn digits_value(digits: Seq<char>, radix: int) -> Option<int>
    decreases digits.len(),
{
    if digits.len() == 0 {
        Some(0)
    } else {
        match digits_value(digits.drop_last(), radix) {
            Some(value) => if digit_value(digits.last()) < radix {
                Some(value * radix + digit_value(digits.last()))
            } else {
                None
            },
            None => None,
        }
    }
}

/// The number that a numeral stands for, if it has at least one digit,
/// all its digits are of the radix, and the number fits a signed integer
/// of 64 bits.
pub open spec fn numeral_value(digits: Seq<char>, radix: int) -> Option<int> {
    match digits_value(digits, radix) {
        Some(value) => if digits.len() > 0 && value <= i64::MAX {
            Some(value)
        } else {
            None
        },
        None => None,
    }
}

/// The text without its blanks and underscores.
pub open spec fn compact(text: Seq<char>) -> Seq<char>
    decreases text.len(),
{
    if text.len() == 0 {
        Seq::empty()
    } else if text.last() == ' ' || text.last() == '_' {
        compact(text.drop_last())
    } else {
        compact(text.drop_last()).push(text.last())
    }
}

/// Whether all of the characters from `from` on are decimal digits.
pub open spec fn all_digits(text: Seq<char>, from: int) -> bool
    decreases text.len() - from,
{
    if 0 <= from < text.len() {
        '0' <= text[from] && text[from] <= '9' && all_digits(text, from + 1)
    } else {
        true
    }
}

/// The end of the decimal digits that begin at `from`.
pub open spec fn digit_run(text: Seq<char>, from: int) -> int
    decreases text.len() - from,
{
    if 0 <= from < text.len() && '0' <= text[from] && text[from] <= '9' {
        digit_run(text, from + 1)
    } else {
        from
    }
}

/// Whether the text is a decimal numeral with a fraction: a sign or none,
/// then digits, a point and digits, where the digits before or behind the
/// point may be missing, not both.
pub open spec fn is_decimal_numeral(text: Seq<char>) -> bool {
    let whole = if text.len() > 0 && (text[0] == '+' || text[0] == '-') {
        1int
    } else {
        0int
    };
    let point = digit_run(text, whole);
    let end = digit_run(text, point + 1);
    &&& point < text.len()
    &&& text[point] == '.'
    &&& end == text.len()
    &&& (whole < point || point + 1 < end)
}

/// The more digits, the larger the number.
pub proof fn lemma_value_grows(digits: Seq<char>, shorter: int, radix: int)
    requires
        0 <= shorter <= digits.len(),
        radix >= 1,
    ensures
        digits_value(digits, radix) matches Some(value) ==> (digits_value(
            digits.subrange(0, shorter),
            radix,
        ) matches Some(prefix) && 0 <= prefix <= value),
    decreases digits.len(),
{
    if shorter == digits.len() {
        assert(digits.subrange(0, shorter) =~= digits);
        lemma_value_positive(digits, radix);
    } else {
        assert(digits.drop_last().subrange(0, shorter) =~= digits.subrange(0, shorter));
        lemma_value_grows(digits.drop_last(), shorter, radix);
        match digits_value(digits.drop_last(), radix) {
            Some(value) => {
                lemma_value_positive(digits.drop_last(), radix);
                assert(value * radix >= value) by (nonlinear_arith)
                    requires
                        value >= 0,
                        radix >= 1,
                ;
            },
            None => {},
        }
    }
}

/// No numeral stands for a negative number.
pub proof fn lemma_value_positive(digits: Seq<char>, radix: int)
    requires
        radix >= 1,
    ensures
        digits_value(digits, radix) matches Some(value) ==> value >= 0,
    decreases digits.len(),
{
    if digits.len() > 0 {
        lemma_value_positive(digits.drop_last(), radix);
        match digits_value(digits.drop_last(), radix) {
            Some(value) => {
                assert(value * radix >= 0) by (nonlinear_arith)
                    requires
                        value >= 0,
                        radix >= 1,
                ;
            },
            None => {},
        }
    }
}

/// The value of a digit; see [`digit_value`].
pub fn value_of_digit(c: char) -> (r: u32)
    ensures
        r == digit_value(c),
{
    if '0' <= c && c <= '9' {
        c as u32 - '0' as u32
    } else if 'a' <= c && c <= 'z' {
        c as u32 - 'a' as u32 + 10
    } else if 'A' <= c && c <= 'Z' {
        c as u32 - 'A' as u32 + 10
    } else {
        36
    }
}

/// The number that the digits from `from` on stand for, without their
/// blanks and underscores; see [`numeral_value`].
pub fn read_numeral(text: &Vec<char>, from: usize, radix: u32) -> (r: Option<i64>)
    requires
        from <= text@.len(),
        1 <= radix <= 36,
    ensures
        match r {
            Some(value) => numeral_value(compact(text@.skip(from as int)), radix as int) == Some(
                value as int,
            ) && value >= 0,
            None => numeral_value(compact(text@.skip(from as int)), radix as int) is None,
        },
{
    let ghost rest = text@.skip(from as int);
    let mut value: i64 = 0;
    let mut seen = false;
    let mut i: usize = from;
    assert(rest.subrange(0, 0) =~= Seq::<char>::empty());
    while i < text.len()
        invariant
            from <= i <= text@.len(),
            1 <= radix <= 36,
            rest == text@.skip(from as int),
            digits_value(compact(rest.subrange(0, i - from)), radix as int) == Some(value as int),
            seen == (compact(rest.subrange(0, i - from)).len() > 0),
            0 <= value,
        decreases text@.len() - i,
    {
        let c = text[i];
        let ghost before = rest.subrange(0, i - from);
        let ghost after = rest.subrange(0, i - from + 1);
        proof {
            assert(after.drop_last() =~= before);
            assert(after.last() == c);
        }
        if c != ' ' && c != '_' {
            let d = value_of_digit(c);
            let ghost digits = compact(after);
            proof {
                assert(digits.drop_last() =~= compact(before));
                assert(digits.last() == c);
            }
            let fits = d < radix && value <= (i64::MAX - d as i64) / (radix as i64);
            if !fits {
                proof {
                    let whole = compact(rest);
                    lemma_compact_prefix(rest, i - from + 1);
                    let n = digits.len() as int;
                    assert(whole.subrange(0, n) == digits);
                    lemma_value_grows(whole, n, radix as int);
                    if d < radix {
                        assert(value * radix + d > i64::MAX) by (nonlinear_arith)
                            requires
                                value > (i64::MAX - d) / (radix as int),
                                radix >= 1,
                                d >= 0,
                        ;
                    }
                }
                return None;
            }
            assert(value * radix + d <= i64::MAX) by (nonlinear_arith)
                requires
                    value <= (i64::MAX - d) / (radix as int),
                    radix >= 1,
                    d >= 0,
                    value >= 0,
            ;
            assert(value * radix >= 0) by (nonlinear_arith)
                requires
                    value >= 0,
                    radix >= 1,
            ;
            value = value * (radix as i64) + d as i64;
            seen = true;
        }
        i += 1;
    }
    assert(rest.subrange(0, i - from) =~= rest);
    if seen {
        Some(value)
    } else {
        None
    }
}

/// What is compact in a part of a text begins what is compact in the
/// whole.
pub proof fn lemma_compact_prefix(text: Seq<char>, upto: int)
    requires
        0 <= upto <= text.len(),
    ensures
        compact(text.subrange(0, upto)).len() <= compact(text).len(),
        compact(text).subrange(0, compact(text.subrange(0, upto)).len() as int) == compact(
            text.subrange(0, upto),
        ),
    decreases text.len(),
{
    if upto == text.len() {
        assert(text.subrange(0, upto) =~= text);
        assert(compact(text).subrange(0, compact(text).len() as int) =~= compact(text));
    } else {
        assert(text.drop_last().subrange(0, upto) =~= text.subrange(0, upto));
        lemma_compact_prefix(text.drop_last(), upto);
        let part = compact(text.subrange(0, upto));
        assert(compact(text).subrange(0, part.len() as int) =~= compact(
            text.drop_last(),
        ).subrange(0, part.len() as int));
    }
}

/// The characters of `text` without blanks and underscores; see
/// [`compact`].
pub fn compacted(text: &str) -> (r: String)
    ensures
        r@ == compact(text@),
{
    let len: usize = text.unicode_len();
    let mut out = String::new();
    let mut i: usize = 0;
    assert(text@.subrange(0, 0) =~= Seq::<char>::empty());
    while i < len
        invariant
            0 <= i <= len,
            len == text@.len(),
            out@ == compact(text@.subrange(0, i as int)),
        decreases len - i,
    {
        let c = text.get_char(i);
        proof {
            assert(text@.subrange(0, i + 1).drop_last() =~= text@.subrange(0, i as int));
        }
        if c != ' ' && c != '_' {
            push_char(&mut out, c);
        }
        i += 1;
    }
    assert(text@.subrange(0, len as int) =~= text@);
    out
}

/// Computes [`digit_run`].
fn scan_digit_run(text: &str, from: usize) -> (r: usize)
    requires
        from <= text@.len(),
    ensures
        r == digit_run(text@, from as int),
        from <= r <= text@.len(),
{
    let len: usize = text.unicode_len();
    let mut i: usize = from;
    while i < len && '0' <= text.get_char(i) && text.get_char(i) <= '9'
        invariant
            from <= i <= len,
            len == text@.len(),
            digit_run(text@, from as int) == digit_run(text@, i as int),
        decreases len - i,
    {
        i += 1;
    }
    i
}

/// Computes [`is_decimal_numeral`].
pub fn decimal_numeral(text: &str) -> (r: bool)
    ensures
        r == is_decimal_numeral(text@),
{
    let len: usize = text.unicode_len();
    let whole: usize = if len > 0 && (text.get_char(0) == '+' || text.get_char(0) == '-') {
        1
    } else {
        0
    };
    let point: usize = scan_digit_run(text, whole);
    if point < len && text.get_char(point) == '.' {
        let end: usize = scan_digit_run(text, point + 1);
        end == len && (whole < point || point + 1 < end)
    } else {
        false
    }
}

} // verus!
