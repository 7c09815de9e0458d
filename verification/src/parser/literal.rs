//! Literals read from the beginning of an input.

use vstd::prelude::*;

use crate::ast::value::{Value, ValueView};
use crate::parser::{ParserError, ParserErrorKind};
use crate::parser::input::{Cursor, Input, ParserResult, SpannedResult};
use crate::parser::keyword::tag;
use crate::parser::lexical::chars_of;
use crate::parser::numeral::{
    compact, compacted, digit_value, numeral_value, read_numeral, value_of_digit,
};
use crate::parser::spanned::Spanned;
use crate::text::{push_char, push_str};

verus! {

/// The sign of a number.
#[derive(Debug, Clone, Copy, PartialEq, Eq, Structural)]
pub enum Sign {
    Positive,
    Negative,
}

impl Default for Sign {
    /// A number without a sign is positive.
    fn default() -> (r: Self)
        ensures
            r == Sign::Positive,
    {
        Sign::Positive
    }
}

impl Sign {
    /// The sign as it is written.
    pub open spec fn symbol(self) -> Seq<char> {
        match self {
            Sign::Positive => "+"@,
            Sign::Negative => "-"@,
        }
    }

    /// The sign as it is written.
    pub fn to_string(&self) -> (r: String)
        ensures
            r@ == self.symbol(),
    {
        match self {
            Sign::Positive => String::from_str("+"),
            Sign::Negative => String::from_str("-"),
        }
    }
}

/// Whether a character has the property White_Space of Unicode: the
/// controls from the tabulator to the carriage return, the space, the
/// next-line control, the no-break space, the Ogham space mark, the
/// spaces of fixed width, the line and the paragraph separator, the
/// narrow no-break space, the medium mathematical space and the
/// ideographic space.
pub open spec fn is_white_space(c: char) -> bool {
    let code = c as u32;
    ||| 0x9 <= code <= 0xD
    ||| code == 0x20
    ||| code == 0x85
    ||| code == 0xA0
    ||| code == 0x1680
    ||| 0x2000 <= code <= 0x200A
    ||| code == 0x2028
    ||| code == 0x2029
    ||| code == 0x202F
    ||| code == 0x205F
    ||| code == 0x3000
}

/// Whether a character is white space.
pub fn white_space(c: char) -> (r: bool)
    ensures
        r == is_white_space(c),
{
    let code: u32 = c as u32;
    (0x9 <= code && code <= 0xD) || code == 0x20 || code == 0x85 || code == 0xA0 || code == 0x1680
        || (0x2000 <= code && code <= 0x200A) || code == 0x2028 || code == 0x2029 || code
        == 0x202F || code == 0x205F || code == 0x3000
}

/// Whether a character counts as blank between the parts of a literal.
pub open spec fn is_blank(c: char) -> bool {
    is_white_space(c) || c == '\n' || c == '\r'
}

/// The end of the blank characters that begin at `from`.
pub open spec fn blanks_end(text: Seq<char>, from: int) -> int
    decreases text.len() - from,
{
    if 0 <= from < text.len() && is_blank(text[from]) {
        blanks_end(text, from + 1)
    } else {
        from
    }
}

/// The end of the run of digits of the radix and underscores that begins
/// at `from`.
pub open spec fn run_end(text: Seq<char>, from: int, radix: int) -> int
    decreases text.len() - from,
{
    if 0 <= from < text.len() && (digit_value(text[from]) < radix || text[from] == '_') {
        run_end(text, from + 1, radix)
    } else {
        from
    }
}

/// What was read, and what is left, or the failure.
pub type Reading<T> = Result<(T, Cursor), ParserError>;

/// What a reading function has to return.
pub open spec fn reads<'a, T>(result: ParserResult<'a, T>, expected: Reading<T>) -> bool {
    match result {
        Ok((rest, got)) => expected == Ok::<(T, Cursor), ParserError>((got, rest@)) && rest.wf(),
        Err(error) => expected == Err::<(T, Cursor), ParserError>(error),
    }
}

/// What a reading function has to return whose result is a constant
/// with its place: the place is from the position of the input to the
/// position of what is left.
pub open spec fn reads_value<'a>(
    input: Input<'a>,
    result: SpannedResult<'a, Value>,
    expected: Reading<ValueView>,
) -> bool {
    match result {
        Ok((rest, got)) => expected == Ok::<(ValueView, Cursor), ParserError>((got.ast@, rest@))
            && rest.wf() && got.start == input.position && got.end == rest.position,
        Err(error) => expected == Err::<(ValueView, Cursor), ParserError>(error),
    }
}

/// `word` at the beginning of the text, read as `value`.
pub open spec fn word_at<T>(c: Cursor, word: Seq<char>, value: T) -> Reading<T> {
    if word.is_prefix_of(c.text) {
        Ok((value, c.skip(word.len() as int)))
    } else {
        Err(c.failure())
    }
}

/// The first of two readings that is no failure, or the failure of the
/// second.
pub open spec fn either<T>(first: Reading<T>, second: Reading<T>) -> Reading<T> {
    if first is Ok {
        first
    } else {
        second
    }
}

/// `true` or `false` at the beginning of the text.
pub open spec fn bool_at(c: Cursor) -> Reading<ValueView> {
    either(word_at(c, "true"@, ValueView::True), word_at(c, "false"@, ValueView::False))
}

/// Reads `true` or `false`.
pub fn parse_bool(input: Input<'_>) -> (r: SpannedResult<'_, Value>)
    requires
        input.wf(),
    ensures
        reads_value(input, r, bool_at(input@)),
{
    let start: usize = input.position;
    match tag(input, "true", Value::True) {
        Ok((rest, value)) => Ok((rest, Spanned { ast: value, start, end: rest.position })),
        Err(_) => match tag(input, "false", Value::False) {
            Ok((rest, value)) => Ok((rest, Spanned { ast: value, start, end: rest.position })),
            Err(error) => Err(error),
        },
    }
}

/// Reads the white space at the beginning of the input, which may be
/// none, and returns what is left and the white space.
pub fn parse_whitespace<'a>(input: Input<'a>) -> (r: ParserResult<'a, Input<'a>>)
    requires
        input.wf(),
    ensures
        r matches Ok((rest, blank)) && rest@ == input@.skip(blanks_end(input@.text, 0))
            && rest.wf() && blank.input@ == input.input@.take(blanks_end(input@.text, 0))
            && blank.position == input.position,
{
    let len: usize = input.input.unicode_len();
    let mut i: usize = 0;
    while i < len && (white_space(input.input.get_char(i)) || input.input.get_char(i) == '\n'
        || input.input.get_char(i) == '\r')
        invariant
            0 <= i <= len,
            len == input.input@.len(),
            blanks_end(input.input@, 0) == blanks_end(input.input@, i as int),
        decreases len - i,
    {
        i += 1;
    }
    let (rest, blank) = input.take_split(i);
    Ok((rest, blank))
}

/// The sign at the beginning of the text.
pub open spec fn sign_at(c: Cursor) -> Reading<Sign> {
    either(word_at(c, "+"@, Sign::Positive), word_at(c, "-"@, Sign::Negative))
}

/// Reads `+` or `-`.
pub fn parse_sign(input: Input<'_>) -> (r: SpannedResult<'_, Sign>)
    requires
        input.wf(),
    ensures
        match r {
            Ok((rest, got)) => sign_at(input@) == Ok::<(Sign, Cursor), ParserError>(
                (got.ast, rest@),
            ) && rest.wf() && got.start == input.position && got.end == rest.position,
            Err(error) => sign_at(input@) == Err::<(Sign, Cursor), ParserError>(error),
        },
{
    let start: usize = input.position;
    match tag(input, "+", Sign::Positive) {
        Ok((rest, sign)) => Ok((rest, Spanned { ast: sign, start, end: rest.position })),
        Err(_) => match tag(input, "-", Sign::Negative) {
            Ok((rest, sign)) => Ok((rest, Spanned { ast: sign, start, end: rest.position })),
            Err(error) => Err(error),
        },
    }
}

/// The number at the beginning of the text: a run of digits of the radix
/// and underscores that begins with a digit. Its value has to fit a
/// signed integer of 64 bits.
pub open spec fn digits_at(c: Cursor, radix: int) -> Reading<i64> {
    let end = run_end(c.text, 0, radix);
    if end == 0 || c.text[0] == '_' {
        Err(c.failure())
    } else {
        match numeral_value(compact(c.text.take(end)), radix) {
            Some(value) => Ok((value as i64, c.skip(end))),
            None => Err(c.overflow()),
        }
    }
}

/// The end of the run of digits and underscores that begins at `from`.
fn scan_run(input: Input<'_>, from: usize, radix: u32) -> (r: usize)
    requires
        from <= input.input@.len(),
    ensures
        r == run_end(input.input@, from as int, radix as int),
        from <= r <= input.input@.len(),
{
    let len: usize = input.input.unicode_len();
    let mut i: usize = from;
    while i < len && (value_of_digit(input.input.get_char(i)) < radix || input.input.get_char(i)
        == '_')
        invariant
            from <= i <= len,
            len == input.input@.len(),
            run_end(input.input@, from as int, radix as int) == run_end(
                input.input@,
                i as int,
                radix as int,
            ),
        decreases len - i,
    {
        i += 1;
    }
    i
}

/// Reads one or more digits of the radix. Underscores may stand between
/// and behind the digits.
///
/// Fails with `ParseIntError` where the number does not fit a signed
/// integer of 64 bits.
pub fn parse_digits(input: Input<'_>, radix: u32) -> (r: ParserResult<'_, i64>)
    requires
        input.wf(),
        2 <= radix <= 36,
    ensures
        reads(r, digits_at(input@, radix as int)),
        r matches Ok((_, value)) ==> value >= 0,
{
    let end: usize = scan_run(input, 0, radix);
    if end == 0 || input.input.get_char(0) == '_' {
        return Err(input.fail());
    }
    let (rest, digits) = input.take_split(end);
    let text = chars_of(digits.input);
    assert(text@.skip(0) =~= text@);
    match read_numeral(&text, 0, radix) {
        Some(value) => Ok((rest, value)),
        None => {
            let failure = input.fail();
            Err(ParserError { kind: ParserErrorKind::ParseIntError, ..failure })
        },
    }
}

/// The integer at the beginning of the text: a sign or none, white
/// space, the prefix if there is one, and digits of the radix.
pub open spec fn radix_integer_at(c: Cursor, radix: int, prefix: Option<Seq<char>>) -> Reading<
    ValueView,
> {
    let signed = match sign_at(c) {
        Ok((_, behind)) => behind,
        Err(_) => c,
    };
    let blank = signed.skip(blanks_end(signed.text, 0));
    let prefixed = match prefix {
        Some(prefix) => word_at(blank, prefix, ()),
        None => Ok(((), blank)),
    };
    match prefixed {
        Ok((_, digits)) => match digits_at(digits, radix) {
            Ok((value, rest)) => Ok(
                (
                    ValueView::Integer(
                        if sign_at(c) matches Ok((Sign::Negative, _)) {
                            -value
                        } else {
                            value as int
                        },
                    ),
                    rest,
                ),
            ),
            Err(error) => Err(error),
        },
        Err(error) => Err(error),
    }
}

/// Reads an integer of the radix with the prefix, if one is given.
pub fn parse_radix_integer<'a>(input: Input<'a>, radix: u32, prefix: Option<&'a str>) -> (r:
    SpannedResult<'a, Value>)
    requires
        input.wf(),
        2 <= radix <= 36,
    ensures
        reads_value(
            input,
            r,
            radix_integer_at(
                input@,
                radix as int,
                match prefix {
                    Some(prefix) => Some(prefix@),
                    None => None,
                },
            ),
        ),
{
    let start: usize = input.position;
    let (signed, sign) = match parse_sign(input) {
        Ok((rest, sign)) => (rest, sign.ast),
        Err(_) => (input, Sign::Positive),
    };
    let (blank, _) = parse_whitespace(signed)?;
    let digits = match prefix {
        Some(prefix) => {
            let (rest, _) = tag(blank, prefix, ())?;
            rest
        },
        None => blank,
    };
    let (rest, integer) = parse_digits(digits, radix)?;
    let integer = match sign {
        Sign::Positive => Value::Integer(integer),
        Sign::Negative => Value::Integer(-integer),
    };
    Ok((rest, Spanned { ast: integer, start, end: rest.position }))
}

/// The decimal integer at the beginning of the text.
pub open spec fn decimal_at(c: Cursor) -> Reading<ValueView> {
    radix_integer_at(c, 10, None)
}

/// The hexadecimal integer at the beginning of the text.
pub open spec fn hexadecimal_at(c: Cursor) -> Reading<ValueView> {
    radix_integer_at(c, 16, Some("0x"@))
}

/// The octal integer at the beginning of the text.
pub open spec fn octal_at(c: Cursor) -> Reading<ValueView> {
    radix_integer_at(c, 8, Some("0o"@))
}

/// The binary integer at the beginning of the text.
pub open spec fn binary_at(c: Cursor) -> Reading<ValueView> {
    radix_integer_at(c, 2, Some("0b"@))
}

/// Reads a decimal integer.
pub fn parse_decimal(input: Input<'_>) -> (r: SpannedResult<'_, Value>)
    requires
        input.wf(),
    ensures
        reads_value(input, r, decimal_at(input@)),
{
    parse_radix_integer(input, 10, None)
}

/// Reads an integer written with sixteen digits behind `0x`.
pub fn parse_hexadecimal(input: Input<'_>) -> (r: SpannedResult<'_, Value>)
    requires
        input.wf(),
    ensures
        reads_value(input, r, hexadecimal_at(input@)),
{
    parse_radix_integer(input, 16, Some("0x"))
}

/// Reads an integer written with eight digits behind `0o`.
pub fn parse_octal(input: Input<'_>) -> (r: SpannedResult<'_, Value>)
    requires
        input.wf(),
    ensures
        reads_value(input, r, octal_at(input@)),
{
    parse_radix_integer(input, 8, Some("0o"))
}

/// Reads an integer written with two digits behind `0b`.
pub fn parse_binary(input: Input<'_>) -> (r: SpannedResult<'_, Value>)
    requires
        input.wf(),
    ensures
        reads_value(input, r, binary_at(input@)),
{
    parse_radix_integer(input, 2, Some("0b"))
}

/// The integer at the beginning of the text: the first that can be read
/// of a decimal, a hexadecimal, an octal and a binary one.
pub open spec fn integer_at(c: Cursor) -> Reading<ValueView> {
    either(decimal_at(c), either(hexadecimal_at(c), either(octal_at(c), binary_at(c))))
}

/// Reads an integer: decimal, hexadecimal, octal or binary, tried in
/// this order.
pub fn parse_integer(input: Input<'_>) -> (r: SpannedResult<'_, Value>)
    requires
        input.wf(),
    ensures
        reads_value(input, r, integer_at(input@)),
{
    match parse_decimal(input) {
        Ok(found) => Ok(found),
        Err(_) => match parse_hexadecimal(input) {
            Ok(found) => Ok(found),
            Err(_) => match parse_octal(input) {
                Ok(found) => Ok(found),
                Err(_) => parse_binary(input),
            },
        },
    }
}

/// The end of the run of decimal digits and underscores that begins at
/// `from`, if it begins with a digit; `from` otherwise.
pub open spec fn part_end(text: Seq<char>, from: int) -> int {
    if 0 <= from < text.len() && digit_value(text[from]) < 10 {
        run_end(text, from, 10)
    } else {
        from
    }
}

/// The float at the beginning of the text: a sign or none, white space,
/// digits, a point and digits, where the digits before or behind the
/// point may be missing, not both. The constant is the numeral: `-` if
/// the sign is `-`, and the digits and the point without underscores.
pub open spec fn float_at(c: Cursor) -> Reading<ValueView> {
    let signed = match sign_at(c) {
        Ok((_, behind)) => behind,
        Err(_) => c,
    };
    let blank = signed.skip(blanks_end(signed.text, 0));
    let point = part_end(blank.text, 0);
    let end = part_end(blank.text, point + 1);
    if point < blank.text.len() && blank.text[point] == '.' && (0 < point || point + 1 < end) {
        Ok(
            (
                ValueView::Float(
                    (if sign_at(c) matches Ok((Sign::Negative, _)) {
                        seq!['-']
                    } else {
                        Seq::empty()
                    }) + compact(blank.text.take(end)),
                ),
                blank.skip(end),
            ),
        )
    } else {
        Err(blank.failure())
    }
}

/// Computes [`part_end`].
fn scan_part(input: Input<'_>, from: usize) -> (r: usize)
    requires
        from <= input.input@.len(),
    ensures
        r == part_end(input.input@, from as int),
        from <= r <= input.input@.len(),
{
    if from < input.input.unicode_len() && value_of_digit(input.input.get_char(from)) < 10 {
        scan_run(input, from, 10)
    } else {
        from
    }
}

/// Reads a float.
pub fn parse_float(input: Input<'_>) -> (r: SpannedResult<'_, Value>)
    requires
        input.wf(),
    ensures
        reads_value(input, r, float_at(input@)),
{
    let start: usize = input.position;
    let (signed, sign) = match parse_sign(input) {
        Ok((rest, sign)) => (rest, sign.ast),
        Err(_) => (input, Sign::Positive),
    };
    let (blank, _) = parse_whitespace(signed)?;
    let len: usize = blank.input.unicode_len();
    let point: usize = scan_part(blank, 0);
    if point < len && blank.input.get_char(point) == '.' {
        let end: usize = scan_part(blank, point + 1);
        if 0 < point || point + 1 < end {
            let (rest, digits) = blank.take_split(end);
            let mut numeral = String::new();
            match sign {
                Sign::Negative => push_char(&mut numeral, '-'),
                Sign::Positive => {},
            }
            let ghost signed_part = numeral@;
            let compact_digits = compacted(digits.input);
            push_str(&mut numeral, compact_digits.as_str());
            proof {
                assert(Seq::<char>::empty() + compact(digits.input@) =~= compact(digits.input@));
            }
            return Ok(
                (rest, Spanned { ast: Value::Float(numeral), start, end: rest.position }),
            );
        }
    }
    Err(blank.fail())
}

/// The constant at the beginning of the text: the first that can be
/// read of a float, an integer and a boolean.
pub open spec fn value_at(c: Cursor) -> Reading<ValueView> {
    either(float_at(c), either(integer_at(c), bool_at(c)))
}

/// Reads a constant: a float, an integer or a boolean, tried in this
/// order.
pub fn parse_value(input: Input<'_>) -> (r: SpannedResult<'_, Value>)
    requires
        input.wf(),
    ensures
        reads_value(input, r, value_at(input@)),
{
    match parse_float(input) {
        Ok(found) => Ok(found),
        Err(_) => match parse_integer(input) {
            Ok(found) => Ok(found),
            Err(_) => parse_bool(input),
        },
    }
}

/// A backslash and the character `escape` at the beginning of the text,
/// read as `value`.
pub open spec fn escape_at(c: Cursor, escape: char, value: char) -> Reading<char> {
    if c.text.len() >= 2 && c.text[0] == '\\' && c.text[1] == escape {
        Ok((value, c.skip(2)))
    } else {
        Err(c.failure())
    }
}

/// Reads a backslash and the character `escape`, and returns `escape`.
fn parse_escape_seq(input: Input<'_>, escape: char) -> (r: ParserResult<'_, char>)
    requires
        input.wf(),
    ensures
        reads(r, escape_at(input@, escape, escape)),
{
    if input.input.unicode_len() >= 2 && input.input.get_char(0) == '\\' && input.input.get_char(
        1,
    ) == escape {
        Ok((input.slice(2), escape))
    } else {
        Err(input.fail())
    }
}

/// Reads `\n` as written and returns a line feed.
pub fn parse_newline(input: Input<'_>) -> (r: ParserResult<'_, char>)
    requires
        input.wf(),
    ensures
        reads(r, escape_at(input@, 'n', '\n')),
{
    let (input, _) = parse_escape_seq(input, 'n')?;
    Ok((input, '\n'))
}

/// Reads `\t` as written and returns a tab.
pub fn parse_tab(input: Input<'_>) -> (r: ParserResult<'_, char>)
    requires
        input.wf(),
    ensures
        reads(r, escape_at(input@, 't', '\t')),
{
    let (input, _) = parse_escape_seq(input, 't')?;
    Ok((input, '\t'))
}

/// Reads `\r` as written and returns a carriage return.
pub fn parse_carriage_return(input: Input<'_>) -> (r: ParserResult<'_, char>)
    requires
        input.wf(),
    ensures
        reads(r, escape_at(input@, 'r', '\r')),
{
    let (input, _) = parse_escape_seq(input, 'r')?;
    Ok((input, '\r'))
}

/// Reads two backslashes and returns one.
pub fn parse_backslash(input: Input<'_>) -> (r: ParserResult<'_, char>)
    requires
        input.wf(),
    ensures
        reads(r, escape_at(input@, '\\', '\\')),
{
    let (input, _) = parse_escape_seq(input, '\\')?;
    Ok((input, '\\'))
}

/// Reads a backslash and a double quote and returns the double quote.
pub fn parse_double_quote(input: Input<'_>) -> (r: ParserResult<'_, char>)
    requires
        input.wf(),
    ensures
        reads(r, escape_at(input@, '"', '"')),
{
    let (input, _) = parse_escape_seq(input, '"')?;
    Ok((input, '"'))
}

/// Reads a backslash and a quote and returns the quote.
pub fn parse_quote(input: Input<'_>) -> (r: ParserResult<'_, char>)
    requires
        input.wf(),
    ensures
        reads(r, escape_at(input@, '\'', '\'')),
{
    let (input, _) = parse_escape_seq(input, '\'')?;
    Ok((input, '\''))
}

/// The escape sequence at the beginning of the text.
pub open spec fn escaped_at(c: Cursor) -> Reading<char> {
    either(
        escape_at(c, 'n', '\n'),
        either(
            escape_at(c, 't', '\t'),
            either(
                escape_at(c, 'r', '\r'),
                either(
                    escape_at(c, '\\', '\\'),
                    either(escape_at(c, '"', '"'), escape_at(c, '\'', '\'')),
                ),
            ),
        ),
    )
}

/// Reads an escape sequence and returns the character it stands for.
pub fn parse_escaped(input: Input<'_>) -> (r: ParserResult<'_, char>)
    requires
        input.wf(),
    ensures
        reads(r, escaped_at(input@)),
{
    match parse_newline(input) {
        Ok(found) => Ok(found),
        Err(_) => match parse_tab(input) {
            Ok(found) => Ok(found),
            Err(_) => match parse_carriage_return(input) {
                Ok(found) => Ok(found),
                Err(_) => match parse_backslash(input) {
                    Ok(found) => Ok(found),
                    Err(_) => match parse_double_quote(input) {
                        Ok(found) => Ok(found),
                        Err(_) => parse_quote(input),
                    },
                },
            },
        },
    }
}

} // verus!
