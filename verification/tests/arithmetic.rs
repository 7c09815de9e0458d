use alloy::ast::value::Value;
use alloy::parser::literal::white_space;

#[test]
fn value_addtion() {
    assert_eq!(
        Value::Integer(12).checked_add(&Value::Integer(12)),
        Some(Value::Integer(24))
    );
}

#[test]
fn addition_with_bool() {
    let five_int = Value::Integer(5);
    let six_int = Value::Integer(6);
    let one = Value::True;
    let zero = Value::False;

    assert_eq!(five_int.checked_add(&one), Some(six_int));
    assert_eq!(five_int.checked_add(&zero), Some(Value::Integer(5)));
}

#[test]
fn value_subtarction() {
    assert_eq!(
        Value::Integer(12).checked_sub(&Value::Integer(12)),
        Some(Value::Integer(0))
    );
}

#[test]
fn subtraction_with_bool() {
    let five_int = Value::Integer(5);
    let four_int = Value::Integer(4);
    let one = Value::True;
    let zero = Value::False;

    assert_eq!(five_int.checked_sub(&one), Some(four_int));
    assert_eq!(five_int.checked_sub(&zero), Some(Value::Integer(5)));
}

#[test]
fn value_multiplaction() {
    assert_eq!(
        Value::Integer(12).checked_mul(&Value::Integer(12)),
        Some(Value::Integer(144))
    );
}

#[test]
fn multiplaction_with_bool() {
    let five_int = Value::Integer(5);
    let zero_int = Value::Integer(0);
    let one = Value::True;
    let zero = Value::False;

    assert_eq!(five_int.checked_mul(&one), Some(Value::Integer(5)));
    assert_eq!(five_int.checked_mul(&zero), Some(zero_int));
}

#[test]
fn value_remainder() {
    assert_eq!(
        Value::Integer(12).checked_rem(&Value::Integer(3)),
        Some(Value::Integer(0))
    );
    assert_eq!(
        Value::Integer(12).checked_rem(&Value::True),
        Some(Value::Integer(0))
    );
}

#[test]
fn value_equality() {
    assert_eq!(
        Value::Integer(12).same_number(&Value::Integer(12)),
        Some(true)
    );
    assert_eq!(
        Value::Integer(22).same_number(&Value::Integer(12)),
        Some(false)
    );
}

#[test]
fn booleans_count_as_one_and_zero() {
    assert_eq!(
        Value::True.checked_add(&Value::True),
        Some(Value::Integer(2))
    );
    assert_eq!(
        Value::False.checked_add(&Value::True),
        Some(Value::Integer(1))
    );
    assert_eq!(
        Value::False.checked_sub(&Value::Integer(7)),
        Some(Value::Integer(-7))
    );
    assert_eq!(
        Value::True.checked_mul(&Value::Integer(-3)),
        Some(Value::Integer(-3))
    );
    assert_eq!(Value::True.same_number(&Value::Integer(1)), Some(true));
    assert_eq!(Value::False.same_number(&Value::Integer(0)), Some(true));
    assert_eq!(Value::True.same_number(&Value::False), Some(false));
    assert_eq!(Value::False.less_than(&Value::True), Some(true));
    assert_eq!(Value::True.less_than(&Value::Integer(1)), Some(false));
}

#[test]
fn the_remainder_has_the_sign_of_the_dividend() {
    let rem = |a: i64, b: i64| Value::Integer(a).checked_rem(&Value::Integer(b));
    assert_eq!(rem(7, 3), Some(Value::Integer(1)));
    assert_eq!(rem(-7, 3), Some(Value::Integer(-1)));
    assert_eq!(rem(7, -3), Some(Value::Integer(1)));
    assert_eq!(rem(-7, -3), Some(Value::Integer(-1)));
    assert_eq!(rem(0, 5), Some(Value::Integer(0)));
    assert_eq!(rem(i64::MIN, -1), Some(Value::Integer(0)));
    assert_eq!(rem(i64::MIN, i64::MAX), Some(Value::Integer(-1)));
    assert_eq!(rem(5, 0), None);
    assert_eq!(Value::Integer(5).checked_rem(&Value::False), None);
}

#[test]
fn a_result_that_does_not_fit_is_none() {
    let max = Value::Integer(i64::MAX);
    let min = Value::Integer(i64::MIN);
    assert_eq!(max.checked_add(&Value::True), None);
    assert_eq!(max.checked_add(&Value::False), Some(Value::Integer(i64::MAX)));
    assert_eq!(min.checked_sub(&Value::Integer(1)), None);
    assert_eq!(Value::Integer(0).checked_sub(&min), None);
    assert_eq!(max.checked_mul(&Value::Integer(2)), None);
    assert_eq!(min.checked_mul(&Value::Integer(-1)), None);
    assert_eq!(
        Value::Integer(3_037_000_499).checked_mul(&Value::Integer(3_037_000_499)),
        Some(Value::Integer(9_223_372_030_926_249_001))
    );
}

#[test]
fn a_float_among_the_operands_gives_none() {
    let float = Value::Float("1.5".to_string());
    let one = Value::Integer(1);
    assert_eq!(float.checked_add(&one), None);
    assert_eq!(one.checked_add(&float), None);
    assert_eq!(float.checked_sub(&one), None);
    assert_eq!(one.checked_mul(&float), None);
    assert_eq!(one.checked_rem(&float), None);
    assert_eq!(float.same_number(&float), None);
    assert_eq!(one.same_number(&float), None);
    assert_eq!(float.less_than(&one), None);
}

#[test]
fn numbers_compare_as_integers() {
    assert_eq!(Value::Integer(-2).less_than(&Value::Integer(1)), Some(true));
    assert_eq!(Value::Integer(1).less_than(&Value::Integer(-2)), Some(false));
    assert_eq!(Value::Integer(3).less_than(&Value::Integer(3)), Some(false));
    assert_eq!(
        Value::Integer(i64::MIN).less_than(&Value::Integer(i64::MAX)),
        Some(true)
    );
}

#[test]
fn white_space_is_what_the_standard_library_takes_for_it() {
    let mut code: u32 = 0;
    while code <= 0x10FFFF {
        if let Some(c) = char::from_u32(code) {
            assert_eq!(white_space(c), c.is_whitespace(), "U+{:04X}", code);
        }
        code += 1;
    }
}

#[test]
fn white_space_on_chosen_characters() {
    for c in [' ', '\t', '\n', '\r', '\u{b}', '\u{c}', '\u{85}', '\u{a0}', '\u{1680}', '\u{2000}',
        '\u{200a}', '\u{2028}', '\u{2029}', '\u{202f}', '\u{205f}', '\u{3000}']
    {
        assert!(white_space(c));
    }
    for c in ['0', '9', 'a', '_', '+', '-', '.', '\u{8}', '\u{e}', '\u{1f}', '\u{180e}',
        '\u{200b}', '\u{2060}', '\u{feff}']
    {
        assert!(!white_space(c));
    }
}
