use tlang::{Number, Value};

fn parse_number(s: &str) -> Value {
    let p = tlang::parse_programme("n").unwrap();
    let ops = tlang::compile(&p).unwrap();
    let mut ctx = tlang::Context::new(Value::Text(s.to_string()));
    tlang::run(&ops, &mut ctx).unwrap();
    ctx.into_value()
}

#[test]
fn to_number_parses_integer() {
    assert_eq!(parse_number("42"), Value::Number(Number::from_int(42)));
}

#[test]
fn to_number_parses_float() {
    assert_eq!(parse_number("3.14"), Value::Number(Number::new(314, 2).unwrap()));
}

#[test]
fn to_number_parses_negative() {
    assert_eq!(parse_number("-123"), Value::Number(Number::from_int(-123)));
}

#[test]
fn to_number_invalid_becomes_zero() {
    assert_eq!(parse_number("abc"), Value::Number(Number::from_int(0)));
    assert_eq!(parse_number(""), Value::Number(Number::from_int(0)));
}

#[test]
fn to_number_normalizes_trailing_zeros() {
    assert_eq!(parse_number("3.10"), Value::Number(Number::new(31, 1).unwrap()));
    assert_eq!(parse_number("0.0"), Value::Number(Number::from_int(0)));
}

#[test]
fn number_display_forms() {
    let one = Number::from_int(1);
    assert_eq!(String::from_iter(one.to_chars()), "1");
    let pi = Number::new(314, 2).unwrap();
    assert_eq!(String::from_iter(pi.to_chars()), "3.14");
    let neg = Number::from_int(-123);
    assert_eq!(String::from_iter(neg.to_chars()), "-123");
    let half = Number::new(5, 1).unwrap();
    assert_eq!(String::from_iter(half.to_chars()), "0.5");
}

#[test]
fn number_addition_is_exact() {
    let a = Number::new(15, 1).unwrap();
    let b = Number::new(25, 1).unwrap();
    let sum = a.checked_add(&b).unwrap();
    assert_eq!(sum, Number::from_int(4));
}

#[test]
fn number_ordering() {
    let a = Number::new(5, 1).unwrap();
    let b = Number::from_int(1);
    assert!(a.le(&b));
    assert!(!b.le(&a));
    assert_eq!(a.cmp_with(&b), -1);
    assert_eq!(b.cmp_with(&b), 0);
}
