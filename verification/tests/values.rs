use eq_float::F64;
use lox::value::{RuntimeError, Value};

fn number(n: f64) -> Value {
    Value::Number(F64(n))
}

fn text(s: &str) -> Value {
    Value::String(s.to_string())
}

fn as_number(v: Result<Value, RuntimeError>) -> f64 {
    match v {
        Ok(Value::Number(n)) => n.0,
        other => panic!("{:?}", other),
    }
}

#[test]
fn add_numbers() {
    assert_eq!(as_number(number(1.5).add(&number(2.25))), 3.75);
}

#[test]
fn add_strings() {
    match text("foo").add(&text("bar")) {
        Ok(Value::String(s)) => assert_eq!(s, "foobar"),
        other => panic!("{:?}", other),
    }
}

#[test]
fn add_mixed_fails() {
    assert!(matches!(number(1.0).add(&text("a")), Err(RuntimeError::TypeMismatch)));
    assert!(matches!(text("a").add(&number(1.0)), Err(RuntimeError::TypeMismatch)));
    assert!(matches!(Value::Nil.add(&Value::Nil), Err(RuntimeError::TypeMismatch)));
    assert!(matches!(Value::Boolean(true).add(&number(1.0)), Err(RuntimeError::TypeMismatch)));
}

#[test]
fn subtract_multiply_divide() {
    assert_eq!(as_number(number(10.0).sub(&number(4.0))), 6.0);
    assert_eq!(as_number(number(10.0).mul(&number(4.0))), 40.0);
    assert_eq!(as_number(number(10.0).div(&number(4.0))), 2.5);
    assert_eq!(as_number(number(1.0).div(&number(0.0))), f64::INFINITY);
    assert!(as_number(number(0.0).div(&number(0.0))).is_nan());
    assert!(matches!(text("a").sub(&text("b")), Err(RuntimeError::TypeMismatch)));
    assert!(matches!(text("a").mul(&number(2.0)), Err(RuntimeError::TypeMismatch)));
    assert!(matches!(number(2.0).div(&Value::Nil), Err(RuntimeError::TypeMismatch)));
}

#[test]
fn negate_and_not() {
    assert_eq!(as_number(number(3.0).neg()), -3.0);
    assert!(matches!(Value::Boolean(true).neg(), Err(RuntimeError::TypeMismatch)));
    assert!(matches!(Value::Boolean(true).not(), Ok(Value::Boolean(false))));
    assert!(matches!(Value::Boolean(false).not(), Ok(Value::Boolean(true))));
    assert!(matches!(Value::Nil.not(), Err(RuntimeError::TypeMismatch)));
    assert!(matches!(number(0.0).not(), Err(RuntimeError::TypeMismatch)));
}

#[test]
fn equality() {
    assert!(number(2.0).equals(&number(2.0)));
    assert!(!number(2.0).equals(&number(3.0)));
    assert!(number(0.0).equals(&number(-0.0)));
    assert!(!number(f64::NAN).equals(&number(f64::NAN)));
    assert!(Value::Boolean(true).equals(&Value::Boolean(true)));
    assert!(!Value::Boolean(true).equals(&Value::Boolean(false)));
    assert!(Value::Nil.equals(&Value::Nil));
    assert!(!Value::Nil.equals(&Value::Boolean(false)));
    assert!(!text("a").equals(&text("a")));
    assert!(!number(1.0).equals(&text("1")));
}

#[test]
fn ordering() {
    assert!(number(1.0).less(&number(2.0)));
    assert!(!number(2.0).less(&number(2.0)));
    assert!(number(2.0).at_most(&number(2.0)));
    assert!(!number(3.0).at_most(&number(2.0)));
    assert!(!number(f64::NAN).at_most(&number(f64::NAN)));
    assert!(!text("a").less(&text("b")));
    assert!(!Value::Nil.at_most(&Value::Nil));
}

#[test]
fn only_the_boolean_false_is_false() {
    assert!(Value::Boolean(false).is_false());
    assert!(!Value::Boolean(true).is_false());
    assert!(!Value::Nil.is_false());
    assert!(!number(0.0).is_false());
    assert!(!text("").is_false());
}

#[test]
fn text_of_values() {
    assert_eq!(number(7.0).to_text(), "7");
    assert_eq!(number(2.5).to_text(), "2.5");
    assert_eq!(number(-0.125).to_text(), "-0.125");
    assert_eq!(number(1e21).to_text(), "1000000000000000000000");
    assert_eq!(Value::Boolean(true).to_text(), "true");
    assert_eq!(Value::Boolean(false).to_text(), "false");
    assert_eq!(Value::Nil.to_text(), "nil");
    assert_eq!(text("as is").to_text(), "as is");
}

#[test]
fn copies_print_the_same() {
    let v = text("copy");
    assert_eq!(v.clone().to_text(), "copy");
    assert_eq!(as_number(Ok(number(4.0).clone())), 4.0);
}

#[test]
fn values_from_plain_values() {
    assert!(matches!(Value::from(true), Value::Boolean(true)));
    assert!(matches!(Value::from(F64(2.0)), Value::Number(F64(n)) if n == 2.0));
    match Value::from("s".to_string()) {
        Value::String(s) => assert_eq!(s, "s"),
        other => panic!("{:?}", other),
    }
}

#[test]
fn equality_operator_is_the_equality_of_the_language() {
    assert!(number(1.0) == number(1.0));
    assert!(number(1.0) != number(2.0));
    assert!(Value::Nil == Value::Nil);
    assert!(Value::from(true) != Value::from(false));
    assert!(text("a") != text("a"));
    assert!(number(f64::NAN) != number(f64::NAN));
}
