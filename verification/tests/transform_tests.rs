use schema_valid::schema::Transform;
use schema_valid::string;
use schema_valid::value::{Num, Value};

fn s(text: &str) -> Value {
    Value::String(text.to_string())
}

#[test]
fn test_string_transforms() {
    let schema = string().to_lowercase().trim();

    assert_eq!(schema.validate(&s("  HELLO  ")).unwrap(), s("hello"));
}

#[test]
fn test_transform_trim() {
    assert_eq!(Transform::Trim.apply(s("  a b  ")), s("a b"));
    assert_eq!(Transform::Trim.apply(Value::Bool(true)), Value::Bool(true));
}

#[test]
fn test_transform_case_folds() {
    assert_eq!(Transform::ToLowerCase.apply(s(" MiXeD ")), s("mixed"));
    assert_eq!(Transform::ToUpperCase.apply(s(" MiXeD ")), s("MIXED"));
    assert_eq!(Transform::ToLowerCase.apply(Value::Null), Value::Null);
}

#[test]
fn test_transform_parse_number() {
    assert_eq!(
        Transform::ParseNumber.apply(s(" 42.5 ")),
        Value::Number(Num::from_micros(42_500_000))
    );
    assert_eq!(Transform::ParseNumber.apply(s("nope")), s("nope"));
}

#[test]
fn test_transform_to_integer() {
    assert_eq!(
        Transform::ToInteger.apply(Value::Number(Num::from_micros(42_900_000))),
        Value::Number(Num::from_int(42))
    );
    assert_eq!(
        Transform::ToInteger.apply(Value::Number(Num::from_micros(-1_500_000))),
        Value::Number(Num::from_int(-2))
    );
    assert_eq!(Transform::ToInteger.apply(s("5")), s("5"));
}

#[test]
fn test_transform_stringify() {
    assert_eq!(
        Transform::Stringify.apply(Value::Number(Num::from_micros(42_500_000))),
        s("42.5")
    );
    assert_eq!(Transform::Stringify.apply(Value::Bool(true)), s("true"));
    assert_eq!(Transform::Stringify.apply(Value::Null), s("null"));
    assert_eq!(Transform::Stringify.apply(s("x")), s("x"));
}
