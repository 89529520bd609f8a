use schema_valid::number;
use schema_valid::value::{Num, Value};

fn n(whole: i64) -> Value {
    Value::Number(Num::from_int(whole))
}

fn micros(m: i64) -> Value {
    Value::Number(Num::from_micros(m))
}

fn s(text: &str) -> Value {
    Value::String(text.to_string())
}

#[test]
fn test_number_range_validation() {
    let schema = number()
        .min(Num::from_int(0))
        .max(Num::from_int(100))
        .error_message("number.min", "Must be at least {min}")
        .error_message("number.max", "Must be at most {max}");

    assert!(schema.validate(&n(50)).is_ok());

    let err = schema.validate(&n(-1)).unwrap_err();
    assert_eq!(err.context.code, "number.min");
    assert_eq!(err.context.details.min_value, Some(Num::from_int(0)));
    assert!(err.to_string().contains("Must be at least 0"));

    let err = schema.validate(&n(101)).unwrap_err();
    assert_eq!(err.context.code, "number.max");
    assert_eq!(err.context.details.max_value, Some(Num::from_int(100)));
    assert!(err.to_string().contains("Must be at most 100"));
}

#[test]
fn test_number_integer_validation() {
    let schema = number().integer().error_message("number.integer", "Must be an integer");

    assert!(schema.validate(&n(42)).is_ok());

    let err = schema.validate(&micros(42_500_000)).unwrap_err();
    assert_eq!(err.context.code, "number.integer");
    assert!(err.to_string().contains("Must be an integer"));
}

#[test]
fn test_number_coercion() {
    let schema = number().min(Num::from_int(0)).max(Num::from_int(100)).coerce();

    assert!(schema.validate(&s("42")).is_ok());
    assert!(schema.validate(&s("42.5")).is_ok());
    assert!(schema.validate(&s("-1")).is_err());
    assert!(schema.validate(&s("not a number")).is_err());
}

#[test]
fn test_number_optional() {
    let schema = number().min(Num::from_int(0)).optional();

    assert!(schema.validate(&n(42)).is_ok());
    assert!(schema.validate(&Value::Null).is_ok());
    assert!(schema.validate(&n(-1)).is_err());
}

#[test]
fn test_number_type_validation() {
    let schema = number().error_message("number.invalid_type", "Must be a number");

    assert!(schema.validate(&n(42)).is_ok());

    let err = schema.validate(&s("not a number")).unwrap_err();
    assert_eq!(err.context.code, "number.invalid_type");
    assert!(err.to_string().contains("Must be a number"));
}

#[test]
fn test_number_coercion_failure_honors_override() {
    let schema = number().coerce().error_message("number.invalid_type", "Must be a number");

    let err = schema.validate(&s("not a number")).unwrap_err();
    assert_eq!(err.context.code, "number.invalid_type");
    assert!(err.to_string().contains("Must be a number"));
}

#[test]
fn test_number_validation() {
    let schema = number().min(Num::from_int(0)).max(Num::from_int(100)).integer();

    assert!(schema.validate(&n(42)).is_ok());
    assert!(schema.validate(&n(-1)).is_err());
    assert!(schema.validate(&n(101)).is_err());
    assert!(schema.validate(&micros(42_500_000)).is_err());
}

#[test]
fn test_number_coercion_returns_number() {
    let schema = number().coerce();
    assert_eq!(schema.validate(&s("42.5")).unwrap(), micros(42_500_000));
    assert_eq!(schema.validate(&s("-3")).unwrap(), n(-3));
}

#[test]
fn test_number_rejects_null_when_required() {
    let schema = number();
    let err = schema.validate(&Value::Null).unwrap_err();
    assert_eq!(err.context.code, "number.required");
    assert_eq!(err.to_string(), "This field is required");
}

#[test]
fn test_number_parse_and_floor_transforms() {
    let schema = number().parse_number().to_integer();
    assert_eq!(schema.validate(&s("25")).unwrap(), n(25));
    assert_eq!(schema.validate(&s(" 42.9 ")).unwrap(), n(42));
    assert_eq!(schema.validate(&micros(-2_500_000)).unwrap(), n(-3));
}
