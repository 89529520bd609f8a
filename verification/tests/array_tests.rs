use schema_valid::{array, number, string};
use schema_valid::value::{Num, Value};

fn s(text: &str) -> Value {
    Value::String(text.to_string())
}

fn n(whole: i64) -> Value {
    Value::Number(Num::from_int(whole))
}

#[test]
fn test_array_length_validation() {
    let schema = array(string())
        .min_items(2)
        .max_items(4)
        .error_message("array.min_items", "Must have at least 2 items")
        .error_message("array.max_items", "Must have at most 4 items");

    assert!(schema.validate(&Value::Array(vec![s("a"), s("b"), s("c")])).is_ok());

    let err = schema.validate(&Value::Array(vec![s("a")])).unwrap_err();
    assert_eq!(err.context.code, "array.min_items");
    assert_eq!(err.context.details.min_length, Some(2));
    assert!(err.to_string().contains("Must have at least 2 items"));

    let err = schema
        .validate(&Value::Array(vec![s("a"), s("b"), s("c"), s("d"), s("e")]))
        .unwrap_err();
    assert_eq!(err.context.code, "array.max_items");
    assert_eq!(err.context.details.max_length, Some(4));
    assert!(err.to_string().contains("Must have at most 4 items"));
}

#[test]
fn test_array_item_validation() {
    let schema = array(number().min(Num::from_int(0)).max(Num::from_int(100)));

    assert!(schema.validate(&Value::Array(vec![n(1), n(50), n(100)])).is_ok());

    let err = schema.validate(&Value::Array(vec![n(1), n(-1), n(50)])).unwrap_err();
    assert!(err.context.path.contains("1"));
    assert_eq!(err.to_string(), "Item 1 is invalid");
}

#[test]
fn test_array_optional() {
    let schema = array(string()).optional();

    assert!(schema.validate(&Value::Array(vec![s("a"), s("b")])).is_ok());
    assert!(schema.validate(&Value::Null).is_ok());
    assert!(schema.validate(&n(42)).is_err());
}

#[test]
fn test_array_type_validation() {
    let schema = array(string()).error_message("array.invalid_type", "Must be an array");

    assert!(schema.validate(&Value::Array(vec![s("a"), s("b")])).is_ok());

    let err = schema.validate(&s("not an array")).unwrap_err();
    assert_eq!(err.context.code, "array.invalid_type");
    assert!(err.to_string().contains("Must be an array"));
}

#[test]
fn test_nested_array_validation() {
    let inner_schema = array(number().integer());
    let schema = array(inner_schema);

    assert!(schema
        .validate(&Value::Array(vec![
            Value::Array(vec![n(1), n(2)]),
            Value::Array(vec![n(3), n(4)]),
        ]))
        .is_ok());
    assert!(schema
        .validate(&Value::Array(vec![Value::Array(vec![
            n(1),
            Value::Number(Num::from_micros(2_500_000)),
        ])]))
        .is_err());
}

#[test]
fn test_array_validation() {
    let schema = array(string().min_length(2)).min_items(1).max_items(3);

    assert!(schema.validate(&Value::Array(vec![s("aa"), s("bbb")])).is_ok());
    assert!(schema.validate(&Value::Array(vec![])).is_err());
    assert!(schema.validate(&Value::Array(vec![s("a")])).is_err());
    assert!(schema
        .validate(&Value::Array(vec![s("aa"), s("bb"), s("cc"), s("dd")]))
        .is_err());
}

#[test]
fn test_array_cardinality_bounds() {
    let schema = array(number()).min_items(1).max_items(3);

    let err = schema.validate(&Value::Array(vec![])).unwrap_err();
    assert_eq!(err.context.code, "array.min_items");

    let err = schema
        .validate(&Value::Array(vec![n(1), n(2), n(3), n(4)]))
        .unwrap_err();
    assert_eq!(err.context.code, "array.max_items");

    assert!(schema.validate(&Value::Array(vec![n(1), n(2)])).is_ok());
}

#[test]
fn test_array_rejects_null_when_required() {
    let schema = array(string());
    let err = schema.validate(&Value::Null).unwrap_err();
    assert_eq!(err.context.code, "array.required");
}

#[test]
fn test_array_returns_transformed_items() {
    let schema = array(string().to_uppercase());
    assert_eq!(
        schema.validate(&Value::Array(vec![s(" a "), s("b")])).unwrap(),
        Value::Array(vec![s("A"), s("B")])
    );
}
