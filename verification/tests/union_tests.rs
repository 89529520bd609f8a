use schema_valid::{number, string, union};
use schema_valid::schema::{ErrorScore, Schema, SchemaType, UnionSchema, UnionStrategy};
use schema_valid::value::{get_type_name, Num, Value};

fn s(text: &str) -> Value {
    Value::String(text.to_string())
}

fn n(whole: i64) -> Value {
    Value::Number(Num::from_int(whole))
}

#[test]
fn test_type_name() {
    assert_eq!(get_type_name(&Value::Null), "null");
    assert_eq!(get_type_name(&Value::Bool(true)), "boolean");
    assert_eq!(get_type_name(&n(42)), "number");
    assert_eq!(get_type_name(&s("hello")), "string");
    assert_eq!(get_type_name(&Value::Array(vec![])), "array");
    assert_eq!(get_type_name(&Value::Object(vec![])), "object");
}

#[test]
fn test_union_first_match() {
    let schema = UnionSchema::new(vec![
        string().into_schema_type(),
        number().into_schema_type(),
    ]);

    assert!(schema.validate(&s("hello")).is_ok());
    assert!(schema.validate(&n(42)).is_ok());
    assert!(schema.validate(&Value::Bool(true)).is_err());
}

#[test]
fn test_union_all_match() {
    let schema = UnionSchema::new(vec![
        string().min_length(3).into_schema_type(),
        string().max_length(10).into_schema_type(),
    ])
    .strategy(UnionStrategy::All);

    assert!(schema.validate(&s("hello")).is_ok());
    assert!(schema.validate(&s("hi")).is_err());
    assert!(schema.validate(&s("hello world")).is_err());
}

#[test]
fn test_union_best_match() {
    let schema = UnionSchema::new(vec![
        string().min_length(5).into_schema_type(),
        string().max_length(3).into_schema_type(),
    ])
    .strategy(UnionStrategy::Best(
        ErrorScore::new(3).entry("string.too_short", 1).entry("string.too_long", 2),
    ));

    assert!(schema.validate(&s("hi")).is_ok());
    assert!(schema.validate(&s("hello")).is_ok());

    let err = schema.validate(&s("1234")).unwrap_err();
    assert_eq!(err.context.code, "string.too_short");
}

#[test]
fn test_union_first_uuid_or_positive_integer() {
    let schema = union(vec![
        string().uuid().into_schema_type(),
        number().integer().min(Num::from_int(1)).into_schema_type(),
    ]);

    assert!(schema.validate(&s("550e8400-e29b-41d4-a716-446655440000")).is_ok());
    assert!(schema.validate(&n(42)).is_ok());
    assert!(schema.validate(&n(-1)).is_err());
    assert!(schema.validate(&s("not-a-uuid")).is_err());
}

#[test]
fn test_union_all_password_rules() {
    let schema = UnionSchema::new(vec![
        string().min_length(8).into_schema_type(),
        string().pattern("[A-Z]").into_schema_type(),
    ])
    .strategy(UnionStrategy::All);

    let err = schema.validate(&s("password")).unwrap_err();
    assert_eq!(err.context.code, "string.pattern");

    assert!(schema.validate(&s("Password")).is_ok());
}

#[test]
fn test_union_all_returns_original() {
    let schema = UnionSchema::new(vec![
        string().trim().into_schema_type(),
        string().max_length(10).into_schema_type(),
    ])
    .strategy(UnionStrategy::All);

    assert_eq!(schema.validate(&s(" ab ")).unwrap(), s(" ab "));
}

#[test]
fn test_union_first_returns_last_error() {
    let schema = union(vec![
        string().min_length(5).into_schema_type(),
        string().max_length(2).into_schema_type(),
    ]);

    let err = schema.validate(&s("abc")).unwrap_err();
    assert_eq!(err.context.code, "string.too_long");
}

#[test]
fn test_union_best_ties_go_to_first() {
    let schema = UnionSchema::new(vec![
        string().min_length(9).into_schema_type(),
        string().min_length(7).into_schema_type(),
    ])
    .strategy(UnionStrategy::Best(ErrorScore::new(5).entry("string.too_short", 1)));

    let err = schema.validate(&s("abc")).unwrap_err();
    assert_eq!(err.context.code, "string.too_short");
    assert_eq!(err.context.details.min_length, Some(9));
}

#[test]
fn test_empty_union_fails_under_every_strategy() {
    let first = UnionSchema::new(Vec::<SchemaType>::new());
    let err = first.validate(&s("anything")).unwrap_err();
    assert_eq!(err.context.code, "union.no_match");
    assert_eq!(err.to_string(), "Value did not match any schema");

    let all = UnionSchema::new(Vec::<SchemaType>::new()).strategy(UnionStrategy::All);
    let err = all.validate(&n(1)).unwrap_err();
    assert_eq!(err.context.code, "union.no_match");

    let best = UnionSchema::new(Vec::<SchemaType>::new()).strategy(UnionStrategy::Best(
        ErrorScore::new(0),
    ));
    let err = best.validate(&Value::Null).unwrap_err();
    assert_eq!(err.context.code, "union.no_match");
}

#[test]
fn test_union_best_success_short_circuits() {
    let schema = UnionSchema::new(vec![
        number().into_schema_type(),
        string().to_uppercase().into_schema_type(),
    ])
    .strategy(UnionStrategy::Best(ErrorScore::new(1)));

    assert_eq!(schema.validate(&s("ab")).unwrap(), s("AB"));
}
