use schema_valid::{array, number, object, string};
use schema_valid::value::{Num, Value};

fn s(text: &str) -> Value {
    Value::String(text.to_string())
}

fn n(whole: i64) -> Value {
    Value::Number(Num::from_int(whole))
}

fn obj(fields: Vec<(&str, Value)>) -> Value {
    Value::Object(fields.into_iter().map(|(k, v)| (k.to_string(), v)).collect())
}

#[test]
fn test_valid_string_within_bounds_accepted() {
    let schema = string().min_length(3).max_length(6).pattern("^[a-z]+$");
    assert_eq!(schema.validate(&s("abcd")).unwrap(), s("abcd"));
}

#[test]
fn test_number_below_min_reports_bound() {
    let schema = number().min(Num::from_int(5));
    let err = schema.validate(&n(3)).unwrap_err();
    assert_eq!(err.context.code, "number.min");
    assert_eq!(err.context.details.min_value, Some(Num::from_int(5)));
}

#[test]
fn test_string_validation_idempotent() {
    let schema = string().trim().to_lowercase().min_length(2);
    let first = schema.validate(&s("  AbC  ")).unwrap();
    assert_eq!(first, s("abc"));
    let second = schema.validate(&first).unwrap();
    assert_eq!(second, first);
}

#[test]
fn test_object_validation_idempotent() {
    let schema = object()
        .field("name", string().trim().to_uppercase())
        .optional_field("age", number().integer())
        .open();
    let input = obj(vec![("name", s(" ada ")), ("age", n(36)), ("extra", s("kept"))]);
    let first = schema.validate(&input).unwrap();
    assert_eq!(
        first,
        obj(vec![("name", s("ADA")), ("age", n(36)), ("extra", s("kept"))])
    );
    let second = schema.validate(&first).unwrap();
    assert_eq!(second, first);
}

#[test]
fn test_array_validation_idempotent() {
    let schema = array(string().trim());
    let first = schema.validate(&Value::Array(vec![s(" a "), s("b ")])).unwrap();
    assert_eq!(first, Value::Array(vec![s("a"), s("b")]));
    let second = schema.validate(&first).unwrap();
    assert_eq!(second, first);
}

#[test]
fn test_all_union_validation_idempotent() {
    let schema = schema_valid::schema::UnionSchema::new(vec![
        schema_valid::schema::Schema::into_schema_type(string().min_length(2)),
        schema_valid::schema::Schema::into_schema_type(string().max_length(10)),
    ])
    .strategy(schema_valid::schema::UnionStrategy::All);
    let first = schema.validate(&s(" ab ")).unwrap();
    assert_eq!(first, s(" ab "));
    let second = schema.validate(&first).unwrap();
    assert_eq!(second, first);
}

#[test]
fn test_nested_composition_path() {
    let schema = object().field(
        "user",
        object().field("address", object().field("zipcode", string().pattern(r"^\d{5}$"))),
    );
    let err = schema
        .validate(&obj(vec![(
            "user",
            obj(vec![("address", obj(vec![("zipcode", s("bad"))]))]),
        )]))
        .unwrap_err();
    assert_eq!(err.context.path, "user.address.zipcode");
    assert_eq!(err.context.code, "string.pattern");
}

#[test]
fn test_array_index_path_prefix() {
    let schema = array(object().field("city", string()));
    let err = schema
        .validate(&Value::Array(vec![
            obj(vec![("city", s("Rome"))]),
            obj(vec![]),
        ]))
        .unwrap_err();
    assert_eq!(err.context.path, "1.city");
}

#[test]
fn test_pattern_match_depends_on_text() {
    // a constant-result matcher could not satisfy both assertions
    let schema = string().pattern("^a$");
    assert!(schema.validate(&s("a")).is_ok());
    assert!(schema.validate(&s("b")).is_err());
}

#[test]
fn test_coercion_bound_edges() {
    let schema = number().coerce().min(Num::from_int(0)).max(Num::from_int(100));
    assert!(schema.validate(&s("0")).is_ok());
    assert!(schema.validate(&s("100")).is_ok());
    assert!(schema.validate(&s("100.000001")).is_err());
    assert!(schema.validate(&s("-0.000001")).is_err());
}

#[test]
fn test_equal_bounds_accept_exact_length() {
    let schema = string().min_length(4).max_length(4);
    assert!(schema.validate(&s("abcd")).is_ok());
    assert!(schema.validate(&s("abc")).is_err());
    assert!(schema.validate(&s("abcde")).is_err());
}

#[test]
fn test_redeclared_field_takes_last_schema() {
    let schema = object().field("x", string()).optional_field("x", number());
    assert!(schema.validate(&obj(vec![("x", n(1))])).is_ok());
    assert!(schema.validate(&obj(vec![])).is_ok());
    assert!(schema.validate(&obj(vec![("x", s("text"))])).is_err());
}
