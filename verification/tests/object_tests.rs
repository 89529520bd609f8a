use schema_valid::{array, boolean, number, object, string};
use schema_valid::value::{Num, Value};

fn s(text: &str) -> Value {
    Value::String(text.to_string())
}

fn n(whole: i64) -> Value {
    Value::Number(Num::from_int(whole))
}

fn obj(fields: Vec<(&str, Value)>) -> Value {
    Value::Object(fields.into_iter().map(|(k, v)| (k.to_string(), v)).collect())
}

fn get<'a>(v: &'a Value, key: &str) -> &'a Value {
    match v {
        Value::Object(fields) => {
            &fields.iter().find(|(k, _)| k == key).expect("field present").1
        },
        _ => panic!("not an object"),
    }
}

#[test]
fn test_object_required_fields() {
    let schema = object().field("name", string()).field("age", number());

    assert!(schema.validate(&obj(vec![("name", s("John")), ("age", n(30))])).is_ok());

    let err = schema.validate(&obj(vec![("name", s("John"))])).unwrap_err();
    assert_eq!(err.context.code, "object.required");
    assert_eq!(err.context.path, "age");
    assert!(err.to_string().contains("Field 'age' is required"));
}

#[test]
fn test_object_optional_fields() {
    let schema = object().field("name", string()).optional_field("age", number());

    assert!(schema.validate(&obj(vec![("name", s("John")), ("age", n(30))])).is_ok());
    assert!(schema.validate(&obj(vec![("name", s("John"))])).is_ok());
    assert!(schema.validate(&obj(vec![("age", n(30))])).is_err());
}

#[test]
fn test_object_strict_mode() {
    let schema = object().field("name", string()).strict();

    assert!(schema.validate(&obj(vec![("name", s("John"))])).is_ok());

    let err = schema
        .validate(&obj(vec![("name", s("John")), ("unknown", s("field"))]))
        .unwrap_err();
    assert_eq!(err.context.code, "object.unknown_field");
    assert!(err.to_string().contains("Unknown field: unknown"));
}

#[test]
fn test_object_nested_validation() {
    let address_schema = object().field("street", string()).field("city", string());
    let schema = object().field("name", string()).field("address", address_schema);

    assert!(schema
        .validate(&obj(vec![
            ("name", s("John")),
            ("address", obj(vec![("street", s("123 Main St")), ("city", s("New York"))])),
        ]))
        .is_ok());

    let err = schema
        .validate(&obj(vec![
            ("name", s("John")),
            ("address", obj(vec![("street", s("123 Main St"))])),
        ]))
        .unwrap_err();
    assert_eq!(err.context.path, "address.city");
}

#[test]
fn test_object_optional() {
    let schema = object().field("name", string()).optional();

    assert!(schema.validate(&obj(vec![("name", s("John"))])).is_ok());
    assert!(schema.validate(&Value::Null).is_ok());
    assert!(schema.validate(&s("not an object")).is_err());
}

#[test]
fn test_object_type_validation() {
    let schema = object().field("name", string()).error_message(
        "object.invalid_type",
        "Must be an object",
    );

    let err = schema.validate(&s("not an object")).unwrap_err();
    assert_eq!(err.context.code, "object.invalid_type");
    assert!(err.to_string().contains("Must be an object"));
}

#[test]
fn test_object_validation() {
    let schema = object()
        .field("name", string().min_length(3))
        .field("age", number().min(Num::from_int(0)).max(Num::from_int(150)))
        .field("email", string().email())
        .field("tags", array(string()));

    let valid_data = obj(vec![
        ("name", s("John")),
        ("age", n(30)),
        ("email", s("john@example.com")),
        ("tags", Value::Array(vec![s("user"), s("admin")])),
    ]);

    let invalid_data = obj(vec![
        ("name", s("Jo")),
        ("age", n(-1)),
        ("email", s("invalid-email")),
        ("tags", Value::Array(vec![s("user"), n(123)])),
    ]);

    assert!(schema.validate(&valid_data).is_ok());
    assert!(schema.validate(&invalid_data).is_err());
}

#[test]
fn test_error_paths() {
    let schema = object().field(
        "user",
        object().field(
            "address",
            object().field(
                "zipcode",
                string().pattern(r"^\d{5}$").error_message(
                    "string.pattern",
                    "Invalid ZIP code format",
                ),
            ),
        ),
    );

    let invalid_data = obj(vec![(
        "user",
        obj(vec![("address", obj(vec![("zipcode", s("invalid"))]))]),
    )]);

    let err = schema.validate(&invalid_data).unwrap_err();
    assert!(err.to_string().contains("Invalid ZIP code format"));
    assert_eq!(err.context.path, "user.address.zipcode");
}

#[test]
fn test_object_open_mode_passthrough() {
    let schema = object().field("name", string()).open();

    let result = schema
        .validate(&obj(vec![("name", s("John")), ("extra", n(7))]))
        .unwrap();
    assert_eq!(get(&result, "name"), &s("John"));
    assert_eq!(get(&result, "extra"), &n(7));
}

#[test]
fn test_object_unknown_field_details() {
    let schema = object().field("name", string());

    let err = schema
        .validate(&obj(vec![("name", s("John")), ("nickname", s("JJ"))]))
        .unwrap_err();
    assert_eq!(err.context.code, "object.unknown_field");
    assert_eq!(err.context.details.field_name.as_deref(), Some("nickname"));
    assert_eq!(err.context.path, "nickname");
}

#[test]
fn test_empty_object() {
    let schema = object();
    assert!(schema.validate(&obj(vec![])).is_ok());
    assert!(schema.validate(&obj(vec![("name", s("John"))])).is_err());
}

#[test]
fn test_object_with_boolean_fields() {
    let schema = object().field("name", string()).field("is_active", boolean());

    assert!(schema
        .validate(&obj(vec![("name", s("John")), ("is_active", Value::Bool(true))]))
        .is_ok());
    assert!(schema
        .validate(&obj(vec![("name", s("John")), ("is_active", s("true"))]))
        .is_err());
}

#[test]
fn test_object_with_email_transform() {
    let schema = object()
        .field("email", string().trim().to_lowercase().email())
        .field("name", string().min_length(2));

    let result = schema
        .validate(&obj(vec![("email", s("  USER@EXAMPLE.COM  ")), ("name", s("John"))]))
        .unwrap();
    assert_eq!(get(&result, "email"), &s("user@example.com"));

    assert!(schema
        .validate(&obj(vec![("email", s("not-an-email")), ("name", s("John"))]))
        .is_err());
}

#[test]
fn test_object_returns_validated_fields() {
    let schema = object()
        .field("username", string().trim().to_lowercase())
        .optional_field("motto", string());

    let result = schema.validate(&obj(vec![("username", s("  JohnDoe  "))])).unwrap();
    assert_eq!(result, obj(vec![("username", s("johndoe"))]));
}

#[test]
fn test_simple_object() {
    let schema = object().field("name", string()).field("age", number());

    assert!(schema.validate(&obj(vec![("name", s("John")), ("age", n(30))])).is_ok());
    assert!(schema.validate(&obj(vec![("name", s("John"))])).is_err());
}

#[test]
fn test_optional_fields() {
    let schema = object()
        .field("name", string())
        .optional_field("age", number())
        .optional_field("email", string());

    assert!(schema.validate(&obj(vec![("name", s("John"))])).is_ok());
    assert!(schema
        .validate(&obj(vec![
            ("name", s("John")),
            ("age", n(30)),
            ("email", s("john@example.com")),
        ]))
        .is_ok());
    assert!(schema.validate(&obj(vec![("age", n(30))])).is_err());
}

#[test]
fn test_nested_objects() {
    let schema = object().field("name", string()).field(
        "address",
        object().field("street", string()).field("city", string()),
    );

    assert!(schema
        .validate(&obj(vec![
            ("name", s("John")),
            ("address", obj(vec![("street", s("123 Main St")), ("city", s("New York"))])),
        ]))
        .is_ok());
    assert!(schema
        .validate(&obj(vec![
            ("name", s("John")),
            ("address", obj(vec![("street", s("123 Main St"))])),
        ]))
        .is_err());
}

#[test]
fn test_complex_schema() {
    let schema = object()
        .field("name", string())
        .field("age", number())
        .optional_field("email", string())
        .field(
            "address",
            object()
                .field("street", string())
                .field("city", string())
                .optional_field("country", string())
                .optional_field("postal_code", string()),
        );

    assert!(schema
        .validate(&obj(vec![
            ("name", s("John")),
            ("age", n(30)),
            ("address", obj(vec![("street", s("123 Main St")), ("city", s("New York"))])),
        ]))
        .is_ok());

    assert!(schema
        .validate(&obj(vec![
            ("name", s("John")),
            ("age", n(30)),
            ("email", s("john@example.com")),
            (
                "address",
                obj(vec![
                    ("street", s("123 Main St")),
                    ("city", s("New York")),
                    ("country", s("USA")),
                    ("postal_code", s("10001")),
                ]),
            ),
        ]))
        .is_ok());
}

#[test]
fn test_object_with_error_messages() {
    let schema = object()
        .field(
            "name",
            string().trim().min_length(1).error_message("string.too_short", "Name cannot be empty"),
        )
        .field(
            "age",
            number()
                .min(Num::from_int(18))
                .error_message("number.min", "Must be at least 18 years old"),
        );

    let err = schema
        .validate(&obj(vec![("name", s("")), ("age", n(16))]))
        .unwrap_err();

    assert!(err.to_string().contains("Name cannot be empty"));
}
