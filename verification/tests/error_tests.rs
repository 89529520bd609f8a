use schema_valid::error::{ErrorCode, ValidationError};
use schema_valid::value::{Num, Value};

fn s(text: &str) -> Value {
    Value::String(text.to_string())
}

fn obj(fields: Vec<(&str, Value)>) -> Value {
    Value::Object(fields.into_iter().map(|(k, v)| (k.to_string(), v)).collect())
}

#[test]
fn test_error_code_display() {
    assert_eq!(ErrorCode::StringTooShort.code(), "string.too_short");
    assert_eq!(ErrorCode::InvalidEmail.code(), "string.email");
    assert_eq!(ErrorCode::NumberTooSmall.code(), "number.too_small");
    assert_eq!(ErrorCode::RequiredField.code(), "object.required");
}

#[test]
fn test_error_code_default_messages() {
    assert_eq!(ErrorCode::StringTooShort.default_message(), "String is too short");
    assert_eq!(ErrorCode::InvalidEmail.default_message(), "Invalid email format");
    assert_eq!(ErrorCode::NumberTooSmall.default_message(), "Number is too small");
}

#[test]
fn test_custom_error_code() {
    let error = ErrorCode::Custom("custom.error".to_string());
    assert_eq!(error.code(), "custom");
    assert_eq!(error.default_message(), "custom.error");
}

#[test]
fn test_string_length_error() {
    let error = ValidationError::new(ErrorCode::StringTooShort.code())
        .at("name")
        .with_min_length(3);

    let json = error.to_json();
    assert_eq!(
        json,
        obj(vec![(
            "context",
            obj(vec![
                ("code", s("string.too_short")),
                ("path", s("name")),
                ("message", s("String must be at least {min_length} characters long")),
                ("details", obj(vec![("min_length", Value::Number(Num::from_int(3)))])),
            ]),
        )])
    );
    assert_eq!(error.to_string(), "String must be at least 3 characters long");
}

#[test]
fn test_string_max_length_error() {
    let error = ValidationError::new(ErrorCode::StringTooLong.code())
        .at("description")
        .with_max_length(100);

    let json = error.to_json();
    assert_eq!(
        json,
        obj(vec![(
            "context",
            obj(vec![
                ("code", s("string.too_long")),
                ("path", s("description")),
                ("message", s("String must be at most {max_length} characters long")),
                ("details", obj(vec![("max_length", Value::Number(Num::from_int(100)))])),
            ]),
        )])
    );
    assert_eq!(error.to_string(), "String must be at most 100 characters long");
}

#[test]
fn test_invalid_email_error() {
    let error = ValidationError::new(ErrorCode::InvalidEmail.code()).at("email");

    let json = error.to_json();
    assert_eq!(
        json,
        obj(vec![(
            "context",
            obj(vec![
                ("code", s("string.email")),
                ("path", s("email")),
                ("message", s("Invalid email address")),
            ]),
        )])
    );
    assert_eq!(error.to_string(), "Invalid email address");
}

#[test]
fn test_pattern_mismatch_error() {
    let error = ValidationError::new(ErrorCode::PatternMismatch.code())
        .at("phone")
        .with_pattern(r"^\+\d{1,3}-\d{3}-\d{3}-\d{4}$");

    let json = error.to_json();
    assert_eq!(
        json,
        obj(vec![(
            "context",
            obj(vec![
                ("code", s("string.pattern")),
                ("path", s("phone")),
                ("message", s("String must match pattern: {pattern}")),
                ("details", obj(vec![("pattern", s(r"^\+\d{1,3}-\d{3}-\d{3}-\d{4}$"))])),
            ]),
        )])
    );
    assert_eq!(
        error.to_string(),
        "String must match pattern: ^\\+\\d{1,3}-\\d{3}-\\d{3}-\\d{4}$"
    );
}

#[test]
fn test_number_range_error() {
    let error = ValidationError::new(ErrorCode::NumberTooSmall.code())
        .at("age")
        .with_min(Num::from_int(0));

    let json = error.to_json();
    assert_eq!(
        json,
        obj(vec![(
            "context",
            obj(vec![
                ("code", s("number.too_small")),
                ("path", s("age")),
                ("message", s("Number must be greater than or equal to {min_value}")),
                ("details", obj(vec![("min_value", Value::Number(Num::from_int(0)))])),
            ]),
        )])
    );
    assert_eq!(error.to_string(), "Number must be greater than or equal to 0");

    let error = ValidationError::new(ErrorCode::NumberTooLarge.code())
        .at("age")
        .with_max(Num::from_int(150));

    let json = error.to_json();
    assert_eq!(
        json,
        obj(vec![(
            "context",
            obj(vec![
                ("code", s("number.too_large")),
                ("path", s("age")),
                ("message", s("Number must be less than or equal to {max_value}")),
                ("details", obj(vec![("max_value", Value::Number(Num::from_int(150)))])),
            ]),
        )])
    );
    assert_eq!(error.to_string(), "Number must be less than or equal to 150");
}

#[test]
fn test_type_mismatch_error() {
    let error = ValidationError::new(ErrorCode::InvalidType.code())
        .at("age")
        .with_type_info("number", "string");

    let json = error.to_json();
    assert_eq!(
        json,
        obj(vec![(
            "context",
            obj(vec![
                ("code", s("object.invalid_type")),
                ("path", s("age")),
                ("message", s("Expected {expected_type}, got {actual_type}")),
                (
                    "details",
                    obj(vec![("expected_type", s("number")), ("actual_type", s("string"))]),
                ),
            ]),
        )])
    );
    assert_eq!(error.to_string(), "Expected number, got string");
}

#[test]
fn test_unknown_field_error() {
    let error = ValidationError::new(ErrorCode::UnknownField.code())
        .at("unknown_field")
        .with_field_name("unknown_field");

    let json = error.to_json();
    assert_eq!(
        json,
        obj(vec![(
            "context",
            obj(vec![
                ("code", s("object.unknown_field")),
                ("path", s("unknown_field")),
                ("message", s("Unknown field: {field_name}")),
                ("details", obj(vec![("field_name", s("unknown_field"))])),
            ]),
        )])
    );
    assert_eq!(error.to_string(), "Unknown field: unknown_field");
}

#[test]
fn test_nested_path_error() {
    let error = ValidationError::new(ErrorCode::RequiredField.code()).at("address.street");

    let json = error.to_json();
    assert_eq!(
        json,
        obj(vec![(
            "context",
            obj(vec![
                ("code", s("object.required")),
                ("path", s("address.street")),
                ("message", s("Field '{field_name}' is required")),
            ]),
        )])
    );
}

#[test]
fn test_custom_message() {
    let error = ValidationError::new(ErrorCode::StringTooShort.code())
        .at("name")
        .message("Name is too short")
        .with_min_length(3);

    let json = error.to_json();
    assert_eq!(
        json,
        obj(vec![(
            "context",
            obj(vec![
                ("code", s("string.too_short")),
                ("path", s("name")),
                ("message", s("Name is too short")),
                ("details", obj(vec![("min_length", Value::Number(Num::from_int(3)))])),
            ]),
        )])
    );
}

#[test]
fn test_custom_error() {
    let error = ValidationError::new(ErrorCode::Custom("custom.validation.error".to_string()).code())
        .at("field")
        .message("Custom validation failed");

    let json = error.to_json();
    assert_eq!(
        json,
        obj(vec![(
            "context",
            obj(vec![
                ("code", s("custom")),
                ("path", s("field")),
                ("message", s("Custom validation failed")),
            ]),
        )])
    );
}

#[test]
fn test_multiple_details() {
    let error = ValidationError::new(ErrorCode::Custom("validation.error".to_string()).code())
        .at("field")
        .with_min_length(3)
        .with_max_length(10)
        .with_pattern(r"\d+")
        .with_min(Num::from_int(0))
        .with_max(Num::from_int(100))
        .with_type_info("string", "number")
        .with_field_name("test_field");

    let json = error.to_json();
    assert_eq!(
        json,
        obj(vec![(
            "context",
            obj(vec![
                ("code", s("custom")),
                ("path", s("field")),
                ("message", s("Validation error")),
                (
                    "details",
                    obj(vec![
                        ("min_length", Value::Number(Num::from_int(3))),
                        ("max_length", Value::Number(Num::from_int(10))),
                        ("min_value", Value::Number(Num::from_int(0))),
                        ("max_value", Value::Number(Num::from_int(100))),
                        ("pattern", s(r"\d+")),
                        ("expected_type", s("string")),
                        ("actual_type", s("number")),
                        ("field_name", s("test_field")),
                    ]),
                ),
            ]),
        )])
    );
}

#[test]
fn test_empty_details() {
    let error = ValidationError::new(ErrorCode::RequiredField.code()).at("field");

    let json = error.to_json();
    assert_eq!(
        json,
        obj(vec![(
            "context",
            obj(vec![
                ("code", s("object.required")),
                ("path", s("field")),
                ("message", s("Field '{field_name}' is required")),
            ]),
        )])
    );
}

#[test]
fn test_error_display() {
    let error = ValidationError::new(ErrorCode::StringTooShort.code())
        .at("name")
        .with_min_length(3);

    assert_eq!(error.to_string(), "String must be at least 3 characters long");

    let error = ValidationError::new(ErrorCode::StringTooShort.code())
        .at("name")
        .message("Custom error message");

    assert_eq!(error.to_string(), "Custom error message");
}

#[test]
fn test_error_path_prefix() {
    let error = ValidationError::new("test")
        .at("field")
        .with_path_prefix("user")
        .with_path_prefix("data");

    assert_eq!(error.context.path, "data.user.field");
}

#[test]
fn test_format_message_records_base() {
    let mut error = ValidationError::new(ErrorCode::StringTooShort.code()).with_min_length(4);
    let rendered = error.format_message();
    assert_eq!(rendered, "String must be at least 4 characters long");
    assert_eq!(
        error.context.message.as_deref(),
        Some("String must be at least {min_length} characters long")
    );
}
