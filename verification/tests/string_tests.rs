use schema_valid::string;
use schema_valid::value::Value;

fn s(text: &str) -> Value {
    Value::String(text.to_string())
}

#[test]
fn test_string_length_validation() {
    let schema = string()
        .min_length(3)
        .max_length(5)
        .error_message("string.too_short", "Minimum length is {min_length}")
        .error_message("string.too_long", "Maximum length is {max_length}");

    assert!(schema.validate(&s("1234")).is_ok());

    let err = schema.validate(&s("12")).unwrap_err();
    assert_eq!(err.context.code, "string.too_short");
    assert_eq!(err.context.details.min_length, Some(3));
    assert!(err.to_string().contains("Minimum length is 3"));

    let err = schema.validate(&s("123456")).unwrap_err();
    assert_eq!(err.context.code, "string.too_long");
    assert_eq!(err.context.details.max_length, Some(5));
    assert!(err.to_string().contains("Maximum length is 5"));
}

#[test]
fn test_string_pattern_validation() {
    let schema = string().pattern(r"^[A-Z]+$").error_message(
        "string.pattern",
        "Must be uppercase letters only",
    );

    assert!(schema.validate(&s("ABC")).is_ok());

    let err = schema.validate(&s("abc")).unwrap_err();
    assert_eq!(err.context.code, "string.pattern");
    assert!(err.to_string().contains("Must be uppercase letters only"));
}

#[test]
fn test_string_email_validation() {
    let schema = string().email().error_message("string.email", "Invalid email address");

    assert!(schema.validate(&s("test@example.com")).is_ok());

    let err = schema.validate(&s("not-an-email")).unwrap_err();
    assert_eq!(err.context.code, "string.email");
    assert!(err.to_string().contains("Invalid email address"));
}

#[test]
fn test_string_optional() {
    let schema = string().min_length(3).optional();

    assert!(schema.validate(&s("test")).is_ok());
    assert!(schema.validate(&Value::Null).is_ok());
    assert!(schema.validate(&s("ab")).is_err());
}

#[test]
fn test_string_url_validation() {
    let schema = string().url();

    assert!(schema.validate(&s("https://example.com")).is_ok());
    assert!(schema.validate(&s("http://sub.domain.com/path?q=1")).is_ok());
    assert!(schema.validate(&s("not-a-url")).is_err());
}

#[test]
fn test_string_uuid_validation() {
    let schema = string().uuid();

    assert!(schema.validate(&s("550e8400-e29b-41d4-a716-446655440000")).is_ok());
    assert!(schema.validate(&s("not-a-uuid")).is_err());
}

#[test]
fn test_string_ip_validation() {
    let schema = string().ip();

    assert!(schema.validate(&s("192.168.1.1")).is_ok());
    assert!(schema.validate(&s("256.1.2.3")).is_err());
    assert!(schema.validate(&s("not-an-ip")).is_err());
}

#[test]
fn test_string_transformations() {
    let schema = string().trim().to_lowercase().email();

    assert_eq!(
        schema.validate(&s("  TEST@EXAMPLE.COM  ")).unwrap(),
        s("test@example.com")
    );

    let err = schema.validate(&s("  NOT-AN-EMAIL  ")).unwrap_err();
    assert_eq!(err.context.code, "string.email");
}

#[test]
fn test_string_transform_chain() {
    let schema = string().trim().to_uppercase().min_length(5);

    assert_eq!(schema.validate(&s("  hello  ")).unwrap(), s("HELLO"));

    let err = schema.validate(&s("  hi  ")).unwrap_err();
    assert_eq!(err.context.code, "string.too_short");
}

#[test]
fn test_string_validation() {
    let schema = string()
        .min_length(3)
        .max_length(10)
        .pattern(r"^[a-zA-Z]+$")
        .error_message("string.too_short", "String is too short, minimum length is {min_length}")
        .error_message("string.pattern", "String must contain only letters");

    assert!(schema.validate(&s("hello")).is_ok());
    assert!(schema.validate(&s("hi")).is_err());
    assert!(schema.validate(&s("toolongstring")).is_err());
    assert!(schema.validate(&s("123")).is_err());
}

#[test]
fn test_email_validation() {
    let schema = string().email().error_message("string.email", "Invalid email address format");

    assert!(schema.validate(&s("test@example.com")).is_ok());
    assert!(schema.validate(&s("invalid-email")).is_err());
}

#[test]
fn test_optional_string() {
    let schema = string().min_length(3).optional();

    assert!(schema.validate(&s("hello")).is_ok());
    assert!(schema.validate(&Value::Null).is_ok());
    assert!(schema.validate(&s("hi")).is_err());
}

#[test]
fn test_string_patterns() {
    let schema = string().url();
    assert!(schema.validate(&s("https://example.com")).is_ok());
    assert!(schema.validate(&s("not a url")).is_err());

    let schema = string().uuid();
    assert!(schema.validate(&s("550e8400-e29b-41d4-a716-446655440000")).is_ok());
    assert!(schema.validate(&s("not a uuid")).is_err());

    let schema = string().ip();
    assert!(schema.validate(&s("192.168.1.1")).is_ok());
    assert!(schema.validate(&s("not an ip")).is_err());
}

#[test]
fn test_error_context() {
    let schema = string().min_length(5).error_message(
        "string.too_short",
        "String is too short, minimum length is {min_length}",
    );

    let err = schema.validate(&s("hi")).unwrap_err();
    assert_eq!(err.context.code, "string.too_short");
    assert_eq!(err.context.details.min_length, Some(5));
    assert!(err.to_string().contains("minimum length is 5"));
}

#[test]
fn test_string_rejects_null_when_required() {
    let schema = string().min_length(1);
    let err = schema.validate(&Value::Null).unwrap_err();
    assert_eq!(err.context.code, "object.required");
}

#[test]
fn test_string_rejects_wrong_type() {
    let schema = string();
    let err = schema.validate(&Value::Bool(true)).unwrap_err();
    assert_eq!(err.context.code, "string.invalid_type");
    assert_eq!(err.context.details.expected_type.as_deref(), Some("string"));
    assert_eq!(err.context.details.actual_type.as_deref(), Some("boolean"));
}
