use schema_valid::boolean;
use schema_valid::value::Value;

#[test]
fn test_boolean_validation() {
    let schema = boolean().error_message("boolean.invalid_type", "Must be a boolean value");

    assert!(schema.validate(&Value::Bool(true)).is_ok());
    assert!(schema.validate(&Value::Bool(false)).is_ok());

    let err = schema.validate(&Value::String("true".to_string())).unwrap_err();
    assert_eq!(err.context.code, "boolean.invalid_type");
    assert!(err.to_string().contains("Must be a boolean value"));
}

#[test]
fn test_boolean_optional() {
    let schema = boolean().optional();

    assert!(schema.validate(&Value::Bool(true)).is_ok());
    assert!(schema.validate(&Value::Null).is_ok());
    assert!(schema.validate(&Value::String("true".to_string())).is_err());
}

#[test]
fn test_boolean_required() {
    let schema = boolean().error_message("boolean.required", "This field is required");

    let err = schema.validate(&Value::Null).unwrap_err();
    assert_eq!(err.context.code, "boolean.required");
    assert!(err.to_string().contains("This field is required"));
}
