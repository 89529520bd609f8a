//! The structured validation failure: a machine-readable code, a
//! dot-separated path from the validation root, an optional human message,
//! and a bag of typed detail fields.

use vstd::prelude::*;
use crate::text::{
    dec_digits, render_micros, replace_seq, u64_to_string, num_to_string, replace_str,
};
use crate::value::{Num, Val, Value};

verus! {

/// Stable identifiers for the built-in failure kinds.
#[derive(Debug, Clone, PartialEq, Eq, Hash)]
pub enum ErrorCode {
    StringTooShort,
    StringTooLong,
    InvalidEmail,
    PatternMismatch,
    NumberTooSmall,
    NumberTooLarge,
    InvalidNumber,
    NotInteger,
    ArrayTooShort,
    ArrayTooLong,
    InvalidArrayItem,
    RequiredField,
    UnknownField,
    InvalidType,
    Custom(String),
}

impl ErrorCode {
    pub open spec fn code_spec(self) -> Seq<char> {
        match self {
            ErrorCode::StringTooShort => "string.too_short"@,
            ErrorCode::StringTooLong => "string.too_long"@,
            ErrorCode::InvalidEmail => "string.email"@,
            ErrorCode::PatternMismatch => "string.pattern"@,
            ErrorCode::NumberTooSmall => "number.too_small"@,
            ErrorCode::NumberTooLarge => "number.too_large"@,
            ErrorCode::InvalidNumber => "number.invalid"@,
            ErrorCode::NotInteger => "number.integer"@,
            ErrorCode::ArrayTooShort => "array.min_items"@,
            ErrorCode::ArrayTooLong => "array.max_items"@,
            ErrorCode::InvalidArrayItem => "array.item"@,
            ErrorCode::RequiredField => "object.required"@,
            ErrorCode::UnknownField => "object.unknown_field"@,
            ErrorCode::InvalidType => "object.invalid_type"@,
            ErrorCode::Custom(_) => "custom"@,
        }
    }

    /// The stable, machine-readable form of the code.
    pub fn code(&self) -> (r: &'static str)
        ensures
            r@ == self.code_spec(),
    {
        match self {
            ErrorCode::StringTooShort => "string.too_short",
            ErrorCode::StringTooLong => "string.too_long",
            ErrorCode::InvalidEmail => "string.email",
            ErrorCode::PatternMismatch => "string.pattern",
            ErrorCode::NumberTooSmall => "number.too_small",
            ErrorCode::NumberTooLarge => "number.too_large",
            ErrorCode::InvalidNumber => "number.invalid",
            ErrorCode::NotInteger => "number.integer",
            ErrorCode::ArrayTooShort => "array.min_items",
            ErrorCode::ArrayTooLong => "array.max_items",
            ErrorCode::InvalidArrayItem => "array.item",
            ErrorCode::RequiredField => "object.required",
            ErrorCode::UnknownField => "object.unknown_field",
            ErrorCode::InvalidType => "object.invalid_type",
            ErrorCode::Custom(_) => "custom",
        }
    }

    pub open spec fn default_message_spec(self) -> Seq<char> {
        match self {
            ErrorCode::StringTooShort => "String is too short"@,
            ErrorCode::StringTooLong => "String is too long"@,
            ErrorCode::InvalidEmail => "Invalid email format"@,
            ErrorCode::PatternMismatch => "String does not match pattern"@,
            ErrorCode::NumberTooSmall => "Number is too small"@,
            ErrorCode::NumberTooLarge => "Number is too large"@,
            ErrorCode::InvalidNumber => "Invalid number"@,
            ErrorCode::NotInteger => "Number is not an integer"@,
            ErrorCode::ArrayTooShort => "Array is too short"@,
            ErrorCode::ArrayTooLong => "Array is too long"@,
            ErrorCode::InvalidArrayItem => "Invalid array item"@,
            ErrorCode::RequiredField => "Field is required"@,
            ErrorCode::UnknownField => "Unknown field"@,
            ErrorCode::InvalidType => "Invalid type"@,
            ErrorCode::Custom(msg) => msg@,
        }
    }

    /// A short human-readable description of the failure kind.
    pub fn default_message(&self) -> (r: String)
        ensures
            r@ == self.default_message_spec(),
    {
        match self {
            ErrorCode::StringTooShort => "String is too short".to_owned(),
            ErrorCode::StringTooLong => "String is too long".to_owned(),
            ErrorCode::InvalidEmail => "Invalid email format".to_owned(),
            ErrorCode::PatternMismatch => "String does not match pattern".to_owned(),
            ErrorCode::NumberTooSmall => "Number is too small".to_owned(),
            ErrorCode::NumberTooLarge => "Number is too large".to_owned(),
            ErrorCode::InvalidNumber => "Invalid number".to_owned(),
            ErrorCode::NotInteger => "Number is not an integer".to_owned(),
            ErrorCode::ArrayTooShort => "Array is too short".to_owned(),
            ErrorCode::ArrayTooLong => "Array is too long".to_owned(),
            ErrorCode::InvalidArrayItem => "Invalid array item".to_owned(),
            ErrorCode::RequiredField => "Field is required".to_owned(),
            ErrorCode::UnknownField => "Unknown field".to_owned(),
            ErrorCode::InvalidType => "Invalid type".to_owned(),
            ErrorCode::Custom(msg) => msg.clone(),
        }
    }
}

/// Ghost mirror of the detail bag.
pub struct DetailsV {
    pub min_length: Option<int>,
    pub max_length: Option<int>,
    pub min_value: Option<int>,
    pub max_value: Option<int>,
    pub pattern: Option<Seq<char>>,
    pub expected_type: Option<Seq<char>>,
    pub actual_type: Option<Seq<char>>,
    pub field_name: Option<Seq<char>>,
}

/// Numeric bounds in the detail bag small enough to render.
pub open spec fn details_nums_wf(d: DetailsV) -> bool {
    &&& (d.min_value matches Some(v) ==> -9_000_000_000_000_000_000 <= v
        <= 9_000_000_000_000_000_000)
    &&& (d.max_value matches Some(v) ==> -9_000_000_000_000_000_000 <= v
        <= 9_000_000_000_000_000_000)
}

/// The detail bag with every field unset.
pub open spec fn no_details() -> DetailsV {
    DetailsV {
        min_length: None,
        max_length: None,
        min_value: None,
        max_value: None,
        pattern: None,
        expected_type: None,
        actual_type: None,
        field_name: None,
    }
}

pub open spec fn details_empty(d: DetailsV) -> bool {
    &&& d.min_length is None
    &&& d.max_length is None
    &&& d.min_value is None
    &&& d.max_value is None
    &&& d.pattern is None
    &&& d.expected_type is None
    &&& d.actual_type is None
    &&& d.field_name is None
}

/// Ghost mirror of a validation error.
pub struct ErrV {
    pub code: Seq<char>,
    pub path: Seq<char>,
    pub message: Option<Seq<char>>,
    pub details: DetailsV,
}

/// The fixed set of optional, typed detail fields an error may carry.
/// Exactly the fields relevant to the failing code are populated.
#[derive(Debug)]
pub struct ValidationDetails {
    pub min_length: Option<usize>,
    pub max_length: Option<usize>,
    pub min_value: Option<Num>,
    pub max_value: Option<Num>,
    pub pattern: Option<String>,
    pub expected_type: Option<String>,
    pub actual_type: Option<String>,
    pub field_name: Option<String>,
}

impl ValidationDetails {
    pub open spec fn dv(self) -> DetailsV {
        DetailsV {
            min_length: match self.min_length {
                Some(v) => Some(v as int),
                None => None,
            },
            max_length: match self.max_length {
                Some(v) => Some(v as int),
                None => None,
            },
            min_value: match self.min_value {
                Some(v) => Some(v.micros as int),
                None => None,
            },
            max_value: match self.max_value {
                Some(v) => Some(v.micros as int),
                None => None,
            },
            pattern: match self.pattern {
                Some(v) => Some(v@),
                None => None,
            },
            expected_type: match self.expected_type {
                Some(v) => Some(v@),
                None => None,
            },
            actual_type: match self.actual_type {
                Some(v) => Some(v@),
                None => None,
            },
            field_name: match self.field_name {
                Some(v) => Some(v@),
                None => None,
            },
        }
    }

    /// True when no detail field is set: the error carries no parametric
    /// context.
    pub fn is_empty(&self) -> (r: bool)
        ensures
            r == details_empty(self.dv()),
    {
        self.min_length.is_none() && self.max_length.is_none() && self.min_value.is_none()
            && self.max_value.is_none() && self.pattern.is_none() && self.expected_type.is_none()
            && self.actual_type.is_none() && self.field_name.is_none()
    }
}

impl Default for ValidationDetails {
    /// A detail bag with every field unset.
    fn default() -> (r: Self)
        ensures
            r.dv() == no_details(),
    {
        ValidationDetails {
            min_length: None,
            max_length: None,
            min_value: None,
            max_value: None,
            pattern: None,
            expected_type: None,
            actual_type: None,
            field_name: None,
        }
    }
}

/// The location and classification of a failure.
#[derive(Debug)]
pub struct ValidationErrorContext {
    pub code: String,
    pub path: String,
    pub message: Option<String>,
    pub details: ValidationDetails,
}

/// A structured validation failure.
#[derive(Debug)]
pub struct ValidationError {
    pub context: ValidationErrorContext,
}

/// The default message template carried by each error code; placeholders in
/// braces are substituted from the detail bag when the error is displayed.
pub open spec fn default_template(code: Seq<char>) -> Seq<char> {
    if code == "string.too_short"@ {
        "String must be at least {min_length} characters long"@
    } else if code == "string.too_long"@ {
        "String must be at most {max_length} characters long"@
    } else if code == "string.email"@ {
        "Invalid email address"@
    } else if code == "string.pattern"@ {
        "String must match pattern: {pattern}"@
    } else if code == "number.too_small"@ {
        "Number must be greater than or equal to {min_value}"@
    } else if code == "number.too_large"@ {
        "Number must be less than or equal to {max_value}"@
    } else if code == "object.required"@ {
        "Field '{field_name}' is required"@
    } else if code == "object.unknown_field"@ {
        "Unknown field: {field_name}"@
    } else if code == "object.invalid_type"@ {
        "Expected {expected_type}, got {actual_type}"@
    } else if code == "array.min_items"@ {
        "Must have at least {min_items} items"@
    } else if code == "array.max_items"@ {
        "Must have at most {max_items} items"@
    } else if code == "array.type"@ {
        "Must be an array"@
    } else if code == "boolean.type"@ {
        "Must be a boolean value"@
    } else if code == "number.type"@ {
        "Must be a number"@
    } else if code == "number.integer"@ {
        "Must be an integer"@
    } else if code == "object.type"@ {
        "Must be an object"@
    } else {
        "Validation error"@
    }
}

fn default_template_exec(code: &str) -> (r: &'static str)
    ensures
        r@ == default_template(code@),
{
    if str_eq(code, "string.too_short") {
        "String must be at least {min_length} characters long"
    } else if str_eq(code, "string.too_long") {
        "String must be at most {max_length} characters long"
    } else if str_eq(code, "string.email") {
        "Invalid email address"
    } else if str_eq(code, "string.pattern") {
        "String must match pattern: {pattern}"
    } else if str_eq(code, "number.too_small") {
        "Number must be greater than or equal to {min_value}"
    } else if str_eq(code, "number.too_large") {
        "Number must be less than or equal to {max_value}"
    } else if str_eq(code, "object.required") {
        "Field '{field_name}' is required"
    } else if str_eq(code, "object.unknown_field") {
        "Unknown field: {field_name}"
    } else if str_eq(code, "object.invalid_type") {
        "Expected {expected_type}, got {actual_type}"
    } else if str_eq(code, "array.min_items") {
        "Must have at least {min_items} items"
    } else if str_eq(code, "array.max_items") {
        "Must have at most {max_items} items"
    } else if str_eq(code, "array.type") {
        "Must be an array"
    } else if str_eq(code, "boolean.type") {
        "Must be a boolean value"
    } else if str_eq(code, "number.type") {
        "Must be a number"
    } else if str_eq(code, "number.integer") {
        "Must be an integer"
    } else if str_eq(code, "object.type") {
        "Must be an object"
    } else {
        "Validation error"
    }
}

/// Character-for-character equality of two string slices.
pub fn str_eq(a: &str, b: &str) -> (r: bool)
    ensures
        r == (a@ == b@),
{
    a.to_owned() == b.to_owned()
}

impl ValidationError {
    pub open spec fn dv(self) -> ErrV {
        ErrV {
            code: self.context.code@,
            path: self.context.path@,
            message: match self.context.message {
                Some(m) => Some(m@),
                None => None,
            },
            details: self.context.details.dv(),
        }
    }

    /// A fresh error for the given code, at the root path, carrying the
    /// code's default message template and no details.
    pub fn new(code: &str) -> (r: ValidationError)
        ensures
            r.dv() == (ErrV {
                code: code@,
                path: Seq::empty(),
                message: Some(default_template(code@)),
                details: no_details(),
            }),
    {
        let template = default_template_exec(code);
        ValidationError {
            context: ValidationErrorContext {
                code: code.to_owned(),
                path: String::new(),
                message: Some(template.to_owned()),
                details: ValidationDetails::default(),
            },
        }
    }

    /// The same error, located at the given path.
    pub fn at(self, path: &str) -> (r: ValidationError)
        ensures
            r.dv() == (ErrV { path: path@, ..self.dv() }),
    {
        ValidationError {
            context: ValidationErrorContext { path: path.to_owned(), ..self.context },
        }
    }

    /// The same error with its human message replaced.
    pub fn message(self, message: &str) -> (r: ValidationError)
        ensures
            r.dv() == (ErrV { message: Some(message@), ..self.dv() }),
    {
        ValidationError {
            context: ValidationErrorContext {
                message: Some(message.to_owned()),
                ..self.context
            },
        }
    }

    /// The same error with its human message replaced by an owned string.
    pub fn message_owned(self, message: String) -> (r: ValidationError)
        ensures
            r.dv() == (ErrV { message: Some(message@), ..self.dv() }),
    {
        ValidationError {
            context: ValidationErrorContext { message: Some(message), ..self.context },
        }
    }

    /// The same error with its human message replaced.
    pub fn with_message(self, message: &str) -> (r: ValidationError)
        ensures
            r.dv() == (ErrV { message: Some(message@), ..self.dv() }),
    {
        self.message(message)
    }

    /// Prepends an enclosing field name or index to the error's path, with a
    /// dot when the error already carries a path.
    pub fn with_path_prefix(self, prefix: &str) -> (r: ValidationError)
        ensures
            r.dv() == (ErrV { path: spec_prefix_path(prefix@, self.dv().path), ..self.dv() }),
    {
        if self.context.path.as_str().unicode_len() == 0 {
            let r = ValidationError {
                context: ValidationErrorContext { path: prefix.to_owned(), ..self.context },
            };
            r
        } else {
            let mut path = prefix.to_owned();
            path.append(".");
            path.append(self.context.path.as_str());
            proof {
                reveal_strlit(".");
                assert(path@ =~= prefix@ + seq!['.'] + self.context.path@);
            }
            ValidationError {
                context: ValidationErrorContext { path, ..self.context },
            }
        }
    }

    /// The same error with the numeric lower bound recorded.
    pub fn with_min(self, min: Num) -> (r: ValidationError)
        ensures
            r.dv() == (ErrV {
                details: DetailsV { min_value: Some(min.micros as int), ..self.dv().details },
                ..self.dv()
            }),
    {
        ValidationError {
            context: ValidationErrorContext {
                details: ValidationDetails { min_value: Some(min), ..self.context.details },
                ..self.context
            },
        }
    }

    /// The same error with the numeric upper bound recorded.
    pub fn with_max(self, max: Num) -> (r: ValidationError)
        ensures
            r.dv() == (ErrV {
                details: DetailsV { max_value: Some(max.micros as int), ..self.dv().details },
                ..self.dv()
            }),
    {
        ValidationError {
            context: ValidationErrorContext {
                details: ValidationDetails { max_value: Some(max), ..self.context.details },
                ..self.context
            },
        }
    }

    /// The same error with the length lower bound recorded.
    pub fn with_min_length(self, min_length: usize) -> (r: ValidationError)
        ensures
            r.dv() == (ErrV {
                details: DetailsV { min_length: Some(min_length as int), ..self.dv().details },
                ..self.dv()
            }),
    {
        ValidationError {
            context: ValidationErrorContext {
                details: ValidationDetails {
                    min_length: Some(min_length),
                    ..self.context.details
                },
                ..self.context
            },
        }
    }

    /// The same error with the length upper bound recorded.
    pub fn with_max_length(self, max_length: usize) -> (r: ValidationError)
        ensures
            r.dv() == (ErrV {
                details: DetailsV { max_length: Some(max_length as int), ..self.dv().details },
                ..self.dv()
            }),
    {
        ValidationError {
            context: ValidationErrorContext {
                details: ValidationDetails {
                    max_length: Some(max_length),
                    ..self.context.details
                },
                ..self.context
            },
        }
    }

    /// The same error with the violated pattern recorded.
    pub fn with_pattern(self, pattern: &str) -> (r: ValidationError)
        ensures
            r.dv() == (ErrV {
                details: DetailsV { pattern: Some(pattern@), ..self.dv().details },
                ..self.dv()
            }),
    {
        ValidationError {
            context: ValidationErrorContext {
                details: ValidationDetails {
                    pattern: Some(pattern.to_owned()),
                    ..self.context.details
                },
                ..self.context
            },
        }
    }

    /// The same error with the offending field name recorded.
    pub fn with_field_name(self, field_name: &str) -> (r: ValidationError)
        ensures
            r.dv() == (ErrV {
                details: DetailsV { field_name: Some(field_name@), ..self.dv().details },
                ..self.dv()
            }),
    {
        ValidationError {
            context: ValidationErrorContext {
                details: ValidationDetails {
                    field_name: Some(field_name.to_owned()),
                    ..self.context.details
                },
                ..self.context
            },
        }
    }

    /// The same error with the expected and the actual type name recorded.
    pub fn with_type_info(self, expected: &str, actual: &str) -> (r: ValidationError)
        ensures
            r.dv() == (ErrV {
                details: DetailsV {
                    expected_type: Some(expected@),
                    actual_type: Some(actual@),
                    ..self.dv().details
                },
                ..self.dv()
            }),
    {
        ValidationError {
            context: ValidationErrorContext {
                details: ValidationDetails {
                    expected_type: Some(expected.to_owned()),
                    actual_type: Some(actual.to_owned()),
                    ..self.context.details
                },
                ..self.context
            },
        }
    }
}

/// A child error's path prefixed with the enclosing field name or index.
pub open spec fn spec_prefix_path(prefix: Seq<char>, path: Seq<char>) -> Seq<char> {
    if path.len() == 0 {
        prefix
    } else {
        prefix + seq!['.'] + path
    }
}

/// The message with each brace placeholder replaced by the matching detail
/// field, in the fixed substitution order.
pub open spec fn spec_substitute(msg: Seq<char>, d: DetailsV) -> Seq<char> {
    let m1 = match d.min_length {
        Some(v) => replace_seq(
            replace_seq(msg, "{min_length}"@, dec_digits(v)),
            "{min_items}"@,
            dec_digits(v),
        ),
        None => msg,
    };
    let m2 = match d.max_length {
        Some(v) => replace_seq(
            replace_seq(m1, "{max_length}"@, dec_digits(v)),
            "{max_items}"@,
            dec_digits(v),
        ),
        None => m1,
    };
    let m3 = match d.min_value {
        Some(v) => replace_seq(
            replace_seq(m2, "{min_value}"@, render_micros(v)),
            "{min}"@,
            render_micros(v),
        ),
        None => m2,
    };
    let m4 = match d.max_value {
        Some(v) => replace_seq(
            replace_seq(m3, "{max_value}"@, render_micros(v)),
            "{max}"@,
            render_micros(v),
        ),
        None => m3,
    };
    let m5 = match d.pattern {
        Some(p) => replace_seq(m4, "{pattern}"@, p),
        None => m4,
    };
    let m6 = match d.field_name {
        Some(f) => replace_seq(replace_seq(m5, "{field_name}"@, f), "{field}"@, f),
        None => m5,
    };
    let m7 = if d.expected_type is Some && d.actual_type is Some {
        replace_seq(
            replace_seq(m6, "{expected_type}"@, d.expected_type->0),
            "{actual_type}"@,
            d.actual_type->0,
        )
    } else {
        m6
    };
    m7
}

/// The text an error displays: its message, or the default template for its
/// code, with the placeholders substituted from the detail bag.
pub open spec fn render_message(e: ErrV) -> Seq<char> {
    let base = match e.message {
        Some(m) => m,
        None => default_template(e.code),
    };
    spec_substitute(base, e.details)
}

fn substitute_exec(msg: &str, d: &ValidationDetails) -> (r: String)
    requires
        details_nums_wf(d.dv()),
    ensures
        r@ == spec_substitute(msg@, d.dv()),
{
    proof {
        reveal_strlit("{min_length}");
        reveal_strlit("{min_items}");
        reveal_strlit("{max_length}");
        reveal_strlit("{max_items}");
        reveal_strlit("{min_value}");
        reveal_strlit("{min}");
        reveal_strlit("{max_value}");
        reveal_strlit("{max}");
        reveal_strlit("{pattern}");
        reveal_strlit("{field_name}");
        reveal_strlit("{field}");
        reveal_strlit("{expected_type}");
        reveal_strlit("{actual_type}");
    }
    let m1 = match d.min_length {
        Some(v) => {
            let digits = u64_to_string(v as u64);
            let first = replace_str(msg, "{min_length}", digits.as_str());
            replace_str(first.as_str(), "{min_items}", digits.as_str())
        },
        None => msg.to_owned(),
    };
    let m2 = match d.max_length {
        Some(v) => {
            let digits = u64_to_string(v as u64);
            let first = replace_str(m1.as_str(), "{max_length}", digits.as_str());
            replace_str(first.as_str(), "{max_items}", digits.as_str())
        },
        None => m1,
    };
    let m3 = match d.min_value {
        Some(v) => {
            let digits = num_to_string(&v);
            let first = replace_str(m2.as_str(), "{min_value}", digits.as_str());
            replace_str(first.as_str(), "{min}", digits.as_str())
        },
        None => m2,
    };
    let m4 = match d.max_value {
        Some(v) => {
            let digits = num_to_string(&v);
            let first = replace_str(m3.as_str(), "{max_value}", digits.as_str());
            replace_str(first.as_str(), "{max}", digits.as_str())
        },
        None => m3,
    };
    let m5 = match &d.pattern {
        Some(p) => replace_str(m4.as_str(), "{pattern}", p.as_str()),
        None => m4,
    };
    let m6 = match &d.field_name {
        Some(f) => {
            let first = replace_str(m5.as_str(), "{field_name}", f.as_str());
            replace_str(first.as_str(), "{field}", f.as_str())
        },
        None => m5,
    };
    let m7 = if d.expected_type.is_some() && d.actual_type.is_some() {
        let expected = match &d.expected_type {
            Some(e) => e.as_str(),
            None => "",
        };
        let actual = match &d.actual_type {
            Some(a) => a.as_str(),
            None => "",
        };
        let first = replace_str(m6.as_str(), "{expected_type}", expected);
        replace_str(first.as_str(), "{actual_type}", actual)
    } else {
        m6
    };
    m7
}

impl ValidationError {
    /// Renders the display text and records the pre-substitution message on
    /// the error, as the display path does.
    pub fn format_message(&mut self) -> (r: String)
        requires
            details_nums_wf(old(self).dv().details),
        ensures
            r@ == render_message(old(self).dv()),
            final(self).dv() == (ErrV {
                message: Some(
                    match old(self).dv().message {
                        Some(m) => m,
                        None => default_template(old(self).dv().code),
                    },
                ),
                ..old(self).dv()
            }),
    {
        let base: String = match &self.context.message {
            Some(m) => m.clone(),
            None => default_template_exec(self.context.code.as_str()).to_owned(),
        };
        let rendered = substitute_exec(base.as_str(), &self.context.details);
        self.context.message = Some(base);
        rendered
    }

    /// The display text of the error: its message, or the default template
    /// for its code, with the placeholders substituted from the details.
    pub fn to_string(&self) -> (r: String)
        requires
            details_nums_wf(self.dv().details),
        ensures
            r@ == render_message(self.dv()),
    {
        let base: String = match &self.context.message {
            Some(m) => m.clone(),
            None => default_template_exec(self.context.code.as_str()).to_owned(),
        };
        substitute_exec(base.as_str(), &self.context.details)
    }

    /// Numeric detail fields small enough to be carried as values.
    pub open spec fn json_in_range(self) -> bool {
        &&& (self.context.details.min_length matches Some(v) ==> v <= 9_000_000_000_000)
        &&& (self.context.details.max_length matches Some(v) ==> v <= 9_000_000_000_000)
    }

    /// The error as a value: a `context` object holding the code, and the
    /// path, message and details only where they carry something.
    #[verifier::rlimit(60)]
    pub fn to_json(&self) -> (r: Value)
        requires
            self.json_in_range(),
        ensures
            r.dv() == error_json(self.dv()),
    {
        let d = &self.context.details;
        let mut details: Vec<(String, Value)> = Vec::new();
        if let Some(v) = d.min_length {
            details.push(("min_length".to_owned(), Value::Number(Num::from_int(v as i64))));
        }
        if let Some(v) = d.max_length {
            details.push(("max_length".to_owned(), Value::Number(Num::from_int(v as i64))));
        }
        if let Some(v) = d.min_value {
            details.push(("min_value".to_owned(), Value::Number(v)));
        }
        if let Some(v) = d.max_value {
            details.push(("max_value".to_owned(), Value::Number(v)));
        }
        if let Some(p) = &d.pattern {
            details.push(("pattern".to_owned(), Value::String(p.clone())));
        }
        if let Some(e) = &d.expected_type {
            details.push(("expected_type".to_owned(), Value::String(e.clone())));
        }
        if let Some(a) = &d.actual_type {
            details.push(("actual_type".to_owned(), Value::String(a.clone())));
        }
        if let Some(f) = &d.field_name {
            details.push(("field_name".to_owned(), Value::String(f.clone())));
        }
        let mut ctx: Vec<(String, Value)> = Vec::new();
        ctx.push(("code".to_owned(), Value::String(self.context.code.clone())));
        if self.context.path.as_str().unicode_len() > 0 {
            ctx.push(("path".to_owned(), Value::String(self.context.path.clone())));
        }
        if let Some(m) = &self.context.message {
            ctx.push(("message".to_owned(), Value::String(m.clone())));
        }
        let has_details = !d.is_empty();
        proof {
            crate::value::lemma_entries_dv(details@);
            assert(Value::entries_dv(details@) =~= details_json(self.dv().details));
        }
        if has_details {
            ctx.push(("details".to_owned(), Value::Object(details)));
        }
        let mut outer: Vec<(String, Value)> = Vec::new();
        proof {
            crate::value::lemma_entries_dv(ctx@);
            assert(Value::entries_dv(ctx@) =~= context_json(self.dv()));
        }
        outer.push(("context".to_owned(), Value::Object(ctx)));
        proof {
            crate::value::lemma_entries_dv(outer@);
            assert(Value::entries_dv(outer@) =~= error_json(self.dv())->Obj_0);
        }
        Value::Object(outer)
    }
}

/// The detail bag as object entries, set fields only, in declaration order.
pub open spec fn details_json(d: DetailsV) -> Seq<(Seq<char>, Val)> {
    (match d.min_length {
        Some(v) => seq![("min_length"@, Val::Num(v * 1_000_000))],
        None => Seq::empty(),
    }) + (match d.max_length {
        Some(v) => seq![("max_length"@, Val::Num(v * 1_000_000))],
        None => Seq::empty(),
    }) + (match d.min_value {
        Some(v) => seq![("min_value"@, Val::Num(v))],
        None => Seq::empty(),
    }) + (match d.max_value {
        Some(v) => seq![("max_value"@, Val::Num(v))],
        None => Seq::empty(),
    }) + (match d.pattern {
        Some(p) => seq![("pattern"@, Val::Str(p))],
        None => Seq::empty(),
    }) + (match d.expected_type {
        Some(e) => seq![("expected_type"@, Val::Str(e))],
        None => Seq::empty(),
    }) + (match d.actual_type {
        Some(a) => seq![("actual_type"@, Val::Str(a))],
        None => Seq::empty(),
    }) + (match d.field_name {
        Some(f) => seq![("field_name"@, Val::Str(f))],
        None => Seq::empty(),
    })
}

/// The error context as object entries: the code always, the path when not
/// empty, the message when present, the details when not empty.
pub open spec fn context_json(e: ErrV) -> Seq<(Seq<char>, Val)> {
    seq![("code"@, Val::Str(e.code))] + (if e.path.len() > 0 {
        seq![("path"@, Val::Str(e.path))]
    } else {
        Seq::empty()
    }) + (match e.message {
        Some(m) => seq![("message"@, Val::Str(m))],
        None => Seq::empty(),
    }) + (if !details_empty(e.details) {
        seq![("details"@, Val::Obj(details_json(e.details)))]
    } else {
        Seq::empty()
    })
}

/// The whole error as a value.
pub open spec fn error_json(e: ErrV) -> Val {
    Val::Obj(seq![("context"@, Val::Obj(context_json(e)))])
}

} // verus!
