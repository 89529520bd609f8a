//! The mathematical account of validation: for every schema kind, what
//! `validate` returns on every value. The executable validators are proved
//! to agree with these functions exactly.

use vstd::prelude::*;
use crate::error::{default_template, no_details, DetailsV, ErrV, spec_prefix_path};
use crate::schema::{
    lookup_msg, msgs_v, ArraySchema, BooleanSchema, ErrorScore, NumberSchema, ObjectField,
    ObjectSchema, SchemaType, StringSchemaImpl, UnionSchema, UnionStrategy,
};
use crate::text::dec_digits;
use crate::transform::apply_transforms;
use crate::value::{spec_type_name, Val};
use crate::pattern::regex_accepts;

verus! {

/// The error a fresh `ValidationError::new` carries for a code.
pub open spec fn base_err(code: Seq<char>) -> ErrV {
    ErrV { code, path: Seq::empty(), message: Some(default_template(code)), details: no_details() }
}

/// The override for a code, or the given default text.
pub open spec fn msg_or(
    msgs: Seq<(String, String)>,
    code: Seq<char>,
    dflt: Seq<char>,
) -> Seq<char> {
    match lookup_msg(msgs_v(msgs), code) {
        Some(m) => m,
        None => dflt,
    }
}

/// What the string validator returns: the pipeline runs first, then the
/// checks in their fixed order, fail-fast.
pub open spec fn eval_string(s: StringSchemaImpl, v: Val) -> Result<Val, ErrV> {
    let t = apply_transforms(s.transforms@, v);
    match t {
        Val::Null => if s.optional {
            Ok(Val::Null)
        } else {
            Err(base_err("object.required"@))
        },
        Val::Str(text) => if s.min_length is Some && text.len() < s.min_length->0 {
            let m = s.min_length->0;
            Err(
                ErrV {
                    code: "string.too_short"@,
                    path: Seq::empty(),
                    message: Some(
                        msg_or(
                            s.error_messages@,
                            "string.too_short"@,
                            "Minimum length is "@ + dec_digits(m as int),
                        ),
                    ),
                    details: DetailsV { min_length: Some(m as int), ..no_details() },
                },
            )
        } else if s.max_length is Some && text.len() > s.max_length->0 {
            let m = s.max_length->0;
            Err(
                ErrV {
                    code: "string.too_long"@,
                    path: Seq::empty(),
                    message: Some(
                        msg_or(
                            s.error_messages@,
                            "string.too_long"@,
                            "Maximum length is "@ + dec_digits(m as int),
                        ),
                    ),
                    details: DetailsV { max_length: Some(m as int), ..no_details() },
                },
            )
        } else if s.pattern is Some && !regex_accepts(s.pattern->0@, text) {
            let p = s.pattern->0;
            Err(
                ErrV {
                    code: "string.pattern"@,
                    path: Seq::empty(),
                    message: Some(
                        msg_or(
                            s.error_messages@,
                            "string.pattern"@,
                            "String does not match pattern"@,
                        ),
                    ),
                    details: DetailsV { pattern: Some(p@), ..no_details() },
                },
            )
        } else if s.email && !regex_accepts(crate::pattern::email_pattern(), text) {
            Err(
                ErrV {
                    code: "string.email"@,
                    path: Seq::empty(),
                    message: Some(
                        msg_or(s.error_messages@, "string.email"@, "Invalid email address"@),
                    ),
                    details: no_details(),
                },
            )
        } else {
            Ok(Val::Str(text))
        },
        _ => Err(
            ErrV {
                code: "string.invalid_type"@,
                path: Seq::empty(),
                message: Some(
                    msg_or(s.error_messages@, "string.invalid_type"@, "Must be a string"@),
                ),
                details: DetailsV {
                    expected_type: Some("string"@),
                    actual_type: Some(spec_type_name(t)),
                    ..no_details()
                },
            },
        ),
    }
}

/// The constraint checks shared by direct and coerced number input:
/// whole-number, then minimum, then maximum, fail-fast.
pub open spec fn eval_number_checks(s: NumberSchema, n: int) -> Result<Val, ErrV> {
    if s.integer && n % 1_000_000 != 0 {
        Err(
            ErrV {
                code: "number.integer"@,
                path: Seq::empty(),
                message: Some(
                    msg_or(s.error_messages@, "number.integer"@, "Must be an integer"@),
                ),
                details: no_details(),
            },
        )
    } else if s.min is Some && n < s.min->0.micros {
        let m = s.min->0;
        Err(
            ErrV {
                code: "number.min"@,
                path: Seq::empty(),
                message: Some(
                    msg_or(
                        s.error_messages@,
                        "number.min"@,
                        "Must be at least "@ + crate::text::render_micros(m.micros as int),
                    ),
                ),
                details: DetailsV { min_value: Some(m.micros as int), ..no_details() },
            },
        )
    } else if s.max is Some && n > s.max->0.micros {
        let m = s.max->0;
        Err(
            ErrV {
                code: "number.max"@,
                path: Seq::empty(),
                message: Some(
                    msg_or(
                        s.error_messages@,
                        "number.max"@,
                        "Must be at most "@ + crate::text::render_micros(m.micros as int),
                    ),
                ),
                details: DetailsV { max_value: Some(m.micros as int), ..no_details() },
            },
        )
    } else {
        Ok(Val::Num(n))
    }
}

/// What the number validator returns: the pipeline runs first, then null
/// handling, type or coercion, and the numeric checks.
pub open spec fn eval_number(s: NumberSchema, v: Val) -> Result<Val, ErrV> {
    let t = apply_transforms(s.transforms@, v);
    match t {
        Val::Null => if s.optional {
            Ok(Val::Null)
        } else {
            Err(
                ErrV {
                    code: "number.required"@,
                    path: Seq::empty(),
                    message: Some("This field is required"@),
                    details: no_details(),
                },
            )
        },
        Val::Num(n) => eval_number_checks(s, n),
        Val::Str(text) => if s.coerce {
            match crate::text::parse_micros(text) {
                Some(n) => eval_number_checks(s, n),
                None => Err(
                    ErrV {
                        code: "number.invalid_type"@,
                        path: Seq::empty(),
                        message: Some(
                            msg_or(
                                s.error_messages@,
                                "number.invalid_type"@,
                                "Could not parse string as number"@,
                            ),
                        ),
                        details: DetailsV {
                            expected_type: Some("number"@),
                            actual_type: Some("string (not a valid number)"@),
                            ..no_details()
                        },
                    },
                ),
            }
        } else {
            eval_number_type_err(s.error_messages@, t)
        },
        _ => eval_number_type_err(s.error_messages@, t),
    }
}

/// The type-mismatch error the number validator reports; the message honors
/// the schema's override for the code.
pub open spec fn eval_number_type_err(msgs: Seq<(String, String)>, t: Val) -> Result<Val, ErrV> {
    Err(
        ErrV {
            code: "number.invalid_type"@,
            path: Seq::empty(),
            message: Some(
                msg_or(msgs, "number.invalid_type"@, "Expected number, got "@ + spec_type_name(t)),
            ),
            details: DetailsV {
                expected_type: Some("number"@),
                actual_type: Some(spec_type_name(t)),
                ..no_details()
            },
        },
    )
}

/// What the boolean validator returns: type identity, plus null handling.
pub open spec fn eval_boolean(s: BooleanSchema, v: Val) -> Result<Val, ErrV> {
    match v {
        Val::Bool(b) => Ok(Val::Bool(b)),
        Val::Null => if s.optional {
            Ok(Val::Null)
        } else {
            Err(
                ErrV {
                    code: "boolean.required"@,
                    path: Seq::empty(),
                    message: Some("This field is required"@),
                    details: no_details(),
                },
            )
        },
        _ => Err(
            ErrV {
                code: "boolean.invalid_type"@,
                path: Seq::empty(),
                message: Some(
                    msg_or(
                        s.error_messages@,
                        "boolean.invalid_type"@,
                        "Must be a boolean value"@,
                    ),
                ),
                details: DetailsV {
                    expected_type: Some("boolean"@),
                    actual_type: Some(spec_type_name(v)),
                    ..no_details()
                },
            },
        ),
    }
}

/// Validates `items[i..]` against the item schema: the validated items, or
/// the first failing index with its raw error.
pub open spec fn eval_items(sch: SchemaType, items: Seq<Val>, i: int) -> Result<
    Seq<Val>,
    (int, ErrV),
>
    decreases sch, items.len() - i + 1,
{
    if i < 0 || i >= items.len() {
        Ok(Seq::empty())
    } else {
        match eval_schema(sch, items[i]) {
            Err(e) => Err((i, e)),
            Ok(out) => match eval_items(sch, items, i + 1) {
                Err(p) => Err(p),
                Ok(rest) => Ok(seq![out] + rest),
            },
        }
    }
}

/// What the array validator returns: null handling, the type check, the
/// cardinality bounds, then the items in index order, fail-fast.
pub open spec fn eval_array(a: ArraySchema, v: Val) -> Result<Val, ErrV>
    decreases a, 2int,
{
    match v {
        Val::Arr(items) => if a.min_items is Some && items.len() < a.min_items->0 {
            let m = a.min_items->0;
            Err(
                ErrV {
                    code: "array.min_items"@,
                    path: Seq::empty(),
                    message: Some(
                        msg_or(a.error_messages@, "array.min_items"@, "less than minimum"@),
                    ),
                    details: DetailsV { min_length: Some(m as int), ..no_details() },
                },
            )
        } else if a.max_items is Some && items.len() > a.max_items->0 {
            let m = a.max_items->0;
            Err(
                ErrV {
                    code: "array.max_items"@,
                    path: Seq::empty(),
                    message: Some(
                        msg_or(
                            a.error_messages@,
                            "array.max_items"@,
                            "Must have at most "@ + dec_digits(m as int) + " items"@,
                        ),
                    ),
                    details: DetailsV { max_length: Some(m as int), ..no_details() },
                },
            )
        } else {
            match eval_items(*a.item_schema, items, 0) {
                Ok(outs) => Ok(Val::Arr(outs)),
                Err((i, e)) => Err(
                    ErrV {
                        code: e.code,
                        path: spec_prefix_path(dec_digits(i), e.path),
                        message: Some(
                            msg_or(
                                a.error_messages@,
                                "array.item"@,
                                "Item "@ + dec_digits(i) + " is invalid"@,
                            ),
                        ),
                        details: e.details,
                    },
                ),
            }
        },
        Val::Null => if a.optional {
            Ok(Val::Null)
        } else {
            Err(
                ErrV {
                    code: "array.required"@,
                    path: Seq::empty(),
                    message: Some(
                        msg_or(a.error_messages@, "array.required"@, "This field is required"@),
                    ),
                    details: no_details(),
                },
            )
        },
        _ => Err(
            ErrV {
                code: "array.invalid_type"@,
                path: Seq::empty(),
                message: Some(
                    msg_or(a.error_messages@, "array.invalid_type"@, "Must be an array"@),
                ),
                details: DetailsV {
                    expected_type: Some("array"@),
                    actual_type: Some(spec_type_name(v)),
                    ..no_details()
                },
            },
        ),
    }
}

/// The value bound to a key in an object's entries, if any; the first
/// occurrence decides.
pub open spec fn obj_lookup(entries: Seq<(Seq<char>, Val)>, key: Seq<char>) -> Option<Val>
    decreases entries.len(),
{
    if entries.len() == 0 {
        None
    } else if entries[0].0 == key {
        Some(entries[0].1)
    } else {
        obj_lookup(entries.drop_first(), key)
    }
}

/// Whether a key is among the declared field names.
pub open spec fn has_field(fields: Seq<ObjectField>, key: Seq<char>) -> bool {
    exists|i: int| 0 <= i < fields.len() && (#[trigger] fields[i]).name@ == key
}

/// Validates the declared fields from position `i` on, in declaration
/// order: the validated present fields as output entries, or the first
/// failure. A missing required field fails; a missing optional field is
/// skipped.
pub open spec fn eval_fields(
    fields: Seq<ObjectField>,
    i: int,
    entries: Seq<(Seq<char>, Val)>,
) -> Result<Seq<(Seq<char>, Val)>, ErrV>
    decreases fields, fields.len() - i + 1,
{
    if i < 0 || i >= fields.len() {
        Ok(Seq::empty())
    } else {
        let f = fields[i];
        match obj_lookup(entries, f.name@) {
            Some(fv) => match eval_schema(f.schema, fv) {
                Err(e) => Err(
                    ErrV {
                        code: e.code,
                        path: spec_prefix_path(f.name@, e.path),
                        message: e.message,
                        details: e.details,
                    },
                ),
                Ok(out) => match eval_fields(fields, i + 1, entries) {
                    Err(e) => Err(e),
                    Ok(rest) => Ok(seq![(f.name@, out)] + rest),
                },
            },
            None => if f.required {
                Err(
                    ErrV {
                        code: "object.required"@,
                        path: f.name@,
                        message: Some("Field '"@ + f.name@ + "' is required"@),
                        details: DetailsV { field_name: Some(f.name@), ..no_details() },
                    },
                )
            } else {
                eval_fields(fields, i + 1, entries)
            },
        }
    }
}

/// The first input key that is not a declared field, scanning from `i`.
pub open spec fn first_unknown(
    fields: Seq<ObjectField>,
    entries: Seq<(Seq<char>, Val)>,
    i: int,
) -> Option<int>
    decreases entries.len() - i + 1,
{
    if i < 0 || i >= entries.len() {
        None
    } else if !has_field(fields, entries[i].0) {
        Some(i)
    } else {
        first_unknown(fields, entries, i + 1)
    }
}

/// The input entries from position `i` on whose keys are not declared
/// fields, in input order.
pub open spec fn unknown_from(
    fields: Seq<ObjectField>,
    entries: Seq<(Seq<char>, Val)>,
    i: int,
) -> Seq<(Seq<char>, Val)>
    decreases entries.len() - i + 1,
{
    if i < 0 || i >= entries.len() {
        Seq::empty()
    } else if has_field(fields, entries[i].0) {
        unknown_from(fields, entries, i + 1)
    } else {
        seq![entries[i]] + unknown_from(fields, entries, i + 1)
    }
}

/// The input entries whose keys are not declared fields, in input order.
pub open spec fn unknown_entries(
    fields: Seq<ObjectField>,
    entries: Seq<(Seq<char>, Val)>,
) -> Seq<(Seq<char>, Val)> {
    unknown_from(fields, entries, 0)
}

/// What the object validator returns: null handling, the type check, the
/// declared fields in declaration order, then the unknown-field policy. In
/// strict mode an unknown key fails; in open mode unknown entries pass
/// through after the declared output.
pub open spec fn eval_object(o: ObjectSchema, v: Val) -> Result<Val, ErrV>
    decreases o, 2int,
{
    match v {
        Val::Obj(entries) => match eval_fields(o.fields@, 0, entries) {
            Err(e) => Err(e),
            Ok(outs) => if o.strict {
                match first_unknown(o.fields@, entries, 0) {
                    Some(k) => Err(
                        ErrV {
                            code: "object.unknown_field"@,
                            path: entries[k].0,
                            message: Some("Unknown field: "@ + entries[k].0),
                            details: DetailsV {
                                field_name: Some(entries[k].0),
                                ..no_details()
                            },
                        },
                    ),
                    None => Ok(Val::Obj(outs)),
                }
            } else {
                Ok(Val::Obj(outs + unknown_entries(o.fields@, entries)))
            },
        },
        Val::Null => if o.optional {
            Ok(Val::Null)
        } else {
            Err(
                ErrV {
                    code: "object.required"@,
                    path: Seq::empty(),
                    message: Some("This field is required"@),
                    details: no_details(),
                },
            )
        },
        _ => Err(
            ErrV {
                code: "object.invalid_type"@,
                path: Seq::empty(),
                message: Some("Must be an object"@),
                details: DetailsV {
                    expected_type: Some("object"@),
                    actual_type: Some(spec_type_name(v)),
                    ..no_details()
                },
            },
        ),
    }
}

/// The failure a union reports when no alternative matches.
pub open spec fn no_match_err() -> ErrV {
    ErrV {
        code: "union.no_match"@,
        path: Seq::empty(),
        message: Some("Value did not match any schema"@),
        details: no_details(),
    }
}

/// First-match resolution from position `i`: the first success wins; when
/// all fail, the last alternative's error is reported.
pub open spec fn eval_first(schemas: Seq<SchemaType>, v: Val, i: int) -> Result<Val, ErrV>
    decreases schemas, schemas.len() - i + 1,
{
    if i < 0 || i >= schemas.len() {
        Err(no_match_err())
    } else {
        match eval_schema(schemas[i], v) {
            Ok(out) => Ok(out),
            Err(e) => if i == schemas.len() - 1 {
                Err(e)
            } else {
                eval_first(schemas, v, i + 1)
            },
        }
    }
}

/// All-must-match resolution from position `i`: the first failure is
/// reported; when every alternative accepts, the original value is returned.
pub open spec fn eval_all(schemas: Seq<SchemaType>, v: Val, i: int) -> Result<Val, ErrV>
    decreases schemas, schemas.len() - i + 1,
{
    if i < 0 || i >= schemas.len() {
        Ok(v)
    } else {
        match eval_schema(schemas[i], v) {
            Err(e) => Err(e),
            Ok(_) => eval_all(schemas, v, i + 1),
        }
    }
}

/// Best-match resolution from position `i`: a success returns immediately;
/// otherwise the lowest-scoring error seen wins, ties broken by the earliest
/// alternative, and a score at the counter's ceiling is never kept.
pub open spec fn eval_best(
    schemas: Seq<SchemaType>,
    score: ErrorScore,
    v: Val,
    i: int,
    best: Option<(int, ErrV)>,
) -> Result<Val, ErrV>
    decreases schemas, schemas.len() - i + 1,
{
    if i < 0 || i >= schemas.len() {
        match best {
            Some(b) => Err(b.1),
            None => Err(no_match_err()),
        }
    } else {
        match eval_schema(schemas[i], v) {
            Ok(out) => Ok(out),
            Err(e) => {
                let sc = score.score_of(e.code);
                let cur = match best {
                    Some(b) => b.0,
                    None => 4_294_967_295int,
                };
                let next = if sc < cur {
                    Some((sc, e))
                } else {
                    best
                };
                eval_best(schemas, score, v, i + 1, next)
            },
        }
    }
}

/// What the union validator returns under its strategy; an empty
/// alternative list fails deterministically under every strategy.
pub open spec fn eval_union(u: UnionSchema, v: Val) -> Result<Val, ErrV>
    decreases u, 2int,
{
    match u.strategy {
        UnionStrategy::First => eval_first(u.schemas@, v, 0),
        UnionStrategy::All => if u.schemas@.len() == 0 {
            Err(no_match_err())
        } else {
            eval_all(u.schemas@, v, 0)
        },
        UnionStrategy::Best(score) => eval_best(u.schemas@, score, v, 0, None),
    }
}

/// The single dispatch point: what validation returns for any schema and
/// any value.
pub open spec fn eval_schema(s: SchemaType, v: Val) -> Result<Val, ErrV>
    decreases s, 0int,
{
    match s {
        SchemaType::String(ss) => eval_string(ss, v),
        SchemaType::Number(ns) => eval_number(ns, v),
        SchemaType::Boolean(bs) => eval_boolean(bs, v),
        SchemaType::Array(a) => eval_array(*a, v),
        SchemaType::Object(o) => eval_object(*o, v),
        SchemaType::Union(u) => eval_union(*u, v),
    }
}

} // verus!
