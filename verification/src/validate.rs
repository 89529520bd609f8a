//! The executable validators, each proved to return exactly what the
//! evaluation functions in `eval` prescribe.

use vstd::prelude::*;
use crate::error::{ErrV, ValidationError};
use crate::eval::{
    eval_array, eval_best, eval_boolean, eval_fields, eval_first, eval_items, eval_number,
    eval_number_checks, eval_object, eval_schema, eval_string, eval_union, eval_all,
    first_unknown, has_field, no_match_err, obj_lookup, unknown_from,
};
use crate::schema::{
    lookup_msg_exec, ArraySchema, BooleanSchema, ErrorScore, NumberSchema, ObjectSchema,
    SchemaType, StringSchemaImpl, UnionSchema, UnionStrategy,
};
use crate::text::u64_to_string;
use crate::transform::run_transforms;
use crate::value::{get_type_name, val_wf, Num, Val, Value};

verus! {

/// The override for a code, or the given default, as an owned string.
fn msg_or_exec(msgs: &Vec<(String, String)>, code: &str, dflt: String) -> (r: String)
    ensures
        r@ == crate::eval::msg_or(msgs@, code@, dflt@),
{
    match lookup_msg_exec(msgs, code) {
        Some(m) => m,
        None => dflt,
    }
}

impl StringSchemaImpl {
    /// Validates a value against the string schema, returning the
    /// transformed value on success.
    pub fn validate(&self, value: &Value) -> (r: Result<Value, ValidationError>)
        requires
            val_wf(value.dv()),
        ensures
            match r {
                Ok(out) => eval_string(*self, value.dv()) == Ok::<Val, ErrV>(out.dv()),
                Err(e) => eval_string(*self, value.dv()) == Err::<Val, ErrV>(e.dv()),
            },
    {
        let t = run_transforms(&self.transforms, value.duplicate());
        match t {
            Value::Null => {
                if self.optional {
                    Ok(Value::Null)
                } else {
                    Err(ValidationError::new("object.required"))
                }
            },
            Value::String(text) => {
                let len = text.as_str().unicode_len();
                if let Some(m) = self.min_length {
                    if len < m {
                        let mut dflt = "Minimum length is ".to_owned();
                        dflt.append(u64_to_string(m as u64).as_str());
                        let msg = msg_or_exec(&self.error_messages, "string.too_short", dflt);
                        let e = ValidationError::new("string.too_short").message_owned(
                            msg,
                        ).with_min_length(m);
                        return Err(e);
                    }
                }
                if let Some(m) = self.max_length {
                    if len > m {
                        let mut dflt = "Maximum length is ".to_owned();
                        dflt.append(u64_to_string(m as u64).as_str());
                        let msg = msg_or_exec(&self.error_messages, "string.too_long", dflt);
                        let e = ValidationError::new("string.too_long").message_owned(
                            msg,
                        ).with_max_length(m);
                        return Err(e);
                    }
                }
                if let Some(p) = &self.pattern {
                    if !crate::pattern::regex_is_match(p.as_str(), text.as_str()) {
                        let msg = msg_or_exec(
                            &self.error_messages,
                            "string.pattern",
                            "String does not match pattern".to_owned(),
                        );
                        let e = ValidationError::new("string.pattern").message_owned(
                            msg,
                        ).with_pattern(p.as_str());
                        return Err(e);
                    }
                }
                if self.email {
                    if !crate::pattern::regex_is_match(
                        crate::pattern::email_pattern_str(),
                        text.as_str(),
                    ) {
                        let msg = msg_or_exec(
                            &self.error_messages,
                            "string.email",
                            "Invalid email address".to_owned(),
                        );
                        let e = ValidationError::new("string.email").message_owned(msg);
                        return Err(e);
                    }
                }
                Ok(Value::String(text))
            },
            other => {
                let actual = get_type_name(&other);
                let msg = msg_or_exec(
                    &self.error_messages,
                    "string.invalid_type",
                    "Must be a string".to_owned(),
                );
                let e = ValidationError::new("string.invalid_type").message_owned(
                    msg,
                ).with_type_info("string", actual);
                Err(e)
            },
        }
    }
}

impl NumberSchema {
    /// The numeric constraint checks on an already numeric value.
    fn check_number(&self, n: Num) -> (r: Result<Value, ValidationError>)
        requires
            n.wf(),
            (self.min matches Some(m) ==> m.wf()),
            (self.max matches Some(m) ==> m.wf()),
        ensures
            match r {
                Ok(out) => eval_number_checks(*self, n.micros as int) == Ok::<Val, ErrV>(out.dv()),
                Err(e) => eval_number_checks(*self, n.micros as int) == Err::<Val, ErrV>(e.dv()),
            },
    {
        if self.integer && !n.is_whole() {
            let msg = msg_or_exec(
                &self.error_messages,
                "number.integer",
                "Must be an integer".to_owned(),
            );
            return Err(ValidationError::new("number.integer").message_owned(msg));
        }
        if let Some(m) = self.min {
            if n.micros < m.micros {
                let mut dflt = "Must be at least ".to_owned();
                dflt.append(crate::text::num_to_string(&m).as_str());
                let msg = msg_or_exec(&self.error_messages, "number.min", dflt);
                return Err(ValidationError::new("number.min").message_owned(msg).with_min(m));
            }
        }
        if let Some(m) = self.max {
            if n.micros > m.micros {
                let mut dflt = "Must be at most ".to_owned();
                dflt.append(crate::text::num_to_string(&m).as_str());
                let msg = msg_or_exec(&self.error_messages, "number.max", dflt);
                return Err(ValidationError::new("number.max").message_owned(msg).with_max(m));
            }
        }
        Ok(Value::Number(n))
    }

    /// Validates a value against the number schema, returning the numeric
    /// value on success.
    pub fn validate(&self, value: &Value) -> (r: Result<Value, ValidationError>)
        requires
            val_wf(value.dv()),
            (self.min matches Some(m) ==> m.wf()),
            (self.max matches Some(m) ==> m.wf()),
        ensures
            match r {
                Ok(out) => eval_number(*self, value.dv()) == Ok::<Val, ErrV>(out.dv()),
                Err(e) => eval_number(*self, value.dv()) == Err::<Val, ErrV>(e.dv()),
            },
    {
        let t = run_transforms(&self.transforms, value.duplicate());
        match t {
            Value::Null => {
                if self.optional {
                    Ok(Value::Null)
                } else {
                    Err(
                        ValidationError::new("number.required").message("This field is required"),
                    )
                }
            },
            Value::Number(n) => self.check_number(n),
            Value::String(text) => {
                if self.coerce {
                    match crate::text::parse_decimal(text.as_str()) {
                        Some(n) => self.check_number(n),
                        None => {
                            let msg = msg_or_exec(
                                &self.error_messages,
                                "number.invalid_type",
                                "Could not parse string as number".to_owned(),
                            );
                            Err(
                                ValidationError::new("number.invalid_type").message_owned(
                                    msg,
                                ).with_type_info("number", "string (not a valid number)"),
                            )
                        },
                    }
                } else {
                    Err(number_type_error(&self.error_messages, &Value::String(text)))
                }
            },
            other => Err(number_type_error(&self.error_messages, &other)),
        }
    }
}

/// The type-mismatch error the number validator reports, honoring the
/// schema's override for the code.
fn number_type_error(msgs: &Vec<(String, String)>, t: &Value) -> (e: ValidationError)
    ensures
        crate::eval::eval_number_type_err(msgs@, t.dv()) == Err::<Val, ErrV>(e.dv()),
{
    let actual = get_type_name(t);
    let mut dflt = "Expected number, got ".to_owned();
    dflt.append(actual);
    let msg = msg_or_exec(msgs, "number.invalid_type", dflt);
    ValidationError::new("number.invalid_type").message_owned(msg).with_type_info(
        "number",
        actual,
    )
}

/// When the items up to `k` validate and item `k` fails, the item scan
/// fails at `k` with that error.
#[verifier::rlimit(100)]
#[verifier::spinoff_prover]
proof fn lemma_eval_items_err_from(sch: SchemaType, items: Seq<Val>, i: int, k: int, e: ErrV)
    requires
        0 <= i <= k < items.len(),
        forall|j: int| i <= j < k ==> (#[trigger] eval_schema(sch, items[j])) is Ok,
        eval_schema(sch, items[k]) == Err::<Val, ErrV>(e),
    ensures
        eval_items(sch, items, i) == Err::<Seq<Val>, (int, ErrV)>((k, e)),
    decreases k - i,
{
    if i < k {
        assert(eval_schema(sch, items[i]) is Ok);
        lemma_eval_items_err_from(sch, items, i + 1, k, e);
        assert(eval_items(sch, items, i + 1) == Err::<Seq<Val>, (int, ErrV)>((k, e)));
        assert(eval_items(sch, items, i) == Err::<Seq<Val>, (int, ErrV)>((k, e)));
    } else {
        assert(eval_schema(sch, items[i]) == Err::<Val, ErrV>(e));
        assert(eval_items(sch, items, i) == Err::<Seq<Val>, (int, ErrV)>((k, e)));
    }
}

/// When every item from `i` on validates to the matching output, the item
/// scan returns those outputs.
proof fn lemma_eval_items_ok_from(sch: SchemaType, items: Seq<Val>, i: int, outs: Seq<Val>)
    requires
        0 <= i <= items.len(),
        outs.len() == items.len() - i,
        forall|j: int|
            i <= j < items.len() ==> (#[trigger] eval_schema(sch, items[j])) == Ok::<Val, ErrV>(
                outs[j - i],
            ),
    ensures
        eval_items(sch, items, i) == Ok::<Seq<Val>, (int, ErrV)>(outs),
    decreases items.len() - i,
{
    if i < items.len() {
        lemma_eval_items_ok_from(sch, items, i + 1, outs.drop_first());
        assert(eval_schema(sch, items[i]) == Ok::<Val, ErrV>(outs[0]));
        assert(seq![outs[0]] + outs.drop_first() =~= outs);
    } else {
        assert(outs =~= Seq::<Val>::empty());
    }
}

impl ArraySchema {
    /// Validates a value against the array schema, returning the array of
    /// validated items on success.
    #[verifier::loop_isolation(false)]
    pub fn validate(&self, value: &Value) -> (r: Result<Value, ValidationError>)
        requires
            self.item_schema.wf(),
            val_wf(value.dv()),
        ensures
            match r {
                Ok(out) => eval_array(*self, value.dv()) == Ok::<Val, ErrV>(out.dv()),
                Err(e) => eval_array(*self, value.dv()) == Err::<Val, ErrV>(e.dv()),
            },
        decreases self, 2int,
    {
        match value {
            Value::Array(items) => {
                let ghost ditems = Value::items_dv(items@);
                proof {
                    crate::value::lemma_items_dv(items@);
                    crate::value::lemma_vals_wf(ditems);
                }
                let len = items.len();
                if let Some(m) = self.min_items {
                    if len < m {
                        let msg = msg_or_exec(
                            &self.error_messages,
                            "array.min_items",
                            "less than minimum".to_owned(),
                        );
                        return Err(
                            ValidationError::new("array.min_items").message_owned(
                                msg,
                            ).with_min_length(m),
                        );
                    }
                }
                if let Some(m) = self.max_items {
                    if len > m {
                        let mut dflt = "Must have at most ".to_owned();
                        dflt.append(u64_to_string(m as u64).as_str());
                        dflt.append(" items");
                        let msg = msg_or_exec(&self.error_messages, "array.max_items", dflt);
                        return Err(
                            ValidationError::new("array.max_items").message_owned(
                                msg,
                            ).with_max_length(m),
                        );
                    }
                }
                let mut out: Vec<Value> = Vec::new();
                let mut i: usize = 0;
                while i < len
                    invariant
                        i <= len,
                        out@.len() == i,
                        forall|j: int|
                            0 <= j < i ==> eval_schema(*self.item_schema, ditems[j]) == Ok::<
                                Val,
                                ErrV,
                            >((#[trigger] out@[j]).dv()),
                    decreases len - i,
                {
                    proof {
                        assert(ditems[i as int] == items@[i as int].dv());
                        assert(val_wf(ditems[i as int]));
                    }
                    match self.item_schema.validate(&items[i]) {
                        Ok(v) => {
                            out.push(v);
                        },
                        Err(e) => {
                            proof {
                                assert forall|j: int|
                                    0 <= j < i implies (#[trigger] eval_schema(
                                    *self.item_schema,
                                    ditems[j],
                                )) is Ok by {
                                    assert(eval_schema(*self.item_schema, ditems[j]) == Ok::<
                                        Val,
                                        ErrV,
                                    >(out@[j].dv()));
                                }
                                lemma_eval_items_err_from(
                                    *self.item_schema,
                                    ditems,
                                    0,
                                    i as int,
                                    e.dv(),
                                );
                            }
                            let idx = u64_to_string(i as u64);
                            let mut dflt = "Item ".to_owned();
                            dflt.append(idx.as_str());
                            dflt.append(" is invalid");
                            let msg = msg_or_exec(&self.error_messages, "array.item", dflt);
                            let e2 = e.with_path_prefix(idx.as_str()).message_owned(msg);
                            return Err(e2);
                        },
                    }
                    i += 1;
                }
                let ghost outs = Seq::new(out@.len() as nat, |j: int| out@[j].dv());
                proof {
                    lemma_eval_items_ok_from(*self.item_schema, ditems, 0, outs);
                    crate::value::lemma_items_dv(out@);
                    assert(Value::items_dv(out@) =~= outs);
                }
                Ok(Value::Array(out))
            },
            Value::Null => {
                if self.optional {
                    Ok(Value::Null)
                } else {
                    let msg = msg_or_exec(
                        &self.error_messages,
                        "array.required",
                        "This field is required".to_owned(),
                    );
                    Err(ValidationError::new("array.required").message_owned(msg))
                }
            },
            other => {
                let actual = get_type_name(other);
                let msg = msg_or_exec(
                    &self.error_messages,
                    "array.invalid_type",
                    "Must be an array".to_owned(),
                );
                Err(
                    ValidationError::new("array.invalid_type").message_owned(msg).with_type_info(
                        "array",
                        actual,
                    ),
                )
            },
        }
    }
}

impl BooleanSchema {
    /// Validates a value against the boolean schema.
    pub fn validate(&self, value: &Value) -> (r: Result<Value, ValidationError>)
        requires
            val_wf(value.dv()),
        ensures
            match r {
                Ok(out) => eval_boolean(*self, value.dv()) == Ok::<Val, ErrV>(out.dv()),
                Err(e) => eval_boolean(*self, value.dv()) == Err::<Val, ErrV>(e.dv()),
            },
    {
        match value {
            Value::Bool(b) => Ok(Value::Bool(*b)),
            Value::Null => {
                if self.optional {
                    Ok(Value::Null)
                } else {
                    Err(
                        ValidationError::new("boolean.required").message(
                            "This field is required",
                        ),
                    )
                }
            },
            other => {
                let actual = get_type_name(other);
                let msg = msg_or_exec(
                    &self.error_messages,
                    "boolean.invalid_type",
                    "Must be a boolean value".to_owned(),
                );
                Err(
                    ValidationError::new("boolean.invalid_type").message_owned(
                        msg,
                    ).with_type_info("boolean", actual),
                )
            },
        }
    }
}

/// A value found among well-formed entries is well formed.
proof fn lemma_obj_lookup_wf(entries: Seq<(Seq<char>, Val)>, key: Seq<char>)
    requires
        forall|j: int| 0 <= j < entries.len() ==> val_wf((#[trigger] entries[j]).1),
    ensures
        obj_lookup(entries, key) matches Some(v) ==> val_wf(v),
    decreases entries.len(),
{
    if entries.len() > 0 && entries[0].0 != key {
        assert forall|j: int|
            0 <= j < entries.drop_first().len() implies val_wf(
            (#[trigger] entries.drop_first()[j]).1,
        ) by {
            assert(entries.drop_first()[j] == entries[j + 1]);
        }
        lemma_obj_lookup_wf(entries.drop_first(), key);
    }
}

pub proof fn lemma_obj_lookup_is(entries: Seq<(Seq<char>, Val)>, key: Seq<char>, k: int)
    requires
        0 <= k < entries.len(),
        entries[k].0 == key,
        forall|j: int| 0 <= j < k ==> (#[trigger] entries[j]).0 != key,
    ensures
        obj_lookup(entries, key) == Some(entries[k].1),
    decreases entries.len(),
{
    if k > 0 {
        assert forall|j: int|
            0 <= j < k - 1 implies (#[trigger] entries.drop_first()[j]).0 != key by {
            assert(entries.drop_first()[j] == entries[j + 1]);
        }
        assert(entries.drop_first()[k - 1] == entries[k]);
        lemma_obj_lookup_is(entries.drop_first(), key, k - 1);
    }
}

pub proof fn lemma_obj_lookup_none(entries: Seq<(Seq<char>, Val)>, key: Seq<char>)
    requires
        forall|j: int| 0 <= j < entries.len() ==> (#[trigger] entries[j]).0 != key,
    ensures
        obj_lookup(entries, key) is None,
    decreases entries.len(),
{
    if entries.len() > 0 {
        assert forall|j: int|
            0 <= j < entries.drop_first().len() implies (#[trigger] entries.drop_first()[j]).0
            != key by {
            assert(entries.drop_first()[j] == entries[j + 1]);
        }
        lemma_obj_lookup_none(entries.drop_first(), key);
    }
}

/// The value bound to a key among an object's entries, if the key occurs.
fn obj_get<'a>(entries: &'a Vec<(String, Value)>, key: &str) -> (r: Option<&'a Value>)
    ensures
        match r {
            Some(v) => obj_lookup(Value::entries_dv(entries@), key@) == Some(v.dv()),
            None => obj_lookup(Value::entries_dv(entries@), key@) is None,
        },
{
    proof {
        crate::value::lemma_entries_dv(entries@);
    }
    let ghost dentries = Value::entries_dv(entries@);
    let mut i: usize = 0;
    while i < entries.len()
        invariant
            i <= entries@.len(),
            dentries == Value::entries_dv(entries@),
            dentries.len() == entries@.len(),
            forall|j: int| 0 <= j < entries@.len() ==> #[trigger] dentries[j] == (
                entries@[j].0@,
                entries@[j].1.dv(),
            ),
            forall|j: int| 0 <= j < i ==> (#[trigger] dentries[j]).0 != key@,
        decreases entries@.len() - i,
    {
        if crate::error::str_eq(entries[i].0.as_str(), key) {
            proof {
                lemma_obj_lookup_is(dentries, key@, i as int);
            }
            return Some(&entries[i].1);
        }
        i += 1;
    }
    proof {
        lemma_obj_lookup_none(dentries, key@);
    }
    None
}

/// Whether a key names a declared field.
fn has_field_exec(fields: &Vec<crate::schema::ObjectField>, key: &str) -> (r: bool)
    ensures
        r == has_field(fields@, key@),
{
    let mut i: usize = 0;
    while i < fields.len()
        invariant
            i <= fields@.len(),
            forall|j: int| 0 <= j < i ==> (#[trigger] fields@[j]).name@ != key@,
        decreases fields@.len() - i,
    {
        if crate::error::str_eq(fields[i].name.as_str(), key) {
            return true;
        }
        i += 1;
    }
    false
}

impl ObjectSchema {
    /// Validates a value against the object schema: each declared field in
    /// declaration order, then the unknown-field policy; on success, the
    /// validated declared fields followed, in open mode, by the unknown
    /// entries carried through.
    #[verifier::loop_isolation(false)]
    pub fn validate(&self, value: &Value) -> (r: Result<Value, ValidationError>)
        requires
            crate::schema::obj_fields_wf(self.fields@),
            val_wf(value.dv()),
        ensures
            match r {
                Ok(out) => eval_object(*self, value.dv()) == Ok::<Val, ErrV>(out.dv()),
                Err(e) => eval_object(*self, value.dv()) == Err::<Val, ErrV>(e.dv()),
            },
        decreases self, 2int,
    {
        match value {
            Value::Object(entries) => {
                let ghost dentries = Value::entries_dv(entries@);
                let ghost dfields = self.fields@;
                proof {
                    crate::value::lemma_entries_dv(entries@);
                    crate::value::lemma_entries_wf(dentries);
                    crate::schema::lemma_obj_fields_wf(dfields);
                }
                let mut out: Vec<(String, Value)> = Vec::new();
                let mut i: usize = 0;
                proof {
                    match eval_fields(dfields, 0, dentries) {
                        Ok(rest) => {
                            assert(Value::entries_dv(out@) + rest =~= rest);
                        },
                        Err(_) => {},
                    }
                }
                while i < self.fields.len()
                    invariant
                        i <= self.fields@.len(),
                        eval_fields(dfields, 0, dentries) == (match eval_fields(
                            dfields,
                            i as int,
                            dentries,
                        ) {
                            Ok(rest) => Ok::<Seq<(Seq<char>, Val)>, ErrV>(
                                Value::entries_dv(out@) + rest,
                            ),
                            Err(e) => Err::<Seq<(Seq<char>, Val)>, ErrV>(e),
                        }),
                    decreases self.fields@.len() - i,
                {
                    let ghost out_before = Value::entries_dv(out@);
                    let f = &self.fields[i];
                    match obj_get(entries, f.name.as_str()) {
                        Some(v) => {
                            proof {
                                lemma_obj_lookup_wf(dentries, f.name@);
                                assert(dfields[i as int].schema.wf());
                            }
                            match f.schema.validate(v) {
                                Ok(outv) => {
                                    let ghost out_prev = out@;
                                    let name = f.name.clone();
                                    out.push((name, outv));
                                    proof {
                                        assert(out@.drop_last() =~= out_prev);
                                        assert(Value::entries_dv(out@) =~= out_before.push(
                                            (f.name@, outv.dv()),
                                        ));
                                        match eval_fields(dfields, i + 1, dentries) {
                                            Ok(rest) => {
                                                assert(out_before + (seq![
                                                    (dfields[i as int].name@, outv.dv()),
                                                ] + rest) =~= Value::entries_dv(out@) + rest);
                                            },
                                            Err(_) => {},
                                        }
                                    }
                                },
                                Err(e) => {
                                    let e2 = e.with_path_prefix(f.name.as_str());
                                    return Err(e2);
                                },
                            }
                        },
                        None => {
                            if f.required {
                                let mut msg = "Field '".to_owned();
                                msg.append(f.name.as_str());
                                msg.append("' is required");
                                let e = ValidationError::new("object.required").at(
                                    f.name.as_str(),
                                ).message_owned(msg).with_field_name(f.name.as_str());
                                return Err(e);
                            }
                        },
                    }
                    i += 1;
                }
                proof {
                    match eval_fields(dfields, self.fields@.len() as int, dentries) {
                        Ok(rest) => {
                            assert(Value::entries_dv(out@) + rest =~= Value::entries_dv(out@));
                        },
                        Err(_) => {},
                    }
                }
                if self.strict {
                    let mut k: usize = 0;
                    while k < entries.len()
                        invariant
                            k <= entries@.len(),
                            first_unknown(dfields, dentries, 0) == first_unknown(
                                dfields,
                                dentries,
                                k as int,
                            ),
                        decreases entries@.len() - k,
                    {
                        let key = &entries[k].0;
                        if !has_field_exec(&self.fields, key.as_str()) {
                            let mut msg = "Unknown field: ".to_owned();
                            msg.append(key.as_str());
                            let e = ValidationError::new("object.unknown_field").at(
                                key.as_str(),
                            ).message_owned(msg).with_field_name(key.as_str());
                            return Err(e);
                        }
                        k += 1;
                    }
                    Ok(Value::Object(out))
                } else {
                    let ghost douts = Value::entries_dv(out@);
                    let mut k: usize = 0;
                    proof {
                        crate::value::lemma_entries_dv(out@);
                        assert(Value::entries_dv(out@).skip(douts.len() as int)
                            =~= Seq::<(Seq<char>, Val)>::empty());
                        assert(unknown_from(dfields, dentries, 0) =~= Value::entries_dv(
                            out@,
                        ).skip(douts.len() as int) + unknown_from(dfields, dentries, 0));
                    }
                    while k < entries.len()
                        invariant
                            k <= entries@.len(),
                            Value::entries_dv(out@).len() == out@.len(),
                            out@.len() >= douts.len(),
                            Value::entries_dv(out@).take(douts.len() as int) == douts,
                            unknown_from(dfields, dentries, 0) == Value::entries_dv(out@).skip(
                                douts.len() as int,
                            ) + unknown_from(dfields, dentries, k as int),
                        decreases entries@.len() - k,
                    {
                        let ghost out_before = Value::entries_dv(out@);
                        let key = &entries[k].0;
                        if !has_field_exec(&self.fields, key.as_str()) {
                            let ghost out_prev = out@;
                            let copied = entries[k].1.duplicate();
                            out.push((key.clone(), copied));
                            proof {
                                crate::value::lemma_entries_dv(out@);
                                assert(out@.drop_last() =~= out_prev);
                                assert(dentries[k as int] == (entries@[k as int].0@, entries@[k as int].1.dv()));
                                assert(Value::entries_dv(out@) =~= out_before.push(
                                    dentries[k as int],
                                ));
                                assert(Value::entries_dv(out@).take(douts.len() as int)
                                    =~= out_before.take(douts.len() as int));
                                assert(Value::entries_dv(out@).skip(douts.len() as int)
                                    =~= out_before.skip(douts.len() as int).push(
                                    dentries[k as int],
                                ));
                                assert(out_before.skip(douts.len() as int).push(
                                    dentries[k as int],
                                ) + unknown_from(dfields, dentries, k + 1) =~= out_before.skip(
                                    douts.len() as int,
                                ) + (seq![dentries[k as int]] + unknown_from(
                                    dfields,
                                    dentries,
                                    k + 1,
                                )));
                            }
                        }
                        k += 1;
                    }
                    proof {
                        crate::value::lemma_entries_dv(out@);
                        assert(Value::entries_dv(out@) =~= Value::entries_dv(out@).take(
                            douts.len() as int,
                        ) + Value::entries_dv(out@).skip(douts.len() as int));
                        assert(Value::entries_dv(out@) =~= douts + unknown_from(
                            dfields,
                            dentries,
                            0,
                        ));
                    }
                    Ok(Value::Object(out))
                }
            },
            Value::Null => {
                if self.optional {
                    Ok(Value::Null)
                } else {
                    Err(
                        ValidationError::new("object.required").message("This field is required"),
                    )
                }
            },
            other => {
                let actual = get_type_name(other);
                Err(
                    ValidationError::new("object.invalid_type").message(
                        "Must be an object",
                    ).with_type_info("object", actual),
                )
            },
        }
    }
}

impl UnionSchema {
    /// Validates a value under the union's strategy.
    #[verifier::loop_isolation(false)]
    pub fn validate(&self, value: &Value) -> (r: Result<Value, ValidationError>)
        requires
            crate::schema::schemas_wf(self.schemas@),
            val_wf(value.dv()),
        ensures
            match r {
                Ok(out) => eval_union(*self, value.dv()) == Ok::<Val, ErrV>(out.dv()),
                Err(e) => eval_union(*self, value.dv()) == Err::<Val, ErrV>(e.dv()),
            },
        decreases self, 2int,
    {
        proof {
            crate::schema::lemma_schemas_wf(self.schemas@);
        }
        let ghost v = value.dv();
        match &self.strategy {
            UnionStrategy::First => {
                let len = self.schemas.len();
                if len == 0 {
                    return Err(no_match_error());
                }
                let mut i: usize = 0;
                while i < len
                    invariant
                        i < len,
                        eval_first(self.schemas@, v, 0) == eval_first(self.schemas@, v, i as int),
                    decreases len - i,
                {
                    match self.schemas[i].validate(value) {
                        Ok(out) => {
                            return Ok(out);
                        },
                        Err(e) => {
                            if i == len - 1 {
                                return Err(e);
                            }
                        },
                    }
                    i += 1;
                }
                proof {
                    assert(false);
                }
                Err(no_match_error())
            },
            UnionStrategy::All => {
                let len = self.schemas.len();
                if len == 0 {
                    return Err(no_match_error());
                }
                let mut i: usize = 0;
                while i < len
                    invariant
                        i <= len,
                        eval_all(self.schemas@, v, 0) == eval_all(self.schemas@, v, i as int),
                    decreases len - i,
                {
                    match self.schemas[i].validate(value) {
                        Ok(_) => {},
                        Err(e) => {
                            return Err(e);
                        },
                    }
                    i += 1;
                }
                Ok(value.duplicate())
            },
            UnionStrategy::Best(score) => {
                let len = self.schemas.len();
                let mut best: Option<(u32, ValidationError)> = None;
                let mut i: usize = 0;
                while i < len
                    invariant
                        i <= len,
                        eval_best(self.schemas@, *score, v, 0, None) == eval_best(
                            self.schemas@,
                            *score,
                            v,
                            i as int,
                            match best {
                                Some(b) => Some((b.0 as int, b.1.dv())),
                                None => None,
                            },
                        ),
                    decreases len - i,
                {
                    match self.schemas[i].validate(value) {
                        Ok(out) => {
                            return Ok(out);
                        },
                        Err(e) => {
                            let sc = score.score(&e);
                            let cur: u32 = match &best {
                                Some(b) => b.0,
                                None => 4_294_967_295,
                            };
                            if sc < cur {
                                best = Some((sc, e));
                            }
                        },
                    }
                    i += 1;
                }
                match best {
                    Some(b) => Err(b.1),
                    None => Err(no_match_error()),
                }
            },
        }
    }
}

/// The failure a union reports when no alternative matches.
fn no_match_error() -> (e: ValidationError)
    ensures
        e.dv() == no_match_err(),
{
    ValidationError::new("union.no_match").message("Value did not match any schema")
}

impl SchemaType {
    /// Validates a value against the schema this variant denotes: the single
    /// entry point that composite validators recurse through.
    pub fn validate(&self, value: &Value) -> (r: Result<Value, ValidationError>)
        requires
            self.wf(),
            val_wf(value.dv()),
        ensures
            match r {
                Ok(out) => eval_schema(*self, value.dv()) == Ok::<Val, ErrV>(out.dv())
                    && val_wf(out.dv()),
                Err(e) => eval_schema(*self, value.dv()) == Err::<Val, ErrV>(e.dv()),
            },
        decreases self, 3int,
    {
        let r = match self {
            SchemaType::String(s) => s.validate(value),
            SchemaType::Number(n) => n.validate(value),
            SchemaType::Boolean(b) => b.validate(value),
            SchemaType::Array(a) => a.validate(value),
            SchemaType::Object(o) => o.validate(value),
            SchemaType::Union(u) => u.validate(value),
        };
        proof {
            if r is Ok {
                crate::laws::lemma_eval_preserves_wf(*self, value.dv());
            }
        }
        r
    }
}

/// Routes a value to the validator for the schema variant; composite
/// validators recurse through this same dispatch.
pub fn validate_schema_type(schema: &SchemaType, value: &Value) -> (r: Result<
    Value,
    ValidationError,
>)
    requires
        schema.wf(),
        val_wf(value.dv()),
    ensures
        match r {
            Ok(out) => eval_schema(*schema, value.dv()) == Ok::<Val, ErrV>(out.dv()) && val_wf(
                out.dv(),
            ),
            Err(e) => eval_schema(*schema, value.dv()) == Err::<Val, ErrV>(e.dv()),
        },
{
    schema.validate(value)
}

} // verus!
