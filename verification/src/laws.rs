//! General properties of the validators, stated over the evaluation
//! functions and proved once and for all.

use vstd::prelude::*;
use crate::error::ErrV;
use crate::eval::{
    eval_all, eval_array, eval_best, eval_fields, eval_first, eval_items, eval_number, eval_object,
    eval_schema, eval_string,
    eval_union, first_unknown, has_field, no_match_err, obj_lookup, unknown_from,
};
use crate::pattern::{email_pattern, regex_accepts};
use crate::schema::{
    obj_fields_wf, NumberSchema, ObjectField, SchemaType, StringSchemaImpl, UnionSchema,
    UnionStrategy,
};
use crate::transform::{apply_transform, apply_transforms};
use crate::value::{val_wf, Val};

verus! {

/// Every valid string is accepted: when the transformed input is a string
/// whose length lies within the schema's bounds, which matches the schema's
/// pattern, and which has the email form when the schema demands it, the
/// string validator succeeds and returns exactly that transformed string.
pub proof fn lemma_string_accepts_valid(s: StringSchemaImpl, v: Val)
    requires
        apply_transforms(s.transforms@, v) is Str,
        (s.min_length matches Some(m) ==> m <= apply_transforms(s.transforms@, v)->Str_0.len()),
        (s.max_length matches Some(m) ==> apply_transforms(s.transforms@, v)->Str_0.len() <= m),
        (s.pattern matches Some(p) ==> regex_accepts(
            p@,
            apply_transforms(s.transforms@, v)->Str_0,
        )),
        s.email ==> regex_accepts(email_pattern(), apply_transforms(s.transforms@, v)->Str_0),
    ensures
        eval_string(s, v) == Ok::<Val, ErrV>(apply_transforms(s.transforms@, v)),
{
}

/// Every number below the lower bound is rejected with the bound recorded:
/// when the transformed input is a number that is whole whenever the schema
/// demands whole numbers, and it lies below the schema's minimum, the number
/// validator fails with code `number.min` and `min_value` set to the bound.
pub proof fn lemma_number_below_min_rejected(s: NumberSchema, v: Val)
    requires
        s.min is Some,
        apply_transforms(s.transforms@, v) is Num,
        apply_transforms(s.transforms@, v)->Num_0 < s.min->0.micros,
        s.integer ==> apply_transforms(s.transforms@, v)->Num_0 % 1_000_000 == 0,
    ensures
        eval_number(s, v) matches Err(e) && e.code == "number.min"@ && e.details.min_value
            == Some(s.min->0.micros as int),
{
}

/// An empty alternative list fails deterministically under every strategy:
/// the union reports its no-match error, for every input value.
pub proof fn lemma_empty_union_fails(u: UnionSchema, v: Val)
    requires
        u.schemas@.len() == 0,
    ensures
        eval_union(u, v) == Err::<Val, ErrV>(no_match_err()),
{
    match u.strategy {
        UnionStrategy::First => {},
        UnionStrategy::All => {},
        UnionStrategy::Best(_) => {},
    }
}

/// A pipeline of the built-in normalizations alone: trim and the two case
/// folds.
pub open spec fn normalizing(ts: Seq<crate::schema::Transform>) -> bool {
    forall|i: int|
        0 <= i < ts.len() ==> ((#[trigger] ts[i]) == crate::schema::Transform::Trim || ts[i]
            == crate::schema::Transform::ToLowerCase || ts[i]
            == crate::schema::Transform::ToUpperCase)
}

/// The last case fold of the pipeline, if any; trims after it do not change
/// the case.
pub open spec fn last_case(ts: Seq<crate::schema::Transform>) -> Option<crate::schema::Transform>
    decreases ts.len(),
{
    if ts.len() == 0 {
        None
    } else if ts.last() == crate::schema::Transform::ToLowerCase || ts.last()
        == crate::schema::Transform::ToUpperCase {
        Some(ts.last())
    } else {
        last_case(ts.drop_last())
    }
}

/// The case fold a pipeline leaves in force, applied to a string.
pub open spec fn apply_case(c: Option<crate::schema::Transform>, x: Seq<char>) -> Seq<char> {
    match c {
        None => x,
        Some(t) => if t == crate::schema::Transform::ToLowerCase {
            crate::text::lower_seq(x)
        } else {
            crate::text::upper_seq(x)
        },
    }
}

/// A normalizing pipeline passes every non-string value through unchanged.
pub proof fn lemma_normalizing_id_non_str(ts: Seq<crate::schema::Transform>, v: Val)
    requires
        normalizing(ts),
        !(v is Str),
    ensures
        apply_transforms(ts, v) == v,
    decreases ts.len(),
{
    if ts.len() > 0 {
        assert(apply_transform(ts[0], v) == v);
        assert forall|i: int|
            0 <= i < ts.drop_first().len() implies ((#[trigger] ts.drop_first()[i])
            == crate::schema::Transform::Trim || ts.drop_first()[i]
            == crate::schema::Transform::ToLowerCase || ts.drop_first()[i]
            == crate::schema::Transform::ToUpperCase) by {
            assert(ts.drop_first()[i] == ts[i + 1]);
        }
        lemma_normalizing_id_non_str(ts.drop_first(), v);
    }
}

/// On a string, a non-empty normalizing pipeline trims and applies its last
/// case fold: the normal form of the pipeline.
pub proof fn lemma_normalizing_normal_form(ts: Seq<crate::schema::Transform>, s: Seq<char>)
    requires
        normalizing(ts),
        ts.len() > 0,
    ensures
        apply_transforms(ts, Val::Str(s)) == Val::Str(
            apply_case(last_case(ts), crate::text::trim_seq(s)),
        ),
    decreases ts.len(),
{
    let prev = ts.drop_last();
    let t = ts.last();
    assert(ts =~= prev.push(t));
    crate::transform::lemma_apply_transforms_snoc(prev, t, Val::Str(s));
    let trimmed = crate::text::trim_seq(s);
    crate::text::lemma_trim_idempotent(s);
    crate::text::lemma_trim_case_fold(trimmed);
    crate::text::lemma_case_fold_seq(trimmed);
    if prev.len() == 0 {
        assert(apply_transforms(prev, Val::Str(s)) == Val::Str(s));
    } else {
        assert forall|i: int|
            0 <= i < prev.len() implies ((#[trigger] prev[i]) == crate::schema::Transform::Trim
            || prev[i] == crate::schema::Transform::ToLowerCase || prev[i]
            == crate::schema::Transform::ToUpperCase) by {
            assert(prev[i] == ts[i]);
        }
        lemma_normalizing_normal_form(prev, s);
        let x = apply_case(last_case(prev), trimmed);
        // the previous normal form is already trimmed
        assert(crate::text::trim_seq(x) == x);
    }
}

/// Running a normalizing pipeline over its own output changes nothing.
pub proof fn lemma_normalizing_idempotent(ts: Seq<crate::schema::Transform>, v: Val)
    requires
        normalizing(ts),
    ensures
        apply_transforms(ts, apply_transforms(ts, v)) == apply_transforms(ts, v),
{
    if ts.len() > 0 {
        match v {
            Val::Str(s) => {
                lemma_normalizing_normal_form(ts, s);
                let trimmed = crate::text::trim_seq(s);
                let x = apply_case(last_case(ts), trimmed);
                lemma_normalizing_normal_form(ts, x);
                crate::text::lemma_trim_idempotent(s);
                crate::text::lemma_trim_case_fold(trimmed);
                crate::text::lemma_case_fold_seq(trimmed);
                assert(crate::text::trim_seq(x) == x);
            },
            _ => {
                lemma_normalizing_id_non_str(ts, v);
            },
        }
    }
}

/// A schema tree whose pipelines hold only the built-in normalizations and
/// whose unions, if any, resolve by all-must-match. First-match and
/// best-match unions are left out: an alternative that fails on the raw
/// input can accept a later alternative's normalized output and transform it
/// further, so their results need not re-validate to themselves.
pub open spec fn normalizing_schema(s: SchemaType) -> bool
    decreases s,
{
    match s {
        SchemaType::String(ss) => normalizing(ss.transforms@),
        SchemaType::Number(ns) => normalizing(ns.transforms@),
        SchemaType::Boolean(_) => true,
        SchemaType::Array(a) => normalizing_schema(*a.item_schema),
        SchemaType::Object(o) => fields_normalizing(o.fields@),
        SchemaType::Union(u) => u.strategy is All,
    }
}

pub open spec fn fields_normalizing(fields: Seq<ObjectField>) -> bool
    decreases fields,
{
    if fields.len() == 0 {
        true
    } else {
        fields_normalizing(fields.drop_last()) && normalizing_schema(fields.last().schema)
    }
}

/// Fields are normalizing exactly when each field's schema is.
proof fn lemma_fields_normalizing(fields: Seq<ObjectField>)
    ensures
        fields_normalizing(fields) <==> (forall|i: int|
            0 <= i < fields.len() ==> normalizing_schema((#[trigger] fields[i]).schema)),
    decreases fields.len(),
{
    if fields.len() > 0 {
        lemma_fields_normalizing(fields.drop_last());
        assert(forall|i: int|
            0 <= i < fields.len() - 1 ==> fields.drop_last()[i] == #[trigger] fields[i]);
        assert(fields.last() == fields[fields.len() - 1]);
    }
}

/// When the item scan succeeds, every item validated to the matching output.
proof fn lemma_eval_items_ok_inv(sch: SchemaType, items: Seq<Val>, i: int, outs: Seq<Val>)
    requires
        0 <= i <= items.len(),
        eval_items(sch, items, i) == Ok::<Seq<Val>, (int, ErrV)>(outs),
    ensures
        outs.len() == items.len() - i,
        forall|j: int|
            i <= j < items.len() ==> (#[trigger] eval_schema(sch, items[j])) == Ok::<Val, ErrV>(
                outs[j - i],
            ),
    decreases items.len() - i,
{
    if i < items.len() {
        let r0 = eval_schema(sch, items[i]);
        assert(r0 is Ok);
        let rest = eval_items(sch, items, i + 1);
        assert(rest is Ok);
        assert(outs == seq![r0->Ok_0] + rest->Ok_0);
        assert(outs.drop_first() =~= rest->Ok_0);
        lemma_eval_items_ok_inv(sch, items, i + 1, outs.drop_first());
        assert(outs[0] == r0->Ok_0);
        assert forall|j: int| i <= j < items.len() implies (#[trigger] eval_schema(
            sch,
            items[j],
        )) == Ok::<Val, ErrV>(outs[j - i]) by {
            if j > i {
                assert(eval_schema(sch, items[j]) == Ok::<Val, ErrV>(
                    outs.drop_first()[j - (i + 1)],
                ));
                assert(outs.drop_first()[j - i - 1] == outs[j - i]);
            }
        }
    }
}

/// A key that occurs among the entries is found.
proof fn lemma_obj_lookup_found(entries: Seq<(Seq<char>, Val)>, key: Seq<char>)
    requires
        exists|j: int| 0 <= j < entries.len() && (#[trigger] entries[j]).0 == key,
    ensures
        obj_lookup(entries, key) is Some,
    decreases entries.len(),
{
    if entries[0].0 != key {
        let j = choose|j: int| 0 <= j < entries.len() && (#[trigger] entries[j]).0 == key;
        assert(entries.drop_first()[j - 1] == entries[j]);
        lemma_obj_lookup_found(entries.drop_first(), key);
    }
}

/// Looking a key up in a concatenation reads the left part first.
proof fn lemma_obj_lookup_concat(
    left: Seq<(Seq<char>, Val)>,
    right: Seq<(Seq<char>, Val)>,
    key: Seq<char>,
)
    ensures
        obj_lookup(left + right, key) == (match obj_lookup(left, key) {
            Some(v) => Some(v),
            None => obj_lookup(right, key),
        }),
    decreases left.len(),
{
    if left.len() == 0 {
        assert(left + right =~= right);
    } else {
        assert((left + right)[0] == left[0]);
        assert((left + right).drop_first() =~= left.drop_first() + right);
        lemma_obj_lookup_concat(left.drop_first(), right, key);
    }
}

/// When the field pass succeeds, its output keys are declared names, the
/// declared lookups behave, and each output binds the validated value.
proof fn lemma_eval_fields_ok_shape(
    fields: Seq<ObjectField>,
    i: int,
    entries: Seq<(Seq<char>, Val)>,
    outs: Seq<(Seq<char>, Val)>,
)
    requires
        0 <= i <= fields.len(),
        eval_fields(fields, i, entries) == Ok::<Seq<(Seq<char>, Val)>, ErrV>(outs),
        forall|a: int, b: int|
            0 <= a < b < fields.len() ==> (#[trigger] fields[a]).name@ != (
            #[trigger] fields[b]).name@,
    ensures
        forall|k: int|
            0 <= k < outs.len() ==> exists|j: int|
                i <= j < fields.len() && (#[trigger] outs[k]).0 == fields[j].name@,
        forall|j: int|
            i <= j < fields.len() ==> obj_lookup(outs, (#[trigger] fields[j]).name@) == (
            match obj_lookup(entries, fields[j].name@) {
                Some(fv) => Some(eval_schema(fields[j].schema, fv)->Ok_0),
                None => None,
            }),
        forall|j: int|
            i <= j < fields.len() ==> (match obj_lookup(entries, (#[trigger] fields[j]).name@) {
                Some(fv) => eval_schema(fields[j].schema, fv) is Ok,
                None => !fields[j].required,
            }),
    decreases fields.len() - i,
{
    if i < fields.len() {
        let f = fields[i];
        match obj_lookup(entries, f.name@) {
            Some(fv) => {
                assert(eval_schema(f.schema, fv) is Ok);
                assert(eval_fields(fields, i + 1, entries) is Ok);
                let tail = eval_fields(fields, i + 1, entries)->Ok_0;
                assert(outs == seq![(f.name@, eval_schema(f.schema, fv)->Ok_0)] + tail);
                let rest = outs.drop_first();
                assert(rest =~= tail);
                lemma_eval_fields_ok_shape(fields, i + 1, entries, rest);
                assert(outs[0] == (f.name@, eval_schema(f.schema, fv)->Ok_0));
                assert forall|k: int| 0 <= k < outs.len() implies exists|j: int|
                    i <= j < fields.len() && (#[trigger] outs[k]).0 == fields[j].name@ by {
                    if k == 0 {
                        assert(outs[0].0 == fields[i].name@);
                    } else {
                        assert(outs[k] == rest[k - 1]);
                    }
                }
                assert forall|j: int| i <= j < fields.len() implies obj_lookup(
                    outs,
                    (#[trigger] fields[j]).name@,
                ) == (match obj_lookup(entries, fields[j].name@) {
                    Some(fv2) => Some(eval_schema(fields[j].schema, fv2)->Ok_0),
                    None => None,
                }) by {
                    if j == i {
                        assert(outs[0].0 == fields[i].name@);
                    } else {
                        assert(outs[0].0 != fields[j].name@);
                        assert(outs.drop_first() =~= rest);
                    }
                }
            },
            None => {
                lemma_eval_fields_ok_shape(fields, i + 1, entries, outs);
                assert forall|j: int| i <= j < fields.len() implies obj_lookup(
                    outs,
                    (#[trigger] fields[j]).name@,
                ) == (match obj_lookup(entries, fields[j].name@) {
                    Some(fv2) => Some(eval_schema(fields[j].schema, fv2)->Ok_0),
                    None => None,
                }) by {
                    if j == i {
                        if obj_lookup(outs, fields[i].name@) is Some {
                            lemma_obj_lookup_needs_key(outs, fields[i].name@);
                        }
                    }
                }
            },
        }
    }
}

/// A successful lookup means the key occurs among the entries.
proof fn lemma_obj_lookup_needs_key(entries: Seq<(Seq<char>, Val)>, key: Seq<char>)
    requires
        obj_lookup(entries, key) is Some,
    ensures
        exists|j: int| 0 <= j < entries.len() && (#[trigger] entries[j]).0 == key,
    decreases entries.len(),
{
    if entries.len() > 0 && entries[0].0 != key {
        lemma_obj_lookup_needs_key(entries.drop_first(), key);
        let j = choose|j: int|
            0 <= j < entries.drop_first().len() && (#[trigger] entries.drop_first()[j]).0 == key;
        assert(entries[j + 1].0 == key);
    }
}

/// Entries whose keys are all declared contribute no unknown key.
proof fn lemma_first_unknown_all_declared(
    fields: Seq<ObjectField>,
    entries: Seq<(Seq<char>, Val)>,
    i: int,
)
    requires
        0 <= i <= entries.len(),
        forall|k: int| 0 <= k < entries.len() ==> has_field(fields, (#[trigger] entries[k]).0),
    ensures
        first_unknown(fields, entries, i) is None,
    decreases entries.len() - i,
{
    if i < entries.len() {
        lemma_first_unknown_all_declared(fields, entries, i + 1);
    }
}

/// Entries whose keys are all declared pass nothing through.
proof fn lemma_unknown_from_all_declared(
    fields: Seq<ObjectField>,
    entries: Seq<(Seq<char>, Val)>,
    i: int,
)
    requires
        0 <= i <= entries.len(),
        forall|k: int| 0 <= k < entries.len() ==> has_field(fields, (#[trigger] entries[k]).0),
    ensures
        unknown_from(fields, entries, i) == Seq::<(Seq<char>, Val)>::empty(),
    decreases entries.len() - i,
{
    if i < entries.len() {
        lemma_unknown_from_all_declared(fields, entries, i + 1);
    }
}

/// Entries with no declared key all pass through.
proof fn lemma_unknown_from_none_declared(
    fields: Seq<ObjectField>,
    entries: Seq<(Seq<char>, Val)>,
    i: int,
)
    requires
        0 <= i <= entries.len(),
        forall|k: int| 0 <= k < entries.len() ==> !has_field(fields, (#[trigger] entries[k]).0),
    ensures
        unknown_from(fields, entries, i) == entries.skip(i),
    decreases entries.len() - i,
{
    if i < entries.len() {
        lemma_unknown_from_none_declared(fields, entries, i + 1);
        assert(entries.skip(i) =~= seq![entries[i]] + entries.skip(i + 1));
    } else {
        assert(entries.skip(i) =~= Seq::<(Seq<char>, Val)>::empty());
    }
}

/// The unknown scan over a concatenation is the concatenation of the scans.
proof fn lemma_unknown_from_concat(
    fields: Seq<ObjectField>,
    left: Seq<(Seq<char>, Val)>,
    right: Seq<(Seq<char>, Val)>,
)
    ensures
        unknown_from(fields, left + right, 0) == unknown_from(fields, left, 0) + unknown_from(
            fields,
            right,
            0,
        ),
    decreases left.len(),
{
    if left.len() == 0 {
        assert(left + right =~= right);
        assert(unknown_from(fields, left, 0) + unknown_from(fields, right, 0) =~= unknown_from(
            fields,
            right,
            0,
        ));
    } else {
        assert((left + right)[0] == left[0]);
        lemma_unknown_shift(fields, left + right);
        lemma_unknown_shift(fields, left);
        assert((left + right).drop_first() =~= left.drop_first() + right);
        lemma_unknown_from_concat(fields, left.drop_first(), right);
        if !has_field(fields, left[0].0) {
            assert(seq![left[0]] + (unknown_from(fields, left.drop_first(), 0) + unknown_from(
                fields,
                right,
                0,
            )) =~= (seq![left[0]] + unknown_from(fields, left.drop_first(), 0)) + unknown_from(
                fields,
                right,
                0,
            ));
        }
    }
}

/// Scanning from the second entry equals scanning the tail.
proof fn lemma_unknown_shift(fields: Seq<ObjectField>, entries: Seq<(Seq<char>, Val)>)
    requires
        entries.len() > 0,
    ensures
        unknown_from(fields, entries, 1) == unknown_from(fields, entries.drop_first(), 0),
{
    lemma_unknown_shift_from(fields, entries, 1);
}

proof fn lemma_unknown_shift_from(fields: Seq<ObjectField>, entries: Seq<(Seq<char>, Val)>, i: int)
    requires
        1 <= i <= entries.len(),
    ensures
        unknown_from(fields, entries, i) == unknown_from(fields, entries.drop_first(), i - 1),
    decreases entries.len() - i,
{
    assert(entries.drop_first().len() == entries.len() - 1);
    if i < entries.len() {
        assert(entries.drop_first()[i - 1] == entries[i]);
        lemma_unknown_shift_from(fields, entries, i + 1);
    }
}

/// Revalidating the declared outputs reproduces them: the field pass over
/// the result object returns exactly what the first pass returned.
proof fn lemma_fields_idem(
    fields: Seq<ObjectField>,
    i: int,
    entries: Seq<(Seq<char>, Val)>,
    res: Seq<(Seq<char>, Val)>,
)
    requires
        0 <= i <= fields.len(),
        fields_normalizing(fields),
        obj_fields_wf(fields),
        eval_fields(fields, i, entries) is Ok,
        forall|j: int|
            i <= j < fields.len() ==> obj_lookup(res, (#[trigger] fields[j]).name@) == (
            match obj_lookup(entries, fields[j].name@) {
                Some(fv) => Some(eval_schema(fields[j].schema, fv)->Ok_0),
                None => None,
            }),
        forall|j: int|
            i <= j < fields.len() ==> (match obj_lookup(entries, (#[trigger] fields[j]).name@) {
                Some(fv) => eval_schema(fields[j].schema, fv) is Ok,
                None => !fields[j].required,
            }),
    ensures
        eval_fields(fields, i, res) == eval_fields(fields, i, entries),
    decreases fields, fields.len() - i + 1,
{
    if i < fields.len() {
        let f = fields[i];
        crate::schema::lemma_obj_fields_wf(fields);
        lemma_fields_normalizing(fields);
        match obj_lookup(entries, f.name@) {
            Some(fv) => {
                lemma_validate_idempotent(f.schema, fv);
                lemma_fields_idem(fields, i + 1, entries, res);
            },
            None => {
                lemma_fields_idem(fields, i + 1, entries, res);
            },
        }
    }
}

/// Validating an already-normalized value succeeds and returns it
/// unchanged: the output of a successful validation re-validates to itself,
/// for every schema whose pipelines hold only the built-in trim and
/// case-fold normalizations and whose unions resolve by all-must-match.
pub proof fn lemma_validate_idempotent(s: SchemaType, v: Val)
    requires
        normalizing_schema(s),
        s.wf(),
        eval_schema(s, v) is Ok,
    ensures
        eval_schema(s, eval_schema(s, v)->Ok_0) == eval_schema(s, v),
    decreases s, 3int,
{
    match s {
        SchemaType::String(ss) => {
            lemma_normalizing_idempotent(ss.transforms@, v);
        },
        SchemaType::Number(ns) => {
            let t = apply_transforms(ns.transforms@, v);
            match t {
                Val::Null => {
                    lemma_normalizing_id_non_str(ns.transforms@, Val::Null);
                },
                Val::Num(n) => {
                    lemma_normalizing_id_non_str(ns.transforms@, eval_schema(s, v)->Ok_0);
                },
                Val::Str(text) => {
                    lemma_normalizing_id_non_str(ns.transforms@, eval_schema(s, v)->Ok_0);
                },
                _ => {},
            }
        },
        SchemaType::Boolean(_) => {},
        SchemaType::Array(a) => {
            match v {
                Val::Arr(items) => {
                    let outs = eval_items(*a.item_schema, items, 0)->Ok_0;
                    lemma_eval_items_ok_inv(*a.item_schema, items, 0, outs);
                    assert forall|j: int| 0 <= j < outs.len() implies (#[trigger] eval_schema(
                        *a.item_schema,
                        outs[j],
                    )) == Ok::<Val, ErrV>(outs[j]) by {
                        lemma_validate_idempotent(*a.item_schema, items[j]);
                    }
                    lemma_eval_items_ok_from2(*a.item_schema, outs);
                },
                _ => {},
            }
        },
        SchemaType::Object(o) => {
            match v {
                Val::Obj(entries) => {
                    let douts = eval_fields(o.fields@, 0, entries)->Ok_0;
                    lemma_eval_fields_ok_shape(o.fields@, 0, entries, douts);
                    if o.strict {
                        lemma_fields_idem(o.fields@, 0, entries, douts);
                        assert forall|k: int| 0 <= k < douts.len() implies has_field(
                            o.fields@,
                            (#[trigger] douts[k]).0,
                        ) by {}
                        lemma_first_unknown_all_declared(o.fields@, douts, 0);
                    } else {
                        let unknowns = unknown_from(o.fields@, entries, 0);
                        let res = douts + unknowns;
                        lemma_unknown_from_shape(o.fields@, entries, 0);
                        assert forall|j: int|
                            0 <= j < o.fields@.len() implies obj_lookup(
                            res,
                            (#[trigger] o.fields@[j]).name@,
                        ) == (match obj_lookup(entries, o.fields@[j].name@) {
                            Some(fv) => Some(eval_schema(o.fields@[j].schema, fv)->Ok_0),
                            None => None,
                        }) by {
                            lemma_obj_lookup_concat(douts, unknowns, o.fields@[j].name@);
                            if obj_lookup(douts, o.fields@[j].name@) is None {
                                if obj_lookup(unknowns, o.fields@[j].name@) is Some {
                                    lemma_obj_lookup_needs_key(unknowns, o.fields@[j].name@);
                                    let k = choose|k: int|
                                        0 <= k < unknowns.len() && (#[trigger] unknowns[k]).0
                                            == o.fields@[j].name@;
                                    assert(has_field(o.fields@, unknowns[k].0));
                                }
                            }
                        }
                        lemma_fields_idem(o.fields@, 0, entries, res);
                        // round two: declared keys hide nothing, unknowns pass again
                        assert forall|k: int| 0 <= k < douts.len() implies has_field(
                            o.fields@,
                            (#[trigger] douts[k]).0,
                        ) by {}
                        lemma_unknown_from_concat(o.fields@, douts, unknowns);
                        lemma_unknown_from_all_declared(o.fields@, douts, 0);
                        assert forall|k: int| 0 <= k < unknowns.len() implies !has_field(
                            o.fields@,
                            (#[trigger] unknowns[k]).0,
                        ) by {}
                        lemma_unknown_from_none_declared(o.fields@, unknowns, 0);
                        assert(unknowns.skip(0) =~= unknowns);
                        assert(Seq::<(Seq<char>, Val)>::empty() + unknowns =~= unknowns);
                    }
                },
                _ => {},
            }
        },
        SchemaType::Union(u) => {
            match u.strategy {
                UnionStrategy::All => {
                    if u.schemas@.len() > 0 {
                        // every alternative accepted, so the output is the
                        // original input, and re-running the same evaluation
                        // returns it again
                        lemma_eval_all_ok_is_input(u.schemas@, v, 0);
                    }
                },
                _ => {},
            }
        },
    }
}

/// The keys the unknown scan passes through are undeclared input keys.
proof fn lemma_unknown_from_shape(
    fields: Seq<ObjectField>,
    entries: Seq<(Seq<char>, Val)>,
    i: int,
)
    requires
        0 <= i <= entries.len(),
    ensures
        forall|k: int|
            0 <= k < unknown_from(fields, entries, i).len() ==> !has_field(
                fields,
                (#[trigger] unknown_from(fields, entries, i)[k]).0,
            ),
    decreases entries.len() - i,
{
    if i < entries.len() {
        lemma_unknown_from_shape(fields, entries, i + 1);
        if !has_field(fields, entries[i].0) {
            assert forall|k: int|
                0 <= k < unknown_from(fields, entries, i).len() implies !has_field(
                fields,
                (#[trigger] unknown_from(fields, entries, i)[k]).0,
            ) by {
                if k > 0 {
                    assert(unknown_from(fields, entries, i)[k] == unknown_from(
                        fields,
                        entries,
                        i + 1,
                    )[k - 1]);
                }
            }
        }
    }
}

/// Items that each validate to themselves scan to themselves.
proof fn lemma_eval_items_ok_from2(sch: SchemaType, outs: Seq<Val>)
    requires
        forall|j: int|
            0 <= j < outs.len() ==> (#[trigger] eval_schema(sch, outs[j])) == Ok::<Val, ErrV>(
                outs[j],
            ),
    ensures
        eval_items(sch, outs, 0) == Ok::<Seq<Val>, (int, ErrV)>(outs),
{
    lemma_items_self(sch, outs, 0);
    assert(outs.skip(0) =~= outs);
}

proof fn lemma_items_self(sch: SchemaType, outs: Seq<Val>, i: int)
    requires
        0 <= i <= outs.len(),
        forall|j: int|
            0 <= j < outs.len() ==> (#[trigger] eval_schema(sch, outs[j])) == Ok::<Val, ErrV>(
                outs[j],
            ),
    ensures
        eval_items(sch, outs, i) == Ok::<Seq<Val>, (int, ErrV)>(outs.skip(i)),
    decreases outs.len() - i,
{
    if i < outs.len() {
        lemma_items_self(sch, outs, i + 1);
        assert(eval_schema(sch, outs[i]) == Ok::<Val, ErrV>(outs[i]));
        assert(outs.skip(i) =~= seq![outs[i]] + outs.skip(i + 1));
    } else {
        assert(outs.skip(i) =~= Seq::<Val>::empty());
    }
}

/// The entries the unknown scan passes through are input entries with
/// pairwise distinct keys, drawn in order from the input.
proof fn lemma_unknown_from_entries(
    fields: Seq<ObjectField>,
    entries: Seq<(Seq<char>, Val)>,
    i: int,
)
    requires
        0 <= i <= entries.len(),
        forall|a: int, b: int| 0 <= a < b < entries.len() ==> entries[a].0 != entries[b].0,
    ensures
        forall|k: int|
            0 <= k < unknown_from(fields, entries, i).len() ==> exists|j: int|
                i <= j < entries.len() && (#[trigger] unknown_from(fields, entries, i)[k])
                    == entries[j],
        forall|a: int, b: int|
            0 <= a < b < unknown_from(fields, entries, i).len() ==> unknown_from(
                fields,
                entries,
                i,
            )[a].0 != unknown_from(fields, entries, i)[b].0,
    decreases entries.len() - i,
{
    if i < entries.len() {
        lemma_unknown_from_entries(fields, entries, i + 1);
        let u = unknown_from(fields, entries, i);
        if !has_field(fields, entries[i].0) {
            let tail = unknown_from(fields, entries, i + 1);
            assert forall|k: int| 0 <= k < u.len() implies exists|j: int|
                i <= j < entries.len() && (#[trigger] u[k]) == entries[j] by {
                if k == 0 {
                    assert(u[0] == entries[i]);
                } else {
                    assert(u[k] == tail[k - 1]);
                    let j = choose|j: int|
                        i + 1 <= j < entries.len() && (#[trigger] tail[k - 1]) == entries[j];
                    assert(u[k] == entries[j]);
                }
            }
            assert forall|a: int, b: int| 0 <= a < b < u.len() implies u[a].0 != u[b].0 by {
                if a == 0 {
                    assert(u[b] == tail[b - 1]);
                    let j = choose|j: int|
                        i + 1 <= j < entries.len() && (#[trigger] tail[b - 1]) == entries[j];
                    assert(u[0] == entries[i]);
                    assert(u[b] == entries[j]);
                } else {
                    assert(u[a] == tail[a - 1]);
                    assert(u[b] == tail[b - 1]);
                }
            }
        }
    }
}

/// The declared outputs carry pairwise distinct keys.
proof fn lemma_eval_fields_keys_distinct(
    fields: Seq<ObjectField>,
    i: int,
    entries: Seq<(Seq<char>, Val)>,
    outs: Seq<(Seq<char>, Val)>,
)
    requires
        0 <= i <= fields.len(),
        eval_fields(fields, i, entries) == Ok::<Seq<(Seq<char>, Val)>, ErrV>(outs),
        forall|a: int, b: int|
            0 <= a < b < fields.len() ==> (#[trigger] fields[a]).name@ != (
            #[trigger] fields[b]).name@,
    ensures
        forall|a: int, b: int| 0 <= a < b < outs.len() ==> outs[a].0 != outs[b].0,
    decreases fields.len() - i,
{
    if i < fields.len() {
        let f = fields[i];
        match obj_lookup(entries, f.name@) {
            Some(fv) => {
                let tail = eval_fields(fields, i + 1, entries)->Ok_0;
                assert(outs == seq![(f.name@, eval_schema(f.schema, fv)->Ok_0)] + tail);
                assert(outs.drop_first() =~= tail);
                lemma_eval_fields_keys_distinct(fields, i + 1, entries, tail);
                lemma_eval_fields_ok_shape(fields, i + 1, entries, tail);
                assert forall|a: int, b: int| 0 <= a < b < outs.len() implies outs[a].0
                    != outs[b].0 by {
                    if a == 0 {
                        assert(outs[b] == tail[b - 1]);
                        let j = choose|j: int|
                            i + 1 <= j < fields.len() && (#[trigger] tail[b - 1]).0
                                == fields[j].name@;
                        assert(outs[b].0 == fields[j].name@);
                        assert(outs[0].0 == fields[i].name@);
                    } else {
                        assert(outs[a] == tail[a - 1]);
                        assert(outs[b] == tail[b - 1]);
                    }
                }
            },
            None => {
                lemma_eval_fields_keys_distinct(fields, i + 1, entries, outs);
            },
        }
    }
}

/// Every value among the declared outputs is well formed.
proof fn lemma_eval_fields_outputs_wf(
    fields: Seq<ObjectField>,
    i: int,
    entries: Seq<(Seq<char>, Val)>,
    outs: Seq<(Seq<char>, Val)>,
)
    requires
        0 <= i <= fields.len(),
        eval_fields(fields, i, entries) == Ok::<Seq<(Seq<char>, Val)>, ErrV>(outs),
        forall|j: int| 0 <= j < fields.len() ==> (#[trigger] fields[j]).schema.wf(),
        forall|j: int| 0 <= j < entries.len() ==> val_wf((#[trigger] entries[j]).1),
    ensures
        forall|k: int| 0 <= k < outs.len() ==> val_wf((#[trigger] outs[k]).1),
    decreases fields, fields.len() - i + 1,
{
    if i < fields.len() {
        let f = fields[i];
        match obj_lookup(entries, f.name@) {
            Some(fv) => {
                let tail = eval_fields(fields, i + 1, entries)->Ok_0;
                assert(outs == seq![(f.name@, eval_schema(f.schema, fv)->Ok_0)] + tail);
                assert(outs.drop_first() =~= tail);
                lemma_obj_lookup_wf_law(entries, f.name@);
                lemma_eval_preserves_wf(f.schema, fv);
                lemma_eval_fields_outputs_wf(fields, i + 1, entries, tail);
                assert forall|k: int| 0 <= k < outs.len() implies val_wf(
                    (#[trigger] outs[k]).1,
                ) by {
                    if k > 0 {
                        assert(outs[k] == tail[k - 1]);
                    }
                }
            },
            None => {
                lemma_eval_fields_outputs_wf(fields, i + 1, entries, outs);
            },
        }
    }
}

/// Validation preserves well-formedness: every value a validator returns is
/// itself well formed, for every well-formed schema and input.
#[verifier::rlimit(100)]
pub proof fn lemma_eval_preserves_wf(s: SchemaType, v: Val)
    requires
        s.wf(),
        val_wf(v),
        eval_schema(s, v) is Ok,
    ensures
        val_wf(eval_schema(s, v)->Ok_0),
    decreases s, 3int,
{
    match s {
        SchemaType::String(ss) => {
            match eval_string(ss, v) {
                Ok(o) => {
                    assert(o is Str || o is Null);
                },
                Err(_) => {},
            }
        },
        SchemaType::Number(ns) => {
            crate::transform::lemma_apply_transforms_wf(ns.transforms@, v);
            let t = apply_transforms(ns.transforms@, v);
            match t {
                Val::Str(text) => {
                    crate::text::lemma_parse_micros_range(text);
                },
                _ => {},
            }
        },
        SchemaType::Boolean(_) => {},
        SchemaType::Array(a) => {
            lemma_eval_wf_array(*a, v);
        },
        SchemaType::Object(o) => {
            lemma_eval_wf_object(*o, v);
        },
        SchemaType::Union(u) => {
            crate::schema::lemma_schemas_wf(u.schemas@);
            match u.strategy {
                UnionStrategy::First => {
                    lemma_first_wf(u.schemas@, v, 0);
                },
                UnionStrategy::All => {
                    lemma_eval_all_ok_is_input(u.schemas@, v, 0);
                },
                UnionStrategy::Best(score) => {
                    lemma_best_wf(u.schemas@, score, v, 0, None);
                },
            }
        },
    }
}

/// When every alternative accepts, the all-must-match scan returns the
/// original input unchanged.
proof fn lemma_eval_all_ok_is_input(schemas: Seq<SchemaType>, v: Val, i: int)
    requires
        eval_all(schemas, v, i) is Ok,
    ensures
        eval_all(schemas, v, i)->Ok_0 == v,
    decreases schemas.len() - i + 1,
{
    if 0 <= i < schemas.len() {
        lemma_eval_all_ok_is_input(schemas, v, i + 1);
    }
}

/// A successful array validation returns a well-formed array.
#[verifier::spinoff_prover]
proof fn lemma_eval_wf_array(a: crate::schema::ArraySchema, v: Val)
    requires
        a.item_schema.wf(),
        val_wf(v),
        eval_array(a, v) is Ok,
    ensures
        val_wf(eval_array(a, v)->Ok_0),
    decreases a, 2int,
{
    match v {
        Val::Arr(items) => {
            crate::value::lemma_vals_wf(items);
            let outs = eval_items(*a.item_schema, items, 0)->Ok_0;
            lemma_eval_items_ok_inv(*a.item_schema, items, 0, outs);
            assert forall|j: int| 0 <= j < outs.len() implies val_wf(#[trigger] outs[j]) by {
                lemma_eval_preserves_wf(*a.item_schema, items[j]);
            }
            crate::value::lemma_vals_wf(outs);
        },
        _ => {},
    }
}

/// A successful object validation returns a well-formed object: the values
/// are well formed and no key repeats.
#[verifier::rlimit(100)]
#[verifier::spinoff_prover]
proof fn lemma_eval_wf_object(o: crate::schema::ObjectSchema, v: Val)
    requires
        obj_fields_wf(o.fields@),
        (forall|a: int, b: int|
            0 <= a < b < o.fields@.len() ==> (#[trigger] o.fields@[a]).name@ != (
            #[trigger] o.fields@[b]).name@),
        val_wf(v),
        eval_object(o, v) is Ok,
    ensures
        val_wf(eval_object(o, v)->Ok_0),
    decreases o, 2int,
{
    match v {
        Val::Obj(entries) => {
            crate::value::lemma_entries_wf(entries);
            crate::schema::lemma_obj_fields_wf(o.fields@);
            let douts = eval_fields(o.fields@, 0, entries)->Ok_0;
            lemma_eval_fields_ok_shape(o.fields@, 0, entries, douts);
            lemma_eval_fields_outputs_wf(o.fields@, 0, entries, douts);
            lemma_eval_fields_keys_distinct(o.fields@, 0, entries, douts);
            crate::value::lemma_entries_wf(douts);
            if o.strict {
            } else {
                let unknowns = unknown_from(o.fields@, entries, 0);
                let res = douts + unknowns;
                lemma_unknown_from_shape(o.fields@, entries, 0);
                lemma_unknown_from_entries(o.fields@, entries, 0);
                assert forall|k: int| 0 <= k < res.len() implies val_wf(
                    (#[trigger] res[k]).1,
                ) by {
                    if k >= douts.len() {
                        assert(res[k] == unknowns[k - douts.len()]);
                        let j = choose|j: int|
                            0 <= j < entries.len() && (#[trigger] unknowns[k - douts.len()])
                                == entries[j];
                    }
                }
                crate::value::lemma_entries_wf(res);
                assert forall|a: int, b: int|
                    0 <= a < b < res.len() implies res[a].0 != res[b].0 by {
                    if b < douts.len() {
                    } else if a >= douts.len() {
                        assert(res[a] == unknowns[a - douts.len()]);
                        assert(res[b] == unknowns[b - douts.len()]);
                    } else {
                        // a declared output against a passed-through unknown:
                        // one key is declared, the other not
                        assert(res[b] == unknowns[b - douts.len()]);
                        assert(!has_field(o.fields@, res[b].0));
                        let j = choose|j: int|
                            0 <= j < o.fields@.len() && (#[trigger] douts[a]).0
                                == o.fields@[j].name@;
                        assert(has_field(o.fields@, res[a].0));
                    }
                }
            }
        },
        _ => {},
    }
}

/// A value found among well-formed entries is well formed.
proof fn lemma_obj_lookup_wf_law(entries: Seq<(Seq<char>, Val)>, key: Seq<char>)
    requires
        forall|j: int| 0 <= j < entries.len() ==> val_wf((#[trigger] entries[j]).1),
    ensures
        obj_lookup(entries, key) matches Some(fv) ==> val_wf(fv),
    decreases entries.len(),
{
    if entries.len() > 0 && entries[0].0 != key {
        assert forall|j: int|
            0 <= j < entries.drop_first().len() implies val_wf(
            (#[trigger] entries.drop_first()[j]).1,
        ) by {
            assert(entries.drop_first()[j] == entries[j + 1]);
        }
        lemma_obj_lookup_wf_law(entries.drop_first(), key);
    }
}

/// A first-match success returns a well-formed value.
proof fn lemma_first_wf(schemas: Seq<SchemaType>, v: Val, i: int)
    requires
        val_wf(v),
        forall|j: int| 0 <= j < schemas.len() ==> (#[trigger] schemas[j]).wf(),
        eval_first(schemas, v, i) is Ok,
    ensures
        val_wf(eval_first(schemas, v, i)->Ok_0),
    decreases schemas, schemas.len() - i + 1,
{
    if 0 <= i < schemas.len() {
        if eval_schema(schemas[i], v) is Ok {
            lemma_eval_preserves_wf(schemas[i], v);
        } else if i < schemas.len() - 1 {
            lemma_first_wf(schemas, v, i + 1);
        }
    }
}

/// A best-match success returns a well-formed value.
proof fn lemma_best_wf(
    schemas: Seq<SchemaType>,
    score: crate::schema::ErrorScore,
    v: Val,
    i: int,
    best: Option<(int, ErrV)>,
)
    requires
        val_wf(v),
        forall|j: int| 0 <= j < schemas.len() ==> (#[trigger] schemas[j]).wf(),
        eval_best(schemas, score, v, i, best) is Ok,
    ensures
        val_wf(eval_best(schemas, score, v, i, best)->Ok_0),
    decreases schemas, schemas.len() - i + 1,
{
    if 0 <= i < schemas.len() {
        match eval_schema(schemas[i], v) {
            Ok(_) => {
                lemma_eval_preserves_wf(schemas[i], v);
            },
            Err(e) => {
                let sc = score.score_of(e.code);
                let cur = match best {
                    Some(b) => b.0,
                    None => 4_294_967_295int,
                };
                let next = if sc < cur {
                    Some((sc, e))
                } else {
                    best
                };
                lemma_best_wf(schemas, score, v, i + 1, next);
            },
        }
    }
}

} // verus!
