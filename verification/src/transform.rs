//! The transform pipeline: pure value-to-value steps applied, in attachment
//! order, before a validator checks its constraints. A transform that does
//! not apply to a value's kind passes the value through unchanged.

use vstd::prelude::*;
use crate::schema::Transform;
use crate::text::{
    trim_seq, trim_str, lower_seq, lower_str, upper_seq, upper_str, parse_micros, parse_decimal,
    render_micros, num_to_string,
};
use crate::value::{val_wf, Num, Val, Value};

verus! {

/// What one transform makes of a value.
pub open spec fn apply_transform(t: Transform, v: Val) -> Val {
    match t {
        Transform::Trim => match v {
            Val::Str(s) => Val::Str(trim_seq(s)),
            _ => v,
        },
        Transform::ToLowerCase => match v {
            Val::Str(s) => Val::Str(lower_seq(trim_seq(s))),
            _ => v,
        },
        Transform::ToUpperCase => match v {
            Val::Str(s) => Val::Str(upper_seq(trim_seq(s))),
            _ => v,
        },
        Transform::ParseNumber => match v {
            Val::Str(s) => match parse_micros(trim_seq(s)) {
                Some(n) => Val::Num(n),
                None => v,
            },
            _ => v,
        },
        Transform::ToInteger => match v {
            Val::Num(n) => Val::Num(Num::floor_micros(n)),
            _ => v,
        },
        Transform::Stringify => match v {
            Val::Str(s) => Val::Str(s),
            Val::Num(n) => Val::Str(render_micros(n)),
            Val::Bool(b) => Val::Str(
                if b {
                    "true"@
                } else {
                    "false"@
                },
            ),
            Val::Null => Val::Str("null"@),
            _ => v,
        },
    }
}

/// What the whole pipeline makes of a value, applied left to right.
pub open spec fn apply_transforms(ts: Seq<Transform>, v: Val) -> Val
    decreases ts.len(),
{
    if ts.len() == 0 {
        v
    } else {
        apply_transforms(ts.drop_first(), apply_transform(ts[0], v))
    }
}

/// Transforms keep values well formed.
pub proof fn lemma_apply_transform_wf(t: Transform, v: Val)
    requires
        val_wf(v),
    ensures
        val_wf(apply_transform(t, v)),
{
    match t {
        Transform::ParseNumber => {
            match v {
                Val::Str(s) => {
                    crate::text::lemma_parse_micros_range(trim_seq(s));
                },
                _ => {},
            }
        },
        _ => {},
    }
}

/// A whole pipeline keeps values well formed.
pub proof fn lemma_apply_transforms_wf(ts: Seq<Transform>, v: Val)
    requires
        val_wf(v),
    ensures
        val_wf(apply_transforms(ts, v)),
    decreases ts.len(),
{
    if ts.len() > 0 {
        lemma_apply_transform_wf(ts[0], v);
        lemma_apply_transforms_wf(ts.drop_first(), apply_transform(ts[0], v));
    }
}

impl Transform {
    /// Applies the transform to a value, returning the new value.
    pub fn apply(&self, value: Value) -> (r: Value)
        requires
            val_wf(value.dv()),
        ensures
            r.dv() == apply_transform(*self, value.dv()),
            val_wf(r.dv()),
    {
        proof {
            lemma_apply_transform_wf(*self, value.dv());
        }
        match self {
            Transform::Trim => match value {
                Value::String(s) => Value::String(trim_str(s.as_str())),
                other => other,
            },
            Transform::ToLowerCase => match value {
                Value::String(s) => Value::String(lower_str(trim_str(s.as_str()).as_str())),
                other => other,
            },
            Transform::ToUpperCase => match value {
                Value::String(s) => Value::String(upper_str(trim_str(s.as_str()).as_str())),
                other => other,
            },
            Transform::ParseNumber => match value {
                Value::String(s) => {
                    let trimmed = trim_str(s.as_str());
                    match parse_decimal(trimmed.as_str()) {
                        Some(n) => Value::Number(n),
                        None => Value::String(s),
                    }
                },
                other => other,
            },
            Transform::ToInteger => match value {
                Value::Number(n) => Value::Number(n.floor()),
                other => other,
            },
            Transform::Stringify => match value {
                Value::String(s) => Value::String(s),
                Value::Number(n) => Value::String(num_to_string(&n)),
                Value::Bool(b) => {
                    if b {
                        Value::String("true".to_owned())
                    } else {
                        Value::String("false".to_owned())
                    }
                },
                Value::Null => Value::String("null".to_owned()),
                other => other,
            },
        }
    }
}

/// Runs the pipeline over a value, in attachment order.
pub(crate) fn run_transforms(transforms: &Vec<Transform>, value: Value) -> (r: Value)
    requires
        val_wf(value.dv()),
    ensures
        r.dv() == apply_transforms(transforms@, value.dv()),
        val_wf(r.dv()),
{
    let mut current = value;
    let mut i: usize = 0;
    while i < transforms.len()
        invariant
            i <= transforms@.len(),
            current.dv() == apply_transforms_upto(transforms@, value.dv(), i as int),
            val_wf(current.dv()),
        decreases transforms@.len() - i,
    {
        let t = transforms[i];
        current = t.apply(current);
        i += 1;
    }
    proof {
        lemma_apply_transforms_upto_full(transforms@, value.dv());
    }
    current
}

/// The value after the first `k` transforms of the pipeline.
pub open spec fn apply_transforms_upto(ts: Seq<Transform>, v: Val, k: int) -> Val
    decreases k,
{
    if k <= 0 {
        v
    } else {
        apply_transform(ts[k - 1], apply_transforms_upto(ts, v, k - 1))
    }
}

/// Applying every transform step by step ends at the pipeline's result.
pub proof fn lemma_apply_transforms_upto_full(ts: Seq<Transform>, v: Val)
    ensures
        apply_transforms_upto(ts, v, ts.len() as int) == apply_transforms(ts, v),
    decreases ts.len(),
{
    lemma_apply_transforms_upto_shift(ts, v, ts.len() as int);
    assert(ts.take(ts.len() as int) =~= ts);
}

/// The step-by-step form agrees with the recursive definition.
pub proof fn lemma_apply_transforms_upto_shift(ts: Seq<Transform>, v: Val, k: int)
    requires
        0 <= k <= ts.len(),
    ensures
        apply_transforms_upto(ts, v, k) == apply_transforms(ts.take(k), v),
    decreases k,
{
    if k > 0 {
        lemma_apply_transforms_upto_shift(ts, v, k - 1);
        lemma_apply_transforms_snoc(ts.take(k - 1), ts[k - 1], v);
        assert(ts.take(k).drop_last() =~= ts.take(k - 1));
        assert(ts.take(k) =~= ts.take(k - 1).push(ts[k - 1]));
    }
}

/// Appending one transform to a pipeline applies it after the rest.
pub proof fn lemma_apply_transforms_snoc(ts: Seq<Transform>, t: Transform, v: Val)
    ensures
        apply_transforms(ts.push(t), v) == apply_transform(t, apply_transforms(ts, v)),
    decreases ts.len(),
{
    if ts.len() == 0 {
        assert(ts.push(t).drop_first() =~= Seq::<Transform>::empty());
    } else {
        assert(ts.push(t).drop_first() =~= ts.drop_first().push(t));
        assert(ts.push(t)[0] == ts[0]);
        lemma_apply_transforms_snoc(ts.drop_first(), t, apply_transform(ts[0], v));
    }
}

} // verus!
