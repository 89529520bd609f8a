//! The value model: a tagged union over null, booleans, numbers, strings,
//! arrays and string-keyed objects, together with its mathematical mirror.
//!
//! Numbers are held in fixed-point form: a value is `micros` millionths, so
//! every quantity the validators compare or floor is plain integer arithmetic.

use vstd::prelude::*;

verus! {

/// Largest magnitude, in millionths, that a `Num` may hold. It is a multiple
/// of one million, so flooring a well-formed number stays well-formed.
pub const NUM_LIMIT_MICROS: i64 = 9_000_000_000_000_000_000;

/// Largest whole number that `Num::from_int` accepts.
pub const NUM_LIMIT_WHOLE: i64 = 9_000_000_000_000;

/// A decimal number with six fractional digits, stored as millionths.
#[derive(Clone, Copy, Debug, PartialEq, Eq, Structural)]
pub struct Num {
    pub micros: i64,
}

impl Num {
    /// A number is well formed when its magnitude stays within the fixed
    /// range, which keeps every arithmetic step of the validators in bounds.
    pub open spec fn wf(self) -> bool {
        -NUM_LIMIT_MICROS <= self.micros <= NUM_LIMIT_MICROS
    }

    pub fn from_micros(micros: i64) -> (r: Num)
        requires
            -NUM_LIMIT_MICROS <= micros <= NUM_LIMIT_MICROS,
        ensures
            r.micros == micros,
            r.wf(),
    {
        Num { micros }
    }

    pub fn from_int(whole: i64) -> (r: Num)
        requires
            -NUM_LIMIT_WHOLE <= whole <= NUM_LIMIT_WHOLE,
        ensures
            r.micros == whole * 1_000_000,
            r.wf(),
    {
        Num { micros: whole * 1_000_000 }
    }

    /// Whether the number is a whole number.
    pub open spec fn spec_is_whole(self) -> bool {
        self.micros as int % 1_000_000 == 0
    }

    pub fn is_whole(&self) -> (r: bool)
        requires
            self.wf(),
        ensures
            r == self.spec_is_whole(),
    {
        if self.micros >= 0 {
            self.micros % 1_000_000 == 0
        } else {
            let mag = -self.micros;
            mag % 1_000_000 == 0
        }
    }

    /// The greatest whole number not above this one, in millionths.
    pub open spec fn floor_micros(m: int) -> int {
        m - (m % 1_000_000)
    }

    /// Rounds toward negative infinity to a whole number.
    pub fn floor(self) -> (r: Num)
        requires
            self.wf(),
        ensures
            r.micros as int == Num::floor_micros(self.micros as int),
            r.wf(),
    {
        if self.micros >= 0 {
            let rem = self.micros % 1_000_000;
            Num { micros: self.micros - rem }
        } else {
            let mag = -self.micros;
            let rem = mag % 1_000_000;
            if rem == 0 {
                self
            } else {
                Num { micros: self.micros - (1_000_000 - rem) }
            }
        }
    }
}

/// Mathematical mirror of `Value`: numbers as integers (millionths), strings
/// as character sequences, objects as ordered key-value sequences.
pub enum Val {
    Null,
    Bool(bool),
    Num(int),
    Str(Seq<char>),
    Arr(Seq<Val>),
    Obj(Seq<(Seq<char>, Val)>),
}

/// A JSON-like value: the input and output shape of every validator.
#[derive(Debug, PartialEq)]
pub enum Value {
    Null,
    Bool(bool),
    Number(Num),
    String(String),
    Array(Vec<Value>),
    Object(Vec<(String, Value)>),
}

impl Value {
    /// The mathematical content of a value.
    pub open spec fn dv(self) -> Val
        decreases self,
    {
        match self {
            Value::Null => Val::Null,
            Value::Bool(b) => Val::Bool(b),
            Value::Number(n) => Val::Num(n.micros as int),
            Value::String(s) => Val::Str(s@),
            Value::Array(items) => Val::Arr(Value::items_dv(items@)),
            Value::Object(fields) => Val::Obj(Value::entries_dv(fields@)),
        }
    }

    pub open spec fn items_dv(items: Seq<Value>) -> Seq<Val>
        decreases items,
    {
        if items.len() == 0 {
            Seq::empty()
        } else {
            Value::items_dv(items.drop_last()).push(items.last().dv())
        }
    }

    pub open spec fn entries_dv(fields: Seq<(String, Value)>) -> Seq<(Seq<char>, Val)>
        decreases fields,
    {
        if fields.len() == 0 {
            Seq::empty()
        } else {
            Value::entries_dv(fields.drop_last()).push(
                (fields.last().0@, fields.last().1.dv()),
            )
        }
    }
}

/// The view of an array's elements is the elements' views, index by index.
pub proof fn lemma_items_dv(items: Seq<Value>)
    ensures
        Value::items_dv(items).len() == items.len(),
        forall|i: int|
            0 <= i < items.len() ==> #[trigger] Value::items_dv(items)[i] == items[i].dv(),
    decreases items.len(),
{
    if items.len() > 0 {
        lemma_items_dv(items.drop_last());
    }
}

/// The view of an object's entries is the entries' views, index by index.
pub proof fn lemma_entries_dv(fields: Seq<(String, Value)>)
    ensures
        Value::entries_dv(fields).len() == fields.len(),
        forall|i: int|
            0 <= i < fields.len() ==> #[trigger] Value::entries_dv(fields)[i] == (
            fields[i].0@,
            fields[i].1.dv(),
            ),
    decreases fields.len(),
{
    if fields.len() > 0 {
        lemma_entries_dv(fields.drop_last());
    }
}

/// Well-formedness of a value: every number in range, every object without a
/// repeated key.
pub open spec fn val_wf(v: Val) -> bool
    decreases v,
{
    match v {
        Val::Null => true,
        Val::Bool(_) => true,
        Val::Num(n) => -NUM_LIMIT_MICROS <= n <= NUM_LIMIT_MICROS,
        Val::Str(_) => true,
        Val::Arr(items) => vals_wf(items),
        Val::Obj(fields) => {
            &&& entries_wf(fields)
            &&& forall|i: int, j: int|
                0 <= i < j < fields.len() ==> fields[i].0 != fields[j].0
        },
    }
}

pub open spec fn vals_wf(items: Seq<Val>) -> bool
    decreases items,
{
    if items.len() == 0 {
        true
    } else {
        vals_wf(items.drop_last()) && val_wf(items.last())
    }
}

pub open spec fn entries_wf(fields: Seq<(Seq<char>, Val)>) -> bool
    decreases fields,
{
    if fields.len() == 0 {
        true
    } else {
        entries_wf(fields.drop_last()) && val_wf(fields.last().1)
    }
}

/// A sequence of values is well formed exactly when each element is.
pub proof fn lemma_vals_wf(items: Seq<Val>)
    ensures
        vals_wf(items) <==> (forall|i: int| 0 <= i < items.len() ==> val_wf(#[trigger] items[i])),
    decreases items.len(),
{
    if items.len() > 0 {
        lemma_vals_wf(items.drop_last());
        assert(forall|i: int|
            0 <= i < items.len() - 1 ==> items.drop_last()[i] == #[trigger] items[i]);
        assert(items.last() == items[items.len() - 1]);
    }
}

/// A sequence of object entries is well formed exactly when each value is.
pub proof fn lemma_entries_wf(fields: Seq<(Seq<char>, Val)>)
    ensures
        entries_wf(fields) <==> (forall|i: int|
            0 <= i < fields.len() ==> val_wf(#[trigger] fields[i].1)),
    decreases fields.len(),
{
    if fields.len() > 0 {
        lemma_entries_wf(fields.drop_last());
        assert(forall|i: int|
            0 <= i < fields.len() - 1 ==> fields.drop_last()[i] == #[trigger] fields[i]);
        assert(fields.last() == fields[fields.len() - 1]);
    }
}

impl Value {
    /// A structurally equal copy of the value.
    #[verifier::loop_isolation(false)]
    pub fn duplicate(&self) -> (r: Value)
        ensures
            r.dv() == self.dv(),
        decreases self,
    {
        match self {
            Value::Null => Value::Null,
            Value::Bool(b) => Value::Bool(*b),
            Value::Number(n) => Value::Number(*n),
            Value::String(s) => Value::String(s.clone()),
            Value::Array(items) => {
                let mut out: Vec<Value> = Vec::new();
                let mut i: usize = 0;
                while i < items.len()
                    invariant
                        i <= items@.len(),
                        out@.len() == i,
                        forall|j: int| 0 <= j < i ==> (#[trigger] out@[j]).dv() == items@[j].dv(),
                    decreases items@.len() - i,
                {
                    let copied = items[i].duplicate();
                    out.push(copied);
                    i += 1;
                }
                proof {
                    lemma_items_dv(out@);
                    lemma_items_dv(items@);
                    assert(Value::items_dv(out@) =~= Value::items_dv(items@));
                }
                Value::Array(out)
            },
            Value::Object(fields) => {
                let mut out: Vec<(String, Value)> = Vec::new();
                let mut i: usize = 0;
                while i < fields.len()
                    invariant
                        i <= fields@.len(),
                        out@.len() == i,
                        forall|j: int|
                            0 <= j < i ==> (#[trigger] out@[j]).0@ == fields@[j].0@ && out@[j].1.dv()
                                == fields@[j].1.dv(),
                    decreases fields@.len() - i,
                {
                    let name = fields[i].0.clone();
                    let copied = fields[i].1.duplicate();
                    out.push((name, copied));
                    i += 1;
                }
                proof {
                    lemma_entries_dv(out@);
                    lemma_entries_dv(fields@);
                    assert(Value::entries_dv(out@) =~= Value::entries_dv(fields@));
                }
                Value::Object(out)
            },
        }
    }
}

/// The canonical lowercase name of a value's kind, as reported in
/// type-mismatch error details.
pub open spec fn spec_type_name(v: Val) -> Seq<char> {
    match v {
        Val::Null => "null"@,
        Val::Bool(_) => "boolean"@,
        Val::Num(_) => "number"@,
        Val::Str(_) => "string"@,
        Val::Arr(_) => "array"@,
        Val::Obj(_) => "object"@,
    }
}

/// Maps each value variant to its canonical lowercase type name.
pub fn get_type_name(value: &Value) -> (r: &'static str)
    ensures
        r@ == spec_type_name(value.dv()),
{
    match value {
        Value::Null => "null",
        Value::Bool(_) => "boolean",
        Value::Number(_) => "number",
        Value::String(_) => "string",
        Value::Array(_) => "array",
        Value::Object(_) => "object",
    }
}

} // verus!
