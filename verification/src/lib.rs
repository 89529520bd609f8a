//! A composable schema-validation engine for JSON-like data: schemas are
//! built from primitive and combinator pieces, validate an input value, and
//! return either a transformed, normalized value or a structured,
//! path-qualified error. Unions of alternatives resolve by first-match,
//! all-must-match, or best-match-by-score.

use vstd::prelude::*;

pub mod error;
pub mod eval;
pub mod laws;
pub mod pattern;
pub mod schema;
pub mod text;
pub mod transform;
pub mod validate;
pub mod value;

use schema::{
    ArraySchema, BooleanSchema, NumberSchema, ObjectSchema, Schema, SchemaType, StringSchemaImpl,
    UnionSchema,
};

verus! {

/// A new string schema with no constraints.
pub fn string() -> (r: StringSchemaImpl)
    ensures
        r.min_length is None,
        r.max_length is None,
        r.pattern is None,
        !r.email,
        !r.optional,
        r.error_messages@ == Seq::<(String, String)>::empty(),
        r.transforms@ == Seq::<schema::Transform>::empty(),
{
    StringSchemaImpl::default()
}

/// A new number schema with no bounds.
pub fn number() -> (r: NumberSchema)
    ensures
        r.min is None,
        r.max is None,
        !r.integer,
        !r.coerce,
        !r.optional,
        r.error_messages@ == Seq::<(String, String)>::empty(),
        r.transforms@ == Seq::<schema::Transform>::empty(),
{
    NumberSchema::default()
}

/// A new boolean schema.
pub fn boolean() -> (r: BooleanSchema)
    ensures
        !r.optional,
        r.error_messages@ == Seq::<(String, String)>::empty(),
{
    BooleanSchema::default()
}

/// A new array schema over the given item schema.
pub fn array<S: Schema>(schema: S) -> (r: ArraySchema)
    ensures
        *r.item_schema == schema.schema_type_spec(),
        r.min_items is None,
        r.max_items is None,
        !r.optional,
        r.error_messages@ == Seq::<(String, String)>::empty(),
{
    ArraySchema::new(schema)
}

/// A new object schema with no declared fields, in strict mode.
pub fn object() -> (r: ObjectSchema)
    ensures
        r.fields@ == Seq::<schema::ObjectField>::empty(),
        r.strict,
        !r.optional,
        r.error_messages@ == Seq::<(String, String)>::empty(),
{
    ObjectSchema::default()
}

/// A new first-match union over the given alternatives.
pub fn union<S: Schema>(schemas: Vec<S>) -> (r: UnionSchema)
    ensures
        r.schemas@.len() == schemas@.len(),
        forall|i: int|
            0 <= i < schemas@.len() ==> r.schemas@[i] == (
            #[trigger] schemas@[i]).schema_type_spec(),
        r.strategy is First,
        r.error_messages@ == Seq::<(String, String)>::empty(),
{
    let ghost orig = schemas@;
    let mut rest = schemas;
    let mut converted: Vec<SchemaType> = Vec::new();
    while rest.len() > 0
        invariant
            converted@.len() + rest@.len() == orig.len(),
            rest@ == orig.skip(converted@.len() as int),
            forall|i: int|
                0 <= i < converted@.len() ==> converted@[i] == (
                #[trigger] orig[i]).schema_type_spec(),
        decreases rest@.len(),
    {
        let ghost done = converted@.len() as int;
        let s = rest.remove(0);
        proof {
            assert(rest@ =~= orig.skip(done + 1));
            assert(orig.skip(done)[0] == orig[done]);
        }
        converted.push(s.into_schema_type());
    }
    UnionSchema::new(converted)
}

} // verus!
