//! The schema model: a closed variant type over the five validator kinds and
//! the union combinator, with the value-returning builders that configure
//! them. Schemas are built once and never mutated by validation.

use vstd::prelude::*;
use crate::value::Num;
use crate::text::{dec_digits, u64_to_string};

verus! {

/// A pure value-to-value step applied before constraint checking.
#[derive(Clone, Copy, Debug, PartialEq, Eq, Structural)]
pub enum Transform {
    /// Remove leading and trailing white space from a string.
    Trim,
    /// Trim, then fold ASCII letters to lower case.
    ToLowerCase,
    /// Trim, then fold ASCII letters to upper case.
    ToUpperCase,
    /// Parse a trimmed string as a decimal number.
    ParseNumber,
    /// Round a number toward negative infinity to a whole number.
    ToInteger,
    /// Render a scalar as its string form.
    Stringify,
}

/// The view of an override table: code-message pairs in insertion order.
pub open spec fn msgs_v(msgs: Seq<(String, String)>) -> Seq<(Seq<char>, Seq<char>)> {
    msgs.map_values(|m: (String, String)| (m.0@, m.1@))
}

/// The override for a code: the last insertion wins, as a map insert would.
pub open spec fn lookup_msg(msgs: Seq<(Seq<char>, Seq<char>)>, code: Seq<char>) -> Option<
    Seq<char>,
>
    decreases msgs.len(),
{
    if msgs.len() == 0 {
        None
    } else if msgs.last().0 == code {
        Some(msgs.last().1)
    } else {
        lookup_msg(msgs.drop_last(), code)
    }
}

/// Looks up the override message for a code, latest insertion first.
pub(crate) fn lookup_msg_exec(msgs: &Vec<(String, String)>, code: &str) -> (r: Option<String>)
    ensures
        match r {
            Some(m) => lookup_msg(msgs_v(msgs@), code@) == Some(m@),
            None => lookup_msg(msgs_v(msgs@), code@) is None,
        },
{
    let mut i = msgs.len();
    proof {
        assert(msgs_v(msgs@).take(i as int) =~= msgs_v(msgs@));
    }
    while i > 0
        invariant
            i <= msgs@.len(),
            lookup_msg(msgs_v(msgs@), code@) == lookup_msg(msgs_v(msgs@).take(i as int), code@),
        decreases i,
    {
        i = i - 1;
        let entry_code = &msgs[i].0;
        if crate::error::str_eq(entry_code.as_str(), code) {
            proof {
                assert(msgs_v(msgs@).take(i + 1).last() == (msgs@[i as int].0@, msgs@[i as int].1@));
            }
            return Some(msgs[i].1.clone());
        }
        proof {
            assert(msgs_v(msgs@).take(i + 1).last() == (msgs@[i as int].0@, msgs@[i as int].1@));
            assert(msgs_v(msgs@).take(i + 1).drop_last() =~= msgs_v(msgs@).take(i as int));
        }
    }
    proof {
        assert(msgs_v(msgs@).take(0) =~= Seq::<(Seq<char>, Seq<char>)>::empty());
    }
    None
}

/// A string validator: length bounds, a pattern, the fixed email form, an
/// optional flag, message overrides, and a transform pipeline.
#[derive(Debug)]
pub struct StringSchemaImpl {
    pub min_length: Option<usize>,
    pub max_length: Option<usize>,
    pub pattern: Option<String>,
    pub email: bool,
    pub optional: bool,
    pub error_messages: Vec<(String, String)>,
    pub transforms: Vec<Transform>,
}

/// A number validator: inclusive bounds, a whole-number flag, string
/// coercion, an optional flag, message overrides, and a transform pipeline.
#[derive(Debug)]
pub struct NumberSchema {
    pub min: Option<Num>,
    pub max: Option<Num>,
    pub integer: bool,
    pub coerce: bool,
    pub optional: bool,
    pub error_messages: Vec<(String, String)>,
    pub transforms: Vec<Transform>,
}

/// A boolean validator: type identity only, plus null handling.
#[derive(Debug)]
pub struct BooleanSchema {
    pub optional: bool,
    pub error_messages: Vec<(String, String)>,
}

/// An array validator: one item schema and cardinality bounds.
#[derive(Debug)]
pub struct ArraySchema {
    pub item_schema: Box<SchemaType>,
    pub min_items: Option<usize>,
    pub max_items: Option<usize>,
    pub optional: bool,
    pub error_messages: Vec<(String, String)>,
}

/// One declared object field: its name, its schema, and whether it must be
/// present.
#[derive(Debug)]
pub struct ObjectField {
    pub name: String,
    pub schema: SchemaType,
    pub required: bool,
}

/// An object validator: declared fields in declaration order, a strict or
/// open unknown-field policy, and null handling.
#[derive(Debug)]
pub struct ObjectSchema {
    pub fields: Vec<ObjectField>,
    pub strict: bool,
    pub optional: bool,
    pub error_messages: Vec<(String, String)>,
}

/// Scores an error by its code: the first matching entry wins, and codes
/// without an entry take the default score. Lower scores are better.
#[derive(Debug)]
pub struct ErrorScore {
    pub entries: Vec<(String, u32)>,
    pub default_score: u32,
}

impl ErrorScore {
    /// The score assigned to an error code.
    pub open spec fn score_of(self, code: Seq<char>) -> int {
        score_lookup(self.entries@, code, self.default_score as int)
    }

    pub fn new(default_score: u32) -> (r: ErrorScore)
        ensures
            r.entries@ == Seq::<(String, u32)>::empty(),
            r.default_score == default_score,
    {
        ErrorScore { entries: Vec::new(), default_score }
    }

    /// Adds a score for a code; earlier entries take precedence.
    pub fn entry(self, code: &str, score: u32) -> (r: ErrorScore)
        ensures
            r.entries@.len() == self.entries@.len() + 1,
            r.entries@.last().0@ == code@,
            r.entries@.last().1 == score,
            r.entries@.drop_last() == self.entries@,
            r.default_score == self.default_score,
    {
        let ghost orig = self.entries@;
        let mut s = self;
        s.entries.push((code.to_owned(), score));
        proof {
            assert(s.entries@.drop_last() =~= orig);
        }
        s
    }

    /// Computes the score of an error from its code.
    pub fn score(&self, e: &crate::error::ValidationError) -> (r: u32)
        ensures
            r as int == self.score_of(e.context.code@),
    {
        let mut i: usize = 0;
        proof {
            assert(self.entries@.skip(0) =~= self.entries@);
        }
        while i < self.entries.len()
            invariant
                i <= self.entries@.len(),
                score_lookup(self.entries@, e.context.code@, self.default_score as int)
                    == score_lookup(
                    self.entries@.skip(i as int),
                    e.context.code@,
                    self.default_score as int,
                ),
            decreases self.entries@.len() - i,
        {
            if crate::error::str_eq(self.entries[i].0.as_str(), e.context.code.as_str()) {
                return self.entries[i].1;
            }
            proof {
                assert(self.entries@.skip(i as int).drop_first() =~= self.entries@.skip(i + 1));
            }
            i += 1;
        }
        self.default_score
    }
}

/// The score of a code in an entry list: first match wins.
pub open spec fn score_lookup(entries: Seq<(String, u32)>, code: Seq<char>, default_score: int) -> int
    decreases entries.len(),
{
    if entries.len() == 0 {
        default_score
    } else if entries[0].0@ == code {
        entries[0].1 as int
    } else {
        score_lookup(entries.drop_first(), code, default_score)
    }
}

/// The policy for resolving a union's alternatives.
#[derive(Debug)]
pub enum UnionStrategy {
    /// Use the first alternative that validates.
    First,
    /// Every alternative must validate; the original value is returned.
    All,
    /// The first success wins; otherwise the lowest-scoring error is
    /// reported, ties broken by the earliest alternative.
    Best(ErrorScore),
}

/// A union validator: an ordered list of alternative schemas and a
/// resolution strategy.
#[derive(Debug)]
pub struct UnionSchema {
    pub schemas: Vec<SchemaType>,
    pub strategy: UnionStrategy,
    pub error_messages: Vec<(String, String)>,
}

/// The closed set of schema kinds: the single dispatch point for recursive
/// validation.
#[derive(Debug)]
pub enum SchemaType {
    String(StringSchemaImpl),
    Number(NumberSchema),
    Boolean(BooleanSchema),
    Array(Box<ArraySchema>),
    Object(Box<ObjectSchema>),
    Union(Box<UnionSchema>),
}

impl SchemaType {
    /// Well-formedness of a schema tree: numeric bounds in range and object
    /// field names unique, at every depth.
    pub open spec fn wf(self) -> bool
        decreases self,
    {
        match self {
            SchemaType::String(_) => true,
            SchemaType::Number(n) => {
                &&& (n.min matches Some(m) ==> m.wf())
                &&& (n.max matches Some(m) ==> m.wf())
            },
            SchemaType::Boolean(_) => true,
            SchemaType::Array(a) => a.item_schema.wf(),
            SchemaType::Object(o) => {
                &&& obj_fields_wf(o.fields@)
                &&& forall|i: int, j: int|
                    0 <= i < j < o.fields@.len() ==> o.fields@[i].name@ != o.fields@[j].name@
            },
            SchemaType::Union(u) => schemas_wf(u.schemas@),
        }
    }
}

pub open spec fn obj_fields_wf(fields: Seq<ObjectField>) -> bool
    decreases fields,
{
    if fields.len() == 0 {
        true
    } else {
        obj_fields_wf(fields.drop_last()) && fields.last().schema.wf()
    }
}

pub open spec fn schemas_wf(schemas: Seq<SchemaType>) -> bool
    decreases schemas,
{
    if schemas.len() == 0 {
        true
    } else {
        schemas_wf(schemas.drop_last()) && schemas.last().wf()
    }
}

/// Object fields are well formed exactly when each field's schema is.
pub proof fn lemma_obj_fields_wf(fields: Seq<ObjectField>)
    ensures
        obj_fields_wf(fields) <==> (forall|i: int|
            0 <= i < fields.len() ==> (#[trigger] fields[i]).schema.wf()),
    decreases fields.len(),
{
    if fields.len() > 0 {
        lemma_obj_fields_wf(fields.drop_last());
        assert(forall|i: int|
            0 <= i < fields.len() - 1 ==> fields.drop_last()[i] == #[trigger] fields[i]);
        assert(fields.last() == fields[fields.len() - 1]);
    }
}

/// A schema list is well formed exactly when each schema is.
pub proof fn lemma_schemas_wf(schemas: Seq<SchemaType>)
    ensures
        schemas_wf(schemas) <==> (forall|i: int|
            0 <= i < schemas.len() ==> (#[trigger] schemas[i]).wf()),
    decreases schemas.len(),
{
    if schemas.len() > 0 {
        lemma_schemas_wf(schemas.drop_last());
        assert(forall|i: int|
            0 <= i < schemas.len() - 1 ==> schemas.drop_last()[i] == #[trigger] schemas[i]);
        assert(schemas.last() == schemas[schemas.len() - 1]);
    }
}

/// Anything that can stand as a schema: the closed variant it denotes, and
/// the conversion into it.
pub trait Schema: Sized {
    /// The schema variant this value denotes.
    spec fn schema_type_spec(self) -> SchemaType;

    /// Converts into the closed schema variant.
    fn into_schema_type(self) -> (r: SchemaType)
        ensures
            r == self.schema_type_spec(),
    ;
}

impl Schema for StringSchemaImpl {
    open spec fn schema_type_spec(self) -> SchemaType {
        SchemaType::String(self)
    }

    fn into_schema_type(self) -> (r: SchemaType) {
        SchemaType::String(self)
    }
}

impl Schema for NumberSchema {
    open spec fn schema_type_spec(self) -> SchemaType {
        SchemaType::Number(self)
    }

    fn into_schema_type(self) -> (r: SchemaType) {
        SchemaType::Number(self)
    }
}

impl Schema for BooleanSchema {
    open spec fn schema_type_spec(self) -> SchemaType {
        SchemaType::Boolean(self)
    }

    fn into_schema_type(self) -> (r: SchemaType) {
        SchemaType::Boolean(self)
    }
}

impl Schema for ArraySchema {
    open spec fn schema_type_spec(self) -> SchemaType {
        SchemaType::Array(Box::new(self))
    }

    fn into_schema_type(self) -> (r: SchemaType) {
        SchemaType::Array(Box::new(self))
    }
}

impl Schema for ObjectSchema {
    open spec fn schema_type_spec(self) -> SchemaType {
        SchemaType::Object(Box::new(self))
    }

    fn into_schema_type(self) -> (r: SchemaType) {
        SchemaType::Object(Box::new(self))
    }
}

impl Schema for UnionSchema {
    open spec fn schema_type_spec(self) -> SchemaType {
        SchemaType::Union(Box::new(self))
    }

    fn into_schema_type(self) -> (r: SchemaType) {
        SchemaType::Union(Box::new(self))
    }
}

impl Schema for SchemaType {
    open spec fn schema_type_spec(self) -> SchemaType {
        self
    }

    fn into_schema_type(self) -> (r: SchemaType) {
        self
    }
}

/// Appends one code-message override; all other state of `msgs` is kept.
fn push_msg(msgs: Vec<(String, String)>, code: &str, message: &str) -> (r: Vec<(String, String)>)
    ensures
        r@.len() == msgs@.len() + 1,
        r@.last().0@ == code@,
        r@.last().1@ == message@,
        r@.drop_last() == msgs@,
{
    let ghost orig = msgs@;
    let mut m = msgs;
    m.push((code.to_owned(), message.to_owned()));
    proof {
        assert(m@.drop_last() =~= orig);
    }
    m
}

impl Default for StringSchemaImpl {
    /// A string schema with no constraints, no overrides and no transforms.
    fn default() -> (r: Self)
        ensures
            r.min_length is None,
            r.max_length is None,
            r.pattern is None,
            !r.email,
            !r.optional,
            r.error_messages@ == Seq::<(String, String)>::empty(),
            r.transforms@ == Seq::<Transform>::empty(),
    {
        StringSchemaImpl {
            min_length: None,
            max_length: None,
            pattern: None,
            email: false,
            optional: false,
            error_messages: Vec::new(),
            transforms: Vec::new(),
        }
    }
}

pub open spec fn url_pattern() -> Seq<char> {
    r"^https?://[\w\-]+(\.[\w\-]+)+[/#?]?.*$"@
}

pub open spec fn uuid_pattern() -> Seq<char> {
    r"^[0-9a-f]{8}-[0-9a-f]{4}-[0-9a-f]{4}-[0-9a-f]{4}-[0-9a-f]{12}$"@
}

pub open spec fn ip_pattern() -> Seq<char> {
    r"^(?:(?:25[0-5]|2[0-4][0-9]|[01]?[0-9][0-9]?)\.){3}(?:25[0-5]|2[0-4][0-9]|[01]?[0-9][0-9]?)$"@
}

impl StringSchemaImpl {
    /// Requires at least this many characters.
    pub fn min_length(self, length: usize) -> (r: Self)
        ensures
            r == (StringSchemaImpl { min_length: Some(length), ..self }),
    {
        StringSchemaImpl { min_length: Some(length), ..self }
    }

    /// Allows at most this many characters.
    pub fn max_length(self, length: usize) -> (r: Self)
        ensures
            r == (StringSchemaImpl { max_length: Some(length), ..self }),
    {
        StringSchemaImpl { max_length: Some(length), ..self }
    }

    /// Requires the string to match the regular expression.
    pub fn pattern(self, pattern: &str) -> (r: Self)
        ensures
            r.pattern matches Some(p) && p@ == pattern@,
            r == (StringSchemaImpl { pattern: r.pattern, ..self }),
    {
        StringSchemaImpl { pattern: Some(pattern.to_owned()), ..self }
    }

    /// Requires the fixed email form.
    pub fn email(self) -> (r: Self)
        ensures
            r == (StringSchemaImpl { email: true, ..self }),
    {
        StringSchemaImpl { email: true, ..self }
    }

    /// Accepts null in place of a string.
    pub fn optional(self) -> (r: Self)
        ensures
            r == (StringSchemaImpl { optional: true, ..self }),
    {
        StringSchemaImpl { optional: true, ..self }
    }

    /// Overrides the message reported for an error code.
    pub fn error_message(self, code: &str, message: &str) -> (r: Self)
        ensures
            r.error_messages@.len() == self.error_messages@.len() + 1,
            msgs_v(r.error_messages@).last() == (code@, message@),
            msgs_v(r.error_messages@).drop_last() == msgs_v(self.error_messages@),
            r == (StringSchemaImpl { error_messages: r.error_messages, ..self }),
    {
        let msgs = push_msg(self.error_messages, code, message);
        proof {
            assert(msgs_v(msgs@).drop_last() =~= msgs_v(msgs@.drop_last()));
        }
        StringSchemaImpl { error_messages: msgs, ..self }
    }

    /// Requires the URL form.
    pub fn url(self) -> (r: Self)
        ensures
            r.pattern matches Some(p) && p@ == url_pattern(),
            r.error_messages@.len() == self.error_messages@.len() + 1,
            msgs_v(r.error_messages@).last() == ("string.url"@, "Invalid URL format"@),
            msgs_v(r.error_messages@).drop_last() == msgs_v(self.error_messages@),
            r == (StringSchemaImpl { pattern: r.pattern, error_messages: r.error_messages, ..self }),
    {
        self.pattern(r"^https?://[\w\-]+(\.[\w\-]+)+[/#?]?.*$").error_message(
            "string.url",
            "Invalid URL format",
        )
    }

    /// Requires the UUID form.
    pub fn uuid(self) -> (r: Self)
        ensures
            r.pattern matches Some(p) && p@ == uuid_pattern(),
            r.error_messages@.len() == self.error_messages@.len() + 1,
            msgs_v(r.error_messages@).last() == ("string.uuid"@, "Invalid UUID format"@),
            msgs_v(r.error_messages@).drop_last() == msgs_v(self.error_messages@),
            r == (StringSchemaImpl { pattern: r.pattern, error_messages: r.error_messages, ..self }),
    {
        self.pattern(r"^[0-9a-f]{8}-[0-9a-f]{4}-[0-9a-f]{4}-[0-9a-f]{4}-[0-9a-f]{12}$")
            .error_message("string.uuid", "Invalid UUID format")
    }

    /// Requires the dotted-quad IP address form.
    pub fn ip(self) -> (r: Self)
        ensures
            r.pattern matches Some(p) && p@ == ip_pattern(),
            r.error_messages@.len() == self.error_messages@.len() + 1,
            msgs_v(r.error_messages@).last() == ("string.ip"@, "Invalid IP address format"@),
            msgs_v(r.error_messages@).drop_last() == msgs_v(self.error_messages@),
            r == (StringSchemaImpl { pattern: r.pattern, error_messages: r.error_messages, ..self }),
    {
        self.pattern(
            r"^(?:(?:25[0-5]|2[0-4][0-9]|[01]?[0-9][0-9]?)\.){3}(?:25[0-5]|2[0-4][0-9]|[01]?[0-9][0-9]?)$",
        ).error_message("string.ip", "Invalid IP address format")
    }

    /// Appends a transform to the pipeline.
    pub fn with_transform(self, transform: Transform) -> (r: Self)
        ensures
            r.transforms@ == self.transforms@.push(transform),
            r == (StringSchemaImpl { transforms: r.transforms, ..self }),
    {
        let mut s = self;
        s.transforms.push(transform);
        s
    }

    /// Trims white space before checking.
    pub fn trim(self) -> (r: Self)
        ensures
            r.transforms@ == self.transforms@.push(Transform::Trim),
            r == (StringSchemaImpl { transforms: r.transforms, ..self }),
    {
        self.with_transform(Transform::Trim)
    }

    /// Trims and folds to lower case before checking.
    pub fn to_lowercase(self) -> (r: Self)
        ensures
            r.transforms@ == self.transforms@.push(Transform::Trim).push(Transform::ToLowerCase),
            r == (StringSchemaImpl { transforms: r.transforms, ..self }),
    {
        self.with_transform(Transform::Trim).with_transform(Transform::ToLowerCase)
    }

    /// Trims and folds to upper case before checking.
    pub fn to_uppercase(self) -> (r: Self)
        ensures
            r.transforms@ == self.transforms@.push(Transform::Trim).push(Transform::ToUpperCase),
            r == (StringSchemaImpl { transforms: r.transforms, ..self }),
    {
        self.with_transform(Transform::Trim).with_transform(Transform::ToUpperCase)
    }
}

impl Default for NumberSchema {
    /// A number schema with no bounds, accepting any number.
    fn default() -> (r: Self)
        ensures
            r.min is None,
            r.max is None,
            !r.integer,
            !r.coerce,
            !r.optional,
            r.error_messages@ == Seq::<(String, String)>::empty(),
            r.transforms@ == Seq::<Transform>::empty(),
    {
        NumberSchema {
            min: None,
            max: None,
            integer: false,
            coerce: false,
            optional: false,
            error_messages: Vec::new(),
            transforms: Vec::new(),
        }
    }
}

impl NumberSchema {
    /// Requires the number to be at least this inclusive bound.
    pub fn min(self, value: Num) -> (r: Self)
        ensures
            r == (NumberSchema { min: Some(value), ..self }),
    {
        NumberSchema { min: Some(value), ..self }
    }

    /// Requires the number to be at most this inclusive bound.
    pub fn max(self, value: Num) -> (r: Self)
        ensures
            r == (NumberSchema { max: Some(value), ..self }),
    {
        NumberSchema { max: Some(value), ..self }
    }

    /// Rejects numbers with a fractional part.
    pub fn integer(self) -> (r: Self)
        ensures
            r == (NumberSchema { integer: true, ..self }),
    {
        NumberSchema { integer: true, ..self }
    }

    /// Accepts a string input and parses it as a number first.
    pub fn coerce(self) -> (r: Self)
        ensures
            r == (NumberSchema { coerce: true, ..self }),
    {
        NumberSchema { coerce: true, ..self }
    }

    /// Accepts null in place of a number.
    pub fn optional(self) -> (r: Self)
        ensures
            r == (NumberSchema { optional: true, ..self }),
    {
        NumberSchema { optional: true, ..self }
    }

    /// Overrides the message reported for an error code.
    pub fn error_message(self, code: &str, message: &str) -> (r: Self)
        ensures
            r.error_messages@.len() == self.error_messages@.len() + 1,
            msgs_v(r.error_messages@).last() == (code@, message@),
            msgs_v(r.error_messages@).drop_last() == msgs_v(self.error_messages@),
            r == (NumberSchema { error_messages: r.error_messages, ..self }),
    {
        let msgs = push_msg(self.error_messages, code, message);
        proof {
            assert(msgs_v(msgs@).drop_last() =~= msgs_v(msgs@.drop_last()));
        }
        NumberSchema { error_messages: msgs, ..self }
    }

    /// Appends a transform to the pipeline.
    pub fn with_transform(self, transform: Transform) -> (r: Self)
        ensures
            r.transforms@ == self.transforms@.push(transform),
            r == (NumberSchema { transforms: r.transforms, ..self }),
    {
        let mut s = self;
        s.transforms.push(transform);
        s
    }

    /// Parses string input as a number before checking.
    pub fn parse_number(self) -> (r: Self)
        ensures
            r.transforms@ == self.transforms@.push(Transform::ParseNumber),
            r == (NumberSchema { transforms: r.transforms, ..self }),
    {
        self.with_transform(Transform::ParseNumber)
    }

    /// Rounds the number down to a whole number before checking.
    pub fn to_integer(self) -> (r: Self)
        ensures
            r.transforms@ == self.transforms@.push(Transform::ToInteger),
            r == (NumberSchema { transforms: r.transforms, ..self }),
    {
        self.with_transform(Transform::ToInteger)
    }
}

impl Default for BooleanSchema {
    /// A boolean schema that accepts exactly the two boolean values.
    fn default() -> (r: Self)
        ensures
            !r.optional,
            r.error_messages@ == Seq::<(String, String)>::empty(),
    {
        BooleanSchema { optional: false, error_messages: Vec::new() }
    }
}

impl BooleanSchema {
    /// Accepts null in place of a boolean.
    pub fn optional(self) -> (r: Self)
        ensures
            r == (BooleanSchema { optional: true, ..self }),
    {
        BooleanSchema { optional: true, ..self }
    }

    /// Overrides the message reported for an error code.
    pub fn error_message(self, code: &str, message: &str) -> (r: Self)
        ensures
            r.error_messages@.len() == self.error_messages@.len() + 1,
            msgs_v(r.error_messages@).last() == (code@, message@),
            msgs_v(r.error_messages@).drop_last() == msgs_v(self.error_messages@),
            r == (BooleanSchema { error_messages: r.error_messages, ..self }),
    {
        let msgs = push_msg(self.error_messages, code, message);
        proof {
            assert(msgs_v(msgs@).drop_last() =~= msgs_v(msgs@.drop_last()));
        }
        BooleanSchema { error_messages: msgs, ..self }
    }
}

impl ArraySchema {
    /// An array whose items all validate against the given schema.
    pub fn new(schema: impl Schema) -> (r: Self)
        ensures
            *r.item_schema == schema.schema_type_spec(),
            r.min_items is None,
            r.max_items is None,
            !r.optional,
            r.error_messages@ == Seq::<(String, String)>::empty(),
    {
        ArraySchema {
            item_schema: Box::new(schema.into_schema_type()),
            min_items: None,
            max_items: None,
            optional: false,
            error_messages: Vec::new(),
        }
    }

    /// Requires at least this many items; also installs the matching default
    /// message for the bound.
    pub fn min_items(self, count: usize) -> (r: Self)
        requires
            count <= 9_000_000_000_000,
        ensures
            r.min_items == Some(count),
            r.error_messages@.len() == self.error_messages@.len() + 1,
            msgs_v(r.error_messages@).last() == (
                "array.min_items"@,
                "Must have at least "@ + dec_digits(count as int) + " items"@,
            ),
            msgs_v(r.error_messages@).drop_last() == msgs_v(self.error_messages@),
            r == (ArraySchema {
                min_items: Some(count),
                error_messages: r.error_messages,
                ..self
            }),
    {
        let digits = u64_to_string(count as u64);
        let mut msg = "Must have at least ".to_owned();
        msg.append(digits.as_str());
        msg.append(" items");
        let msgs = push_msg(self.error_messages, "array.min_items", msg.as_str());
        proof {
            assert(msgs_v(msgs@).drop_last() =~= msgs_v(msgs@.drop_last()));
        }
        ArraySchema { min_items: Some(count), error_messages: msgs, ..self }
    }

    /// Allows at most this many items; also installs the matching default
    /// message for the bound.
    pub fn max_items(self, count: usize) -> (r: Self)
        requires
            count <= 9_000_000_000_000,
        ensures
            r.max_items == Some(count),
            r.error_messages@.len() == self.error_messages@.len() + 1,
            msgs_v(r.error_messages@).last() == (
                "array.max_items"@,
                "Must have at most "@ + dec_digits(count as int) + " items"@,
            ),
            msgs_v(r.error_messages@).drop_last() == msgs_v(self.error_messages@),
            r == (ArraySchema {
                max_items: Some(count),
                error_messages: r.error_messages,
                ..self
            }),
    {
        let digits = u64_to_string(count as u64);
        let mut msg = "Must have at most ".to_owned();
        msg.append(digits.as_str());
        msg.append(" items");
        let msgs = push_msg(self.error_messages, "array.max_items", msg.as_str());
        proof {
            assert(msgs_v(msgs@).drop_last() =~= msgs_v(msgs@.drop_last()));
        }
        ArraySchema { max_items: Some(count), error_messages: msgs, ..self }
    }

    /// Accepts null in place of an array.
    pub fn optional(self) -> (r: Self)
        ensures
            r == (ArraySchema { optional: true, ..self }),
    {
        ArraySchema { optional: true, ..self }
    }

    /// Overrides the message reported for an error code.
    pub fn error_message(self, code: &str, message: &str) -> (r: Self)
        ensures
            r.error_messages@.len() == self.error_messages@.len() + 1,
            msgs_v(r.error_messages@).last() == (code@, message@),
            msgs_v(r.error_messages@).drop_last() == msgs_v(self.error_messages@),
            r == (ArraySchema { error_messages: r.error_messages, ..self }),
    {
        let msgs = push_msg(self.error_messages, code, message);
        proof {
            assert(msgs_v(msgs@).drop_last() =~= msgs_v(msgs@.drop_last()));
        }
        ArraySchema { error_messages: msgs, ..self }
    }
}

/// The position of a declared field by name, if any.
pub open spec fn field_index(fields: Seq<ObjectField>, name: Seq<char>) -> Option<int>
    decreases fields.len(),
{
    if fields.len() == 0 {
        None
    } else if fields[0].name@ == name {
        Some(0int)
    } else {
        match field_index(fields.drop_first(), name) {
            Some(i) => Some(i + 1),
            None => None,
        }
    }
}

pub proof fn lemma_field_index_none(fields: Seq<ObjectField>, name: Seq<char>)
    requires
        forall|i: int| 0 <= i < fields.len() ==> (#[trigger] fields[i]).name@ != name,
    ensures
        field_index(fields, name) is None,
    decreases fields.len(),
{
    if fields.len() > 0 {
        assert forall|i: int|
            0 <= i < fields.drop_first().len() implies (#[trigger] fields.drop_first()[i]).name@
            != name by {
            assert(fields.drop_first()[i] == fields[i + 1]);
        }
        lemma_field_index_none(fields.drop_first(), name);
    }
}

pub proof fn lemma_field_index_is(fields: Seq<ObjectField>, name: Seq<char>, k: int)
    requires
        0 <= k < fields.len(),
        fields[k].name@ == name,
        forall|i: int| 0 <= i < k ==> (#[trigger] fields[i]).name@ != name,
    ensures
        field_index(fields, name) == Some(k),
    decreases fields.len(),
{
    if k > 0 {
        assert forall|i: int|
            0 <= i < k - 1 implies (#[trigger] fields.drop_first()[i]).name@ != name by {
            assert(fields.drop_first()[i] == fields[i + 1]);
        }
        assert(fields.drop_first()[k - 1] == fields[k]);
        lemma_field_index_is(fields.drop_first(), name, k - 1);
    }
}

impl Default for ObjectSchema {
    /// An object schema with no declared fields, rejecting unknown keys.
    fn default() -> (r: Self)
        ensures
            r.fields@ == Seq::<ObjectField>::empty(),
            r.strict,
            !r.optional,
            r.error_messages@ == Seq::<(String, String)>::empty(),
    {
        ObjectSchema {
            fields: Vec::new(),
            strict: true,
            optional: false,
            error_messages: Vec::new(),
        }
    }
}

impl ObjectSchema {
    fn set_field(self, name: &str, schema: SchemaType, required: bool) -> (r: Self)
        ensures
            r.strict == self.strict,
            r.optional == self.optional,
            r.error_messages == self.error_messages,
            match field_index(self.fields@, name@) {
                Some(i) => {
                    &&& r.fields@.len() == self.fields@.len()
                    &&& (forall|j: int|
                        0 <= j < self.fields@.len() && j != i ==> r.fields@[j]
                            == #[trigger] self.fields@[j])
                    &&& r.fields@[i].name@ == name@
                    &&& r.fields@[i].schema == schema
                    &&& r.fields@[i].required == required
                },
                None => {
                    &&& r.fields@.len() == self.fields@.len() + 1
                    &&& r.fields@.drop_last() == self.fields@
                    &&& r.fields@.last().name@ == name@
                    &&& r.fields@.last().schema == schema
                    &&& r.fields@.last().required == required
                },
            },
    {
        let mut found: Option<usize> = None;
        let mut i: usize = 0;
        while i < self.fields.len()
            invariant
                i <= self.fields@.len(),
                match found {
                    Some(k) => k < i && self.fields@[k as int].name@ == name@ && (forall|j: int|
                        0 <= j < k ==> (#[trigger] self.fields@[j]).name@ != name@),
                    None => forall|j: int|
                        0 <= j < i ==> (#[trigger] self.fields@[j]).name@ != name@,
                },
            decreases self.fields@.len() - i,
        {
            if found.is_none() {
                if crate::error::str_eq(self.fields[i].name.as_str(), name) {
                    found = Some(i);
                }
            }
            i += 1;
        }
        let entry = ObjectField { name: name.to_owned(), schema, required };
        let mut s = self;
        match found {
            Some(k) => {
                proof {
                    lemma_field_index_is(s.fields@, name@, k as int);
                }
                s.fields.set(k, entry);
                s
            },
            None => {
                proof {
                    lemma_field_index_none(s.fields@, name@);
                }
                let ghost orig = s.fields@;
                s.fields.push(entry);
                proof {
                    assert(s.fields@.drop_last() =~= orig);
                }
                s
            },
        }
    }

    /// Declares a required field; re-declaring a name replaces its schema.
    pub fn field(self, name: &str, schema: impl Schema) -> (r: Self)
        ensures
            r.strict == self.strict,
            r.optional == self.optional,
            r.error_messages == self.error_messages,
            match field_index(self.fields@, name@) {
                Some(i) => {
                    &&& r.fields@.len() == self.fields@.len()
                    &&& (forall|j: int|
                        0 <= j < self.fields@.len() && j != i ==> r.fields@[j]
                            == #[trigger] self.fields@[j])
                    &&& r.fields@[i].name@ == name@
                    &&& r.fields@[i].schema == schema.schema_type_spec()
                    &&& r.fields@[i].required == true
                },
                None => {
                    &&& r.fields@.len() == self.fields@.len() + 1
                    &&& r.fields@.drop_last() == self.fields@
                    &&& r.fields@.last().name@ == name@
                    &&& r.fields@.last().schema == schema.schema_type_spec()
                    &&& r.fields@.last().required == true
                },
            },
    {
        self.set_field(name, schema.into_schema_type(), true)
    }

    /// Declares an optional field; re-declaring a name replaces its schema.
    pub fn optional_field(self, name: &str, schema: impl Schema) -> (r: Self)
        ensures
            r.strict == self.strict,
            r.optional == self.optional,
            r.error_messages == self.error_messages,
            match field_index(self.fields@, name@) {
                Some(i) => {
                    &&& r.fields@.len() == self.fields@.len()
                    &&& (forall|j: int|
                        0 <= j < self.fields@.len() && j != i ==> r.fields@[j]
                            == #[trigger] self.fields@[j])
                    &&& r.fields@[i].name@ == name@
                    &&& r.fields@[i].schema == schema.schema_type_spec()
                    &&& r.fields@[i].required == false
                },
                None => {
                    &&& r.fields@.len() == self.fields@.len() + 1
                    &&& r.fields@.drop_last() == self.fields@
                    &&& r.fields@.last().name@ == name@
                    &&& r.fields@.last().schema == schema.schema_type_spec()
                    &&& r.fields@.last().required == false
                },
            },
    {
        self.set_field(name, schema.into_schema_type(), false)
    }

    /// Accepts null in place of an object.
    pub fn optional(self) -> (r: Self)
        ensures
            r == (ObjectSchema { optional: true, ..self }),
    {
        ObjectSchema { optional: true, ..self }
    }

    /// Rejects input keys that are not declared fields.
    pub fn strict(self) -> (r: Self)
        ensures
            r == (ObjectSchema { strict: true, ..self }),
    {
        ObjectSchema { strict: true, ..self }
    }

    /// Carries unknown input keys through to the output unchanged.
    pub fn open(self) -> (r: Self)
        ensures
            r == (ObjectSchema { strict: false, ..self }),
    {
        ObjectSchema { strict: false, ..self }
    }

    /// Overrides the message reported for an error code.
    pub fn error_message(self, code: &str, message: &str) -> (r: Self)
        ensures
            r.error_messages@.len() == self.error_messages@.len() + 1,
            msgs_v(r.error_messages@).last() == (code@, message@),
            msgs_v(r.error_messages@).drop_last() == msgs_v(self.error_messages@),
            r == (ObjectSchema { error_messages: r.error_messages, ..self }),
    {
        let msgs = push_msg(self.error_messages, code, message);
        proof {
            assert(msgs_v(msgs@).drop_last() =~= msgs_v(msgs@.drop_last()));
        }
        ObjectSchema { error_messages: msgs, ..self }
    }
}

impl UnionSchema {
    /// A union over the given alternatives, resolved first-match.
    pub fn new(schemas: Vec<SchemaType>) -> (r: UnionSchema)
        ensures
            r.schemas@ == schemas@,
            r.strategy is First,
            r.error_messages@ == Seq::<(String, String)>::empty(),
    {
        UnionSchema { schemas, strategy: UnionStrategy::First, error_messages: Vec::new() }
    }

    /// Replaces the resolution strategy.
    pub fn strategy(self, strategy: UnionStrategy) -> (r: UnionSchema)
        ensures
            r.schemas == self.schemas,
            r.strategy == strategy,
            r.error_messages == self.error_messages,
    {
        UnionSchema { strategy, ..self }
    }

    /// Overrides the message reported for an error code.
    pub fn error_message(self, code: &str, message: &str) -> (r: Self)
        ensures
            r.error_messages@.len() == self.error_messages@.len() + 1,
            msgs_v(r.error_messages@).last() == (code@, message@),
            msgs_v(r.error_messages@).drop_last() == msgs_v(self.error_messages@),
            r == (UnionSchema { error_messages: r.error_messages, ..self }),
    {
        let msgs = push_msg(self.error_messages, code, message);
        proof {
            assert(msgs_v(msgs@).drop_last() =~= msgs_v(msgs@.drop_last()));
        }
        UnionSchema { error_messages: msgs, ..self }
    }
}

} // verus!
