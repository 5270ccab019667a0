//! The value tree a parse produces, the closed set of error kinds, and the
//! mathematical models (`NumberModel`, `ValueModel`, `DocModel`) that the
//! contracts of the tokenizer and parser speak of.

use vstd::prelude::*;

verus! {

/// Every way a parse can fail, lexical kinds first, syntactic kinds last.
/// Failure is all-or-nothing: the first violation is returned and no partial
/// tree ever escapes.
///
/// `InvalidFloat` is reserved for a float literal whose text cannot be
/// interpreted; since the scanner keeps a float literal as its exact text
/// and every literal it accepts is interpretable, no scan produces it.
#[derive(Debug, Clone, Copy, PartialEq, Eq, Structural)]
pub enum ErrorKind {
    InvalidCharacter,
    InvalidToken,
    UnterminatedString,
    InvalidEscapeSequence,
    UnterminatedEscape,
    InvalidUnicodeEscape,
    InvalidCodePoint,
    InvalidNumber,
    InvalidInteger,
    InvalidFloat,
    InvalidJson,
    UnexpectedToken,
    UnexpectedEndOfArray,
}

impl ErrorKind {
    /// The descriptive text of this error kind.
    pub open spec fn spec_message(self) -> Seq<char> {
        match self {
            ErrorKind::InvalidCharacter => "Invalid JSON"@,
            ErrorKind::InvalidToken => "Invalid JSON"@,
            ErrorKind::UnterminatedString => "EOF reached when parsing string"@,
            ErrorKind::InvalidEscapeSequence => "Invalid escape sequence"@,
            ErrorKind::UnterminatedEscape => "EOF reached when parsing escape sequence"@,
            ErrorKind::InvalidUnicodeEscape => "Invalid unicode escape sequence"@,
            ErrorKind::InvalidCodePoint => "Invalid unicode code point"@,
            ErrorKind::InvalidNumber => "Invalid number"@,
            ErrorKind::InvalidInteger => "Invalid integer"@,
            ErrorKind::InvalidFloat => "Invalid float"@,
            ErrorKind::InvalidJson => "Invalid JSON"@,
            ErrorKind::UnexpectedToken => "Unexpected token"@,
            ErrorKind::UnexpectedEndOfArray => "Unexpected end of array"@,
        }
    }

    /// The descriptive text of this error kind, for callers that display it.
    pub fn message(&self) -> (m: &'static str)
        ensures
            m@ == self.spec_message(),
    {
        match self {
            ErrorKind::InvalidCharacter => "Invalid JSON",
            ErrorKind::InvalidToken => "Invalid JSON",
            ErrorKind::UnterminatedString => "EOF reached when parsing string",
            ErrorKind::InvalidEscapeSequence => "Invalid escape sequence",
            ErrorKind::UnterminatedEscape => "EOF reached when parsing escape sequence",
            ErrorKind::InvalidUnicodeEscape => "Invalid unicode escape sequence",
            ErrorKind::InvalidCodePoint => "Invalid unicode code point",
            ErrorKind::InvalidNumber => "Invalid number",
            ErrorKind::InvalidInteger => "Invalid integer",
            ErrorKind::InvalidFloat => "Invalid float",
            ErrorKind::InvalidJson => "Invalid JSON",
            ErrorKind::UnexpectedToken => "Unexpected token",
            ErrorKind::UnexpectedEndOfArray => "Unexpected end of array",
        }
    }
}

/// A numeric literal.  A literal with a decimal point is always a `Float`,
/// one without is always an `Int`; an `Int` out of signed 32-bit range is a
/// parse failure, never a truncation or a promotion.
///
/// A `Float` carries the scanned literal exactly (optional leading minus,
/// digits, at most one dot preceded by a digit); binary floating-point
/// interpretation is left to the caller, so the core stays free of
/// floating-point arithmetic.
#[derive(Debug, Clone, PartialEq)]
pub enum Number {
    Float(String),
    Int(i32),
}

/// The model of a `Number`: the float literal as a character sequence, or the
/// integer value.
pub enum NumberModel {
    Float(Seq<char>),
    Int(int),
}

impl View for Number {
    type V = NumberModel;

    open spec fn view(&self) -> NumberModel {
        match self {
            Number::Float(s) => NumberModel::Float(s@),
            Number::Int(i) => NumberModel::Int(*i as int),
        }
    }
}

/// Any value a JSON object entry or array element can hold: a scalar, or a
/// nested document owned exclusively by the containing value.
#[derive(Debug, PartialEq)]
pub enum JsonValue {
    Null,
    Number(Number),
    String(String),
    Boolean(bool),
    Document(Box<JsonDocument>),
}

/// A JSON object or array, the only two valid top-level forms.
///
/// An object is a sequence of key/value entries with unique keys; inserting a
/// duplicate key during parsing overwrites the earlier value in place (last
/// occurrence wins).
#[derive(Debug, PartialEq)]
pub enum JsonDocument {
    Array(Vec<JsonValue>),
    Object(Vec<(String, JsonValue)>),
}

/// The model of a `JsonValue`.
pub enum ValueModel {
    Null,
    Num(NumberModel),
    Str(Seq<char>),
    Bool(bool),
    Doc(DocModel),
}

/// The model of a `JsonDocument`.
pub enum DocModel {
    Arr(Seq<ValueModel>),
    Obj(Seq<(Seq<char>, ValueModel)>),
}

/// The model of a value tree.
pub open spec fn value_model(v: JsonValue) -> ValueModel
    decreases v,
{
    match v {
        JsonValue::Null => ValueModel::Null,
        JsonValue::Number(n) => ValueModel::Num(n@),
        JsonValue::String(s) => ValueModel::Str(s@),
        JsonValue::Boolean(b) => ValueModel::Bool(b),
        JsonValue::Document(d) => ValueModel::Doc(doc_model(*d)),
    }
}

/// The model of a document.
pub open spec fn doc_model(d: JsonDocument) -> DocModel
    decreases d,
{
    match d {
        JsonDocument::Array(vs) => DocModel::Arr(values_model(vs@)),
        JsonDocument::Object(es) => DocModel::Obj(entries_model(es@)),
    }
}

/// The models of the elements of an array, in order.
pub open spec fn values_model(vs: Seq<JsonValue>) -> Seq<ValueModel>
    decreases vs,
{
    Seq::new(
        vs.len(),
        |i: int|
            if 0 <= i < vs.len() {
                value_model(vs[i])
            } else {
                ValueModel::Null
            },
    )
}

/// The models of the entries of an object, in order.
pub open spec fn entries_model(es: Seq<(String, JsonValue)>) -> Seq<(Seq<char>, ValueModel)>
    decreases es,
{
    Seq::new(
        es.len(),
        |i: int|
            if 0 <= i < es.len() {
                (es[i].0@, value_model(es[i].1))
            } else {
                (Seq::<char>::empty(), ValueModel::Null)
            },
    )
}

/// Inserting into an object model: the first entry with the given key is
/// overwritten in place, and a fresh key is appended at the end.  Built from
/// an empty object this keeps keys unique, so "first" is also "only".
pub open spec fn obj_insert(
    es: Seq<(Seq<char>, ValueModel)>,
    key: Seq<char>,
    v: ValueModel,
) -> Seq<(Seq<char>, ValueModel)>
    decreases es.len(),
{
    if es.len() == 0 {
        seq![(key, v)]
    } else if es[0].0 == key {
        seq![(key, v)] + es.skip(1)
    } else {
        seq![es[0]] + obj_insert(es.skip(1), key, v)
    }
}

/// No two entries share a key.
pub open spec fn unique_keys(es: Seq<(Seq<char>, ValueModel)>) -> bool {
    forall|j: int, k: int| 0 <= j < k < es.len() ==> es[j].0 != es[k].0
}

/// A well-formed value: every object anywhere inside it has unique keys.
pub open spec fn value_wf(v: ValueModel) -> bool
    decreases v,
{
    match v {
        ValueModel::Doc(d) => doc_wf(d),
        _ => true,
    }
}

/// A well-formed document: every object in the tree, the document itself
/// included, has unique keys.
pub open spec fn doc_wf(d: DocModel) -> bool
    decreases d,
{
    match d {
        DocModel::Arr(items) => forall|i: int| 0 <= i < items.len() ==> value_wf(#[trigger] items[i]),
        DocModel::Obj(es) => unique_keys(es) && forall|i: int|
            0 <= i < es.len() ==> value_wf(#[trigger] es[i].1),
    }
}

/// Every entry of an insert's result is the inserted pair or an entry of the
/// original sequence.
pub proof fn lemma_obj_insert_entry_source(
    es: Seq<(Seq<char>, ValueModel)>,
    key: Seq<char>,
    v: ValueModel,
    j: int,
)
    requires
        0 <= j < obj_insert(es, key, v).len(),
    ensures
        obj_insert(es, key, v)[j] == (key, v) || exists|k: int|
            0 <= k < es.len() && es[k] == obj_insert(es, key, v)[j],
    decreases es.len(),
{
    if es.len() == 0 {
    } else if es[0].0 == key {
        if j > 0 {
            assert(es[j] == obj_insert(es, key, v)[j]);
        }
    } else {
        if j > 0 {
            lemma_obj_insert_entry_source(es.skip(1), key, v, j - 1);
            if obj_insert(es.skip(1), key, v)[j - 1] != (key, v) {
                let k = choose|k: int|
                    0 <= k < es.skip(1).len() && es.skip(1)[k] == obj_insert(
                        es.skip(1),
                        key,
                        v,
                    )[j - 1];
                assert(es[k + 1] == obj_insert(es, key, v)[j]);
            }
        }
    }
}

/// Inserting preserves key uniqueness.
pub proof fn lemma_obj_insert_unique(es: Seq<(Seq<char>, ValueModel)>, key: Seq<char>, v: ValueModel)
    requires
        unique_keys(es),
    ensures
        unique_keys(obj_insert(es, key, v)),
    decreases es.len(),
{
    let res = obj_insert(es, key, v);
    if es.len() == 0 {
    } else if es[0].0 == key {
        assert forall|j: int, k: int| 0 <= j < k < res.len() implies res[j].0 != res[k].0 by {
            assert(res[k] == es[k]);
            if j > 0 {
                assert(res[j] == es[j]);
            }
        }
    } else {
        assert(es.skip(1).len() == es.len() - 1);
        assert forall|j: int, k: int| 0 <= j < k < es.skip(1).len() implies es.skip(1)[j].0
            != es.skip(1)[k].0 by {
            assert(es.skip(1)[j] == es[j + 1]);
            assert(es.skip(1)[k] == es[k + 1]);
        }
        lemma_obj_insert_unique(es.skip(1), key, v);
        let rest = obj_insert(es.skip(1), key, v);
        assert forall|j: int, k: int| 0 <= j < k < res.len() implies res[j].0 != res[k].0 by {
            if j == 0 {
                // the head key differs from the inserted key and from every
                // key behind it
                lemma_obj_insert_entry_source(es.skip(1), key, v, k - 1);
                assert(res[k] == rest[k - 1]);
                if rest[k - 1] != (key, v) {
                    let m = choose|m: int|
                        0 <= m < es.skip(1).len() && es.skip(1)[m] == rest[k - 1];
                    assert(es.skip(1)[m] == es[m + 1]);
                    assert(es[0].0 != es[m + 1].0);
                }
            } else {
                assert(res[j] == rest[j - 1]);
                assert(res[k] == rest[k - 1]);
            }
        }
    }
}

impl JsonDocument {
    /// The elements when this document is an array, and `None` on an object.
    pub fn as_array(&self) -> (r: Option<&Vec<JsonValue>>)
        ensures
            match self {
                JsonDocument::Array(_) => r is Some,
                JsonDocument::Object(_) => r is None,
            },
            r matches Some(arr) ==> doc_model(*self) == DocModel::Arr(values_model(arr@)),
    {
        match self {
            JsonDocument::Array(arr) => Some(arr),
            _ => None,
        }
    }

    /// The entries when this document is an object, and `None` on an array.
    pub fn as_object(&self) -> (r: Option<&Vec<(String, JsonValue)>>)
        ensures
            match self {
                JsonDocument::Object(_) => r is Some,
                JsonDocument::Array(_) => r is None,
            },
            r matches Some(entries) ==> doc_model(*self) == DocModel::Obj(entries_model(entries@)),
    {
        match self {
            JsonDocument::Object(obj) => Some(obj),
            _ => None,
        }
    }
}

} // verus!
