//! The value model: the abstract shape of a datum that can be saved.
//!
//! A [`Value`] is a tagged union over every kind of datum the traversal
//! engine understands: scalars, the unit value, options, sequences, tuples,
//! maps, structs (records) and enum variants. Floating-point numbers are
//! carried in their already-rendered shortest-decimal text form, produced by
//! the embedding program, since the engine only ever needs their bytes.

use vstd::prelude::*;

verus! {

/// A nested, typed datum to be saved as a file tree.
///
/// Map entries are ordered as given; struct fields are ordered as declared
/// and expected to carry unique names.
pub enum Value {
    /// A boolean, rendered as the literal text `true` or `false`.
    Bool(bool),
    /// A signed integer, rendered as decimal ASCII with a leading `-` when
    /// negative.
    Int(i64),
    /// An unsigned integer, rendered as decimal ASCII.
    Uint(u64),
    /// A floating-point number, carried as the shortest decimal text that
    /// round-trips to the same number; the engine writes the text verbatim.
    Float(String),
    /// A single character, rendered as its UTF-8 bytes.
    Chr(char),
    /// A string, rendered as its raw UTF-8 bytes.
    Text(String),
    /// A byte sequence, written verbatim.
    Bytes(Vec<u8>),
    /// The unit value, rendered as an empty file.
    Unit,
    /// An absent optional value: a deletion intent, not a write.
    Absent,
    /// A present optional value; serialization recurses into it transparently.
    Present(Box<Value>),
    /// A sequence; each element becomes a numerically named child.
    List(Vec<Value>),
    /// A tuple; treated like a sequence.
    Tuple(Vec<Value>),
    /// A map of key/value entries; each rendered key names one child.
    Dict(Vec<(Value, Value)>),
    /// A struct: named, ordered fields.
    Record(Vec<(String, Value)>),
    /// An enum variant with no payload; the file holds the variant name.
    UnitVariant(String),
    /// An enum variant carrying one payload value.
    NewtypeVariant(String, Box<Value>),
    /// An enum variant carrying a tuple payload.
    TupleVariant(String, Vec<Value>),
    /// An enum variant carrying named fields.
    RecordVariant(String, Vec<(String, Value)>),
}

/// Whether a value is of a scalar kind (renders to one file's bytes on its
/// own, with no children).
pub open spec fn is_scalar(v: Value) -> bool {
    match v {
        Value::Bool(_) => true,
        Value::Int(_) => true,
        Value::Uint(_) => true,
        Value::Float(_) => true,
        Value::Chr(_) => true,
        Value::Text(_) => true,
        Value::Bytes(_) => true,
        _ => false,
    }
}

/// Whether a value may serve as a map key.
///
/// Keys must render to a textual name: every scalar kind except raw bytes,
/// the unit value, or an option of such a value. A byte sequence is not
/// accepted since it need not be valid text.
pub open spec fn key_ok(v: Value) -> bool {
    match v {
        Value::Bool(_) => true,
        Value::Int(_) => true,
        Value::Uint(_) => true,
        Value::Float(_) => true,
        Value::Chr(_) => true,
        Value::Text(_) => true,
        Value::Unit => true,
        Value::Absent => true,
        Value::Present(inner) => key_ok_inner(*inner),
        _ => false,
    }
}

/// Whether a value may appear inside an optional map key.
pub open spec fn key_ok_inner(v: Value) -> bool {
    match v {
        Value::Bool(_) => true,
        Value::Int(_) => true,
        Value::Uint(_) => true,
        Value::Float(_) => true,
        Value::Chr(_) => true,
        Value::Text(_) => true,
        Value::Unit => true,
        _ => false,
    }
}

/// Whether every map key anywhere inside a value is of a valid kind.
/// Serialization succeeds exactly on such values.
pub open spec fn keys_ok(v: Value) -> bool
    decreases v, 1int,
{
    match v {
        Value::Present(p) => keys_ok(*p),
        Value::List(es) => items_keys_ok(es@),
        Value::Tuple(es) => items_keys_ok(es@),
        Value::Dict(kvs) => entries_keys_ok(kvs@),
        Value::Record(fs) => fields_keys_ok(fs@),
        Value::NewtypeVariant(_, p) => keys_ok(*p),
        Value::TupleVariant(_, es) => items_keys_ok(es@),
        Value::RecordVariant(_, fs) => fields_keys_ok(fs@),
        _ => true,
    }
}

/// Whether every map key inside a sequence's elements is valid.
pub open spec fn items_keys_ok(es: Seq<Value>) -> bool
    decreases es, 0int,
{
    es.len() == 0 || (keys_ok(es.first()) && items_keys_ok(es.drop_first()))
}

/// Whether a map's keys are valid and its values hold only valid keys.
pub open spec fn entries_keys_ok(kvs: Seq<(Value, Value)>) -> bool
    decreases kvs, 0int,
{
    kvs.len() == 0 || (key_ok(kvs.first().0) && keys_ok(kvs.first().1) && entries_keys_ok(
        kvs.drop_first(),
    ))
}

/// Whether every map key inside a struct's field values is valid.
pub open spec fn fields_keys_ok(fs: Seq<(String, Value)>) -> bool
    decreases fs, 0int,
{
    fs.len() == 0 || (keys_ok(fs.first().1) && fields_keys_ok(fs.drop_first()))
}

/// Reports whether a value may serve as a map key; mirrors [`key_ok`].
pub fn is_valid_key(v: &Value) -> (r: bool)
    ensures
        r == key_ok(*v),
{
    match v {
        Value::Bool(_) => true,
        Value::Int(_) => true,
        Value::Uint(_) => true,
        Value::Float(_) => true,
        Value::Chr(_) => true,
        Value::Text(_) => true,
        Value::Unit => true,
        Value::Absent => true,
        Value::Present(inner) => match &**inner {
            Value::Bool(_) => true,
            Value::Int(_) => true,
            Value::Uint(_) => true,
            Value::Float(_) => true,
            Value::Chr(_) => true,
            Value::Text(_) => true,
            Value::Unit => true,
            _ => false,
        },
        _ => false,
    }
}

} // verus!
