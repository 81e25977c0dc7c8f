//! The tree-shaped values the codec works on: the concrete side of the
//! value-shape protocol (every shape a typed value can report), and the
//! mathematical model each contract speaks of.
//!
//! Strings and keys are held as their UTF-8 bytes; a double is held as the
//! bit pattern of its IEEE754 representation, which is exactly what the
//! format stores.

use vstd::prelude::*;

verus! {

/// One named field of a document.
#[derive(Debug, PartialEq)]
pub struct Field {
    pub key: Vec<u8>,
    pub value: Value,
}

/// A value of the supported format subset.
///
/// `Unsigned` and `Char` exist to be rejected: the format has no unsigned
/// representation, by design, and encoding them fails.
#[derive(Debug, PartialEq)]
pub enum Value {
    /// IEEE754 double, held as its bit pattern.
    Double(u64),
    /// UTF-8 string bytes (without terminator).
    String(Vec<u8>),
    /// Raw bytes, written with subtype 0.
    Binary(Vec<u8>),
    Boolean(bool),
    /// UTC datetime: signed milliseconds (caller-defined epoch unit).
    DateTime(i64),
    /// Absent optionals and units.
    Null,
    Int32(i32),
    /// Unsigned 64-bit timestamp.
    Timestamp(u64),
    Int64(i64),
    /// Sequences, tuples and tuple structs.
    Array(Vec<Value>),
    /// Structs and maps of named fields.
    Document(Vec<Field>),
    /// A unit enum variant: encoded as a bare string holding the tag name.
    UnitVariant(Vec<u8>),
    /// A newtype enum variant: encoded as the one-field document `{tag: value}`.
    NewtypeVariant(Vec<u8>, Box<Value>),
    /// A tuple enum variant: encoded as `{tag: [v0, v1, ...]}`.
    TupleVariant(Vec<u8>, Vec<Value>),
    /// A struct enum variant: encoded as `{tag: {f0: ..., f1: ...}}`.
    StructVariant(Vec<u8>, Vec<Field>),
    /// Any unsigned integer shape: rejected by the encoder.
    Unsigned(u64),
    /// A character shape: rejected by the encoder.
    Char(char),
}

/// The mathematical model of a [`Field`].
#[verifier::ext_equal]
pub struct FieldV {
    pub key: Seq<u8>,
    pub value: ValueV,
}

/// The mathematical model of a [`Value`].
#[verifier::ext_equal]
pub enum ValueV {
    Double(u64),
    String(Seq<u8>),
    Binary(Seq<u8>),
    Boolean(bool),
    DateTime(i64),
    Null,
    Int32(i32),
    Timestamp(u64),
    Int64(i64),
    Array(Seq<ValueV>),
    Document(Seq<FieldV>),
    UnitVariant(Seq<u8>),
    NewtypeVariant(Seq<u8>, Box<ValueV>),
    TupleVariant(Seq<u8>, Seq<ValueV>),
    StructVariant(Seq<u8>, Seq<FieldV>),
    Unsigned(u64),
    Char(char),
}

/// The model of a value: the same tree over `Seq` instead of `Vec`.
pub open spec fn model_value(v: Value) -> ValueV
    decreases v,
{
    match v {
        Value::Double(bits) => ValueV::Double(bits),
        Value::String(s) => ValueV::String(s@),
        Value::Binary(b) => ValueV::Binary(b@),
        Value::Boolean(b) => ValueV::Boolean(b),
        Value::DateTime(t) => ValueV::DateTime(t),
        Value::Null => ValueV::Null,
        Value::Int32(i) => ValueV::Int32(i),
        Value::Timestamp(t) => ValueV::Timestamp(t),
        Value::Int64(i) => ValueV::Int64(i),
        Value::Array(items) => ValueV::Array(model_values(items@)),
        Value::Document(fields) => ValueV::Document(model_fields(fields@)),
        Value::UnitVariant(name) => ValueV::UnitVariant(name@),
        Value::NewtypeVariant(name, inner) => ValueV::NewtypeVariant(
            name@,
            Box::new(model_value(*inner)),
        ),
        Value::TupleVariant(name, items) => ValueV::TupleVariant(name@, model_values(items@)),
        Value::StructVariant(name, fields) => ValueV::StructVariant(
            name@,
            model_fields(fields@),
        ),
        Value::Unsigned(u) => ValueV::Unsigned(u),
        Value::Char(c) => ValueV::Char(c),
    }
}

/// The models of a sequence of values, in order.
pub open spec fn model_values(s: Seq<Value>) -> Seq<ValueV>
    decreases s,
{
    if s.len() == 0 {
        Seq::empty()
    } else {
        seq![model_value(s[0])] + model_values(s.subrange(1, s.len() as int))
    }
}

/// The models of a sequence of fields, in order.
pub open spec fn model_fields(s: Seq<Field>) -> Seq<FieldV>
    decreases s,
{
    if s.len() == 0 {
        Seq::empty()
    } else {
        seq![FieldV { key: s[0].key@, value: model_value(s[0].value) }] + model_fields(
            s.subrange(1, s.len() as int),
        )
    }
}

} // verus!
