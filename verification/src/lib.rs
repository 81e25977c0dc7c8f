//! A binary-document codec: it encodes tree-shaped values into a
//! length-prefixed binary document format (a BSON-compatible subset) and
//! decodes such documents back into values.
//!
//! Encoding runs the one serializer twice: first against a counting sink to
//! size a single allocation, then against the real buffer. Decoding scans
//! the untrusted bytes into a flat tape in one pass, then a pull cursor
//! walks the tape.

use vstd::prelude::*;

pub mod arena;
pub mod byte;
pub mod de;
pub mod error;
pub mod le_bytes;
pub mod round_trip;
pub mod ser;
pub mod value;

use crate::byte::{bm_reserve, BytesLikeBuf, CountingBytes};
use crate::error::Error;
use crate::le_bytes::{le32_at, lemma_u32_le_round_trip, u32_le_bytes};
use crate::ser::{
    arch_headroom, ser_outcome, serialize_value, spec_encode, spec_finish_doc, spec_placeholder,
    spec_ser_document, spec_ser_fields, MAX_DOC_LEN,
};
use crate::value::{model_value, Value, ValueV};

verus! {

/// Encodes `val` as one complete top-level document appended to `output`.
///
/// A quick pass over the value with the counting sink sizes one big
/// allocation up front, so the real pass allocates at most once.
pub fn to_string(val: &Value, output: &mut bytes::BytesMut) -> (r: Result<(), Error>)
    requires
        arch_headroom(),
        old(output).contents().len() + 0x2_0000_0000 <= usize::MAX,
    ensures
        ser_outcome(spec_encode(model_value(*val)), old(output).contents(), *final(output), r),
{
    let size = match serialised_size_of(val) {
        Result::Ok(s) => s,
        Result::Err(e) => {
            return Result::Err(e);
        },
    };
    bm_reserve(output, size);
    serialize_value(Option::None, val, output)
}

/// Runs only the counting pass: the exact number of bytes `to_string` would
/// append for `val`, or the error it would fail with.
pub fn serialised_size_of(val: &Value) -> (r: Result<usize, Error>)
    requires
        arch_headroom(),
    ensures
        match spec_encode(model_value(*val)) {
            Result::Ok(b) => r is Ok && r->Ok_0 == b.len(),
            Result::Err(e) => r == Result::<usize, Error>::Err(e),
        },
{
    let mut counting_bytes = CountingBytes::default();
    match serialize_value(Option::None, val, &mut counting_bytes) {
        Result::Ok(()) => Result::Ok(counting_bytes.bytes),
        Result::Err(e) => Result::Err(e),
    }
}

/// Size-consistency law: the counting pass and the emitting pass run one
/// algorithm against one specification, so the size reported for a value is
/// exactly the length of the bytes emitted for it. The hypotheses are what
/// the contracts of `serialised_size_of` and `to_string` give for `v`.
pub proof fn lemma_size_consistency(v: ValueV, size: int, emitted: Seq<u8>)
    requires
        match spec_encode(v) {
            Result::Ok(b) => size == b.len(),
            Result::Err(_) => false,
        },
        match spec_encode(v) {
            Result::Ok(b) => emitted == b,
            Result::Err(_) => false,
        },
    ensures
        size == emitted.len(),
{
}

/// Idempotent-measurement law: the counting sink has no observable effect
/// beyond its counter, and the count is a pure function of the value, so
/// running the counting pass twice on the same unchanged value yields the
/// same count both times. The hypotheses are what the contract of
/// `serialised_size_of` gives for each of the two runs.
pub proof fn lemma_measure_idempotent(v: ValueV, first: int, second: int)
    requires
        match spec_encode(v) {
            Result::Ok(b) => first == b.len(),
            Result::Err(_) => false,
        },
        match spec_encode(v) {
            Result::Ok(b) => second == b.len(),
            Result::Err(_) => false,
        },
    ensures
        first == second,
{
}

/// Length-prefix law: every document the serializer closes — the top-level
/// document and every nested document or array, each of which passes through
/// `spec_finish_doc` exactly once — begins with the little-endian count of
/// exactly its own bytes, from the count's first byte through the
/// terminator, and ends with the terminator byte.
pub proof fn lemma_length_prefix(doc: Seq<u8>)
    requires
        doc.len() >= 4,
        spec_finish_doc(doc) is Ok,
    ensures
        spec_finish_doc(doc)->Ok_0.len() == doc.len() + 1,
        le32_at(spec_finish_doc(doc)->Ok_0, 0) == spec_finish_doc(doc)->Ok_0.len(),
        spec_finish_doc(doc)->Ok_0.last() == 0u8,
        spec_finish_doc(doc)->Ok_0.len() <= MAX_DOC_LEN,
{
    let d = spec_finish_doc(doc)->Ok_0;
    let total = (doc.len() + 1) as u32;
    lemma_u32_le_round_trip(total);
    assert(d[0] == u32_le_bytes(total)[0]);
    assert(d[1] == u32_le_bytes(total)[1]);
    assert(d[2] == u32_le_bytes(total)[2]);
    assert(d[3] == u32_le_bytes(total)[3]);
}

/// Empty-struct law: a struct with zero fields encodes to exactly the five
/// bytes `05 00 00 00 00`.
pub proof fn lemma_empty_document()
    ensures
        spec_encode(ValueV::Document(Seq::empty())) == Result::<Seq<u8>, Error>::Ok(
            seq![5u8, 0u8, 0u8, 0u8, 0u8],
        ),
{
    let ph = spec_placeholder();
    assert(spec_ser_fields(Seq::empty(), ph) == Result::<Seq<u8>, Error>::Ok(ph));
    let d = spec_finish_doc(ph)->Ok_0;
    assert(u32_le_bytes(5u32) =~= seq![5u8, 0u8, 0u8, 0u8]);
    assert(d =~= seq![5u8, 0u8, 0u8, 0u8, 0u8]);
    assert(spec_ser_document(Option::None, Seq::empty()) == Result::<Seq<u8>, Error>::Ok(
        Seq::<u8>::empty() + d,
    ));
    assert(Seq::<u8>::empty() + d =~= d);
}

} // verus!
