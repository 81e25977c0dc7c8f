//! The document serializer: drives the production of one encoded document
//! from one value, writing into any sink of the buffer capability set.
//!
//! Nested documents are built by splitting a fresh sub-buffer off the parent,
//! reserving four zero bytes for the length, writing the elements, then
//! patching the length and merging the sub-buffer back — one forward pass,
//! no second copy.
//!
//! `spec_ser_value` is the specification the executable serializer is proved
//! against: it gives the exact bytes produced for every value, and the exact
//! error otherwise.

use vstd::prelude::*;

use crate::byte::BytesLikeBuf;
use crate::error::Error;
use crate::le_bytes::{dec_digits, i32_le_bytes, i64_le_bytes, lemma_dec_digits_len, u32_le_bytes, u64_le_bytes};
use crate::value::{model_fields, model_value, model_values, Field, FieldV, Value, ValueV};

verus! {

/// The largest value the signed 32-bit length fields can carry.
pub const MAX_DOC_LEN: usize = 0x7fff_ffff;

/// The machine limit this module needs: a `usize` must be able to hold a
/// whole document plus the transient bookkeeping of one element write.
pub open spec fn arch_headroom() -> bool {
    MAX_DOC_LEN + 0x2_0000_0000 <= usize::MAX
}

/// An element key: a field name, or a decimal index inside an array.
#[derive(Clone, Copy)]
pub enum DocumentKey<'a> {
    Str(&'a [u8]),
    Int(usize),
}

impl<'a> DocumentKey<'a> {
    /// The bytes this key writes.
    pub open spec fn model(self) -> Seq<u8> {
        match self {
            DocumentKey::Str(s) => s@,
            DocumentKey::Int(i) => dec_digits(i as nat),
        }
    }
}

/// The model of an optional key.
pub open spec fn model_opt_key(key: Option<DocumentKey>) -> Option<Seq<u8>> {
    match key {
        Option::None => Option::None,
        Option::Some(k) => Option::Some(k.model()),
    }
}

/// `typeTag`, then the NUL-terminated key.
pub open spec fn spec_header(tag: u8, key: Seq<u8>) -> Seq<u8> {
    seq![tag] + key + seq![0u8]
}

/// The header of a scalar element: without a key the format cannot hold the
/// value at all.
pub open spec fn spec_write_key(tag: u8, key: Option<Seq<u8>>) -> Result<Seq<u8>, Error> {
    match key {
        Option::None => Result::Err(Error::NotSerializingStruct),
        Option::Some(k) => if k.len() > MAX_DOC_LEN {
            Result::Err(Error::DocumentTooLarge)
        } else {
            Result::Ok(spec_header(tag, k))
        },
    }
}

/// The header of a container element: at the top level there is no key and
/// nothing is written.
pub open spec fn spec_container_key(tag: u8, key: Option<Seq<u8>>) -> Result<Seq<u8>, Error> {
    match key {
        Option::None => Result::Ok(Seq::empty()),
        Option::Some(k) => if k.len() > MAX_DOC_LEN {
            Result::Err(Error::DocumentTooLarge)
        } else {
            Result::Ok(spec_header(tag, k))
        },
    }
}

/// Closes a document buffer `doc` (which starts with the four reserved
/// length bytes): appends the terminator and patches the length prefix.
pub open spec fn spec_finish_doc(doc: Seq<u8>) -> Result<Seq<u8>, Error> {
    if doc.len() + 1 > MAX_DOC_LEN {
        Result::Err(Error::DocumentTooLarge)
    } else {
        Result::Ok(
            u32_le_bytes((doc.len() + 1) as u32) + doc.subrange(4, doc.len() as int) + seq![0u8],
        )
    }
}

/// The four reserved bytes a document buffer starts with.
pub open spec fn spec_placeholder() -> Seq<u8> {
    seq![0u8, 0u8, 0u8, 0u8]
}

/// The exact bytes the serializer appends for value `v` under key `key`, or
/// the exact error it fails with.
pub open spec fn spec_ser_value(key: Option<Seq<u8>>, v: ValueV) -> Result<Seq<u8>, Error>
    decreases v, 0int,
{
    match v {
        ValueV::Unsigned(_) => Result::Err(Error::UnsignedIntNotInSpec),
        ValueV::Char(_) => Result::Err(Error::UnsignedIntNotInSpec),
        ValueV::Boolean(b) => match spec_write_key(0x08, key) {
            Result::Err(e) => Result::Err(e),
            Result::Ok(h) => Result::Ok(h + seq![if b { 1u8 } else { 0u8 }]),
        },
        ValueV::Int32(i) => match spec_write_key(0x10, key) {
            Result::Err(e) => Result::Err(e),
            Result::Ok(h) => Result::Ok(h + i32_le_bytes(i)),
        },
        ValueV::Int64(i) => match spec_write_key(0x12, key) {
            Result::Err(e) => Result::Err(e),
            Result::Ok(h) => Result::Ok(h + i64_le_bytes(i)),
        },
        ValueV::DateTime(t) => match spec_write_key(0x09, key) {
            Result::Err(e) => Result::Err(e),
            Result::Ok(h) => Result::Ok(h + i64_le_bytes(t)),
        },
        ValueV::Timestamp(t) => match spec_write_key(0x11, key) {
            Result::Err(e) => Result::Err(e),
            Result::Ok(h) => Result::Ok(h + u64_le_bytes(t)),
        },
        ValueV::Double(bits) => match spec_write_key(0x01, key) {
            Result::Err(e) => Result::Err(e),
            Result::Ok(h) => Result::Ok(h + u64_le_bytes(bits)),
        },
        ValueV::Null => match spec_write_key(0x0a, key) {
            Result::Err(e) => Result::Err(e),
            Result::Ok(h) => Result::Ok(h),
        },
        ValueV::String(s) => spec_ser_string(key, s),
        ValueV::UnitVariant(name) => spec_ser_string(key, name),
        ValueV::Binary(b) => match spec_write_key(0x05, key) {
            Result::Err(e) => Result::Err(e),
            Result::Ok(h) => if b.len() > MAX_DOC_LEN {
                Result::Err(Error::DocumentTooLarge)
            } else {
                Result::Ok(h + u32_le_bytes(b.len() as u32) + seq![0u8] + b)
            },
        },
        ValueV::Array(items) => spec_ser_array(key, items),
        ValueV::Document(fields) => spec_ser_document(key, fields),
        ValueV::NewtypeVariant(name, inner) => spec_ser_newtype_variant(key, name, *inner),
        ValueV::TupleVariant(name, items) => spec_ser_tuple_variant(key, name, items),
        ValueV::StructVariant(name, fields) => spec_ser_struct_variant(key, name, fields),
    }
}

/// The bytes of an array element: a nested document with tag `0x04` whose
/// keys are the decimal forms of `0, 1, 2, …`.
pub open spec fn spec_ser_array(key: Option<Seq<u8>>, items: Seq<ValueV>) -> Result<Seq<u8>, Error>
    decreases items, items.len() + 1,
{
    match spec_container_key(0x04, key) {
        Result::Err(e) => Result::Err(e),
        Result::Ok(h) => match spec_ser_items(items, 0, spec_placeholder()) {
            Result::Err(e) => Result::Err(e),
            Result::Ok(doc) => match spec_finish_doc(doc) {
                Result::Err(e) => Result::Err(e),
                Result::Ok(d) => Result::Ok(h + d),
            },
        },
    }
}

/// The bytes of a document element: a nested document with tag `0x03`.
pub open spec fn spec_ser_document(key: Option<Seq<u8>>, fields: Seq<FieldV>) -> Result<
    Seq<u8>,
    Error,
>
    decreases fields, fields.len() + 1,
{
    match spec_container_key(0x03, key) {
        Result::Err(e) => Result::Err(e),
        Result::Ok(h) => match spec_ser_fields(fields, spec_placeholder()) {
            Result::Err(e) => Result::Err(e),
            Result::Ok(doc) => match spec_finish_doc(doc) {
                Result::Err(e) => Result::Err(e),
                Result::Ok(d) => Result::Ok(h + d),
            },
        },
    }
}

/// The bytes of a newtype enum variant: the one-field document
/// `{ variantName: value }`.
pub open spec fn spec_ser_newtype_variant(
    key: Option<Seq<u8>>,
    name: Seq<u8>,
    inner: ValueV,
) -> Result<Seq<u8>, Error>
    decreases inner, 1int,
{
    match spec_container_key(0x03, key) {
        Result::Err(e) => Result::Err(e),
        Result::Ok(h) => match spec_ser_value(Option::Some(name), inner) {
            Result::Err(e) => Result::Err(e),
            Result::Ok(b) => if spec_placeholder().len() + b.len() > MAX_DOC_LEN {
                Result::Err(Error::DocumentTooLarge)
            } else {
                match spec_finish_doc(spec_placeholder() + b) {
                    Result::Err(e) => Result::Err(e),
                    Result::Ok(d) => Result::Ok(h + d),
                }
            },
        },
    }
}

/// The bytes of a tuple enum variant: the document
/// `{ variantName: [v0, v1, …] }`.
pub open spec fn spec_ser_tuple_variant(
    key: Option<Seq<u8>>,
    name: Seq<u8>,
    items: Seq<ValueV>,
) -> Result<Seq<u8>, Error>
    decreases items, items.len() + 2,
{
    match spec_container_key(0x03, key) {
        Result::Err(e) => Result::Err(e),
        Result::Ok(h) => match spec_write_key(0x04, Option::Some(name)) {
            Result::Err(e) => Result::Err(e),
            Result::Ok(h2) => match spec_ser_items(items, 0, spec_placeholder()) {
                Result::Err(e) => Result::Err(e),
                Result::Ok(inner_doc) => match spec_finish_doc(inner_doc) {
                    Result::Err(e) => Result::Err(e),
                    Result::Ok(inner) => match spec_finish_doc(spec_placeholder() + h2 + inner) {
                        Result::Err(e) => Result::Err(e),
                        Result::Ok(d) => Result::Ok(h + d),
                    },
                },
            },
        },
    }
}

/// The bytes of a struct enum variant: the document
/// `{ variantName: { f0: …, f1: … } }`.
pub open spec fn spec_ser_struct_variant(
    key: Option<Seq<u8>>,
    name: Seq<u8>,
    fields: Seq<FieldV>,
) -> Result<Seq<u8>, Error>
    decreases fields, fields.len() + 2,
{
    match spec_container_key(0x03, key) {
        Result::Err(e) => Result::Err(e),
        Result::Ok(h) => match spec_write_key(0x03, Option::Some(name)) {
            Result::Err(e) => Result::Err(e),
            Result::Ok(h2) => match spec_ser_fields(fields, spec_placeholder()) {
                Result::Err(e) => Result::Err(e),
                Result::Ok(inner_doc) => match spec_finish_doc(inner_doc) {
                    Result::Err(e) => Result::Err(e),
                    Result::Ok(inner) => match spec_finish_doc(spec_placeholder() + h2 + inner) {
                        Result::Err(e) => Result::Err(e),
                        Result::Ok(d) => Result::Ok(h + d),
                    },
                },
            },
        },
    }
}

/// The bytes of a string element (also used for unit variants, which encode
/// as a bare string holding the variant name).
pub open spec fn spec_ser_string(key: Option<Seq<u8>>, s: Seq<u8>) -> Result<Seq<u8>, Error> {
    match spec_write_key(0x02, key) {
        Result::Err(e) => Result::Err(e),
        Result::Ok(h) => if s.len() + 1 > MAX_DOC_LEN {
            Result::Err(Error::DocumentTooLarge)
        } else {
            Result::Ok(h + u32_le_bytes((s.len() + 1) as u32) + s + seq![0u8])
        },
    }
}

/// Extends a document buffer `acc` with the elements for `fields`, checking
/// the running length against the format's limit after each element.
pub open spec fn spec_ser_fields(fields: Seq<FieldV>, acc: Seq<u8>) -> Result<Seq<u8>, Error>
    decreases fields, fields.len(),
{
    if fields.len() == 0 {
        Result::Ok(acc)
    } else {
        match spec_ser_value(Option::Some(fields[0].key), fields[0].value) {
            Result::Err(e) => Result::Err(e),
            Result::Ok(b) => if acc.len() + b.len() > MAX_DOC_LEN {
                Result::Err(Error::DocumentTooLarge)
            } else {
                spec_ser_fields(fields.subrange(1, fields.len() as int), acc + b)
            },
        }
    }
}

/// Extends an array's document buffer `acc` with its elements, keyed by the
/// decimal form of the running index.
pub open spec fn spec_ser_items(items: Seq<ValueV>, idx: nat, acc: Seq<u8>) -> Result<
    Seq<u8>,
    Error,
>
    decreases items, items.len(),
{
    if items.len() == 0 {
        Result::Ok(acc)
    } else {
        match spec_ser_value(Option::Some(dec_digits(idx)), items[0]) {
            Result::Err(e) => Result::Err(e),
            Result::Ok(b) => if acc.len() + b.len() > MAX_DOC_LEN {
                Result::Err(Error::DocumentTooLarge)
            } else {
                spec_ser_items(items.subrange(1, items.len() as int), idx + 1, acc + b)
            },
        }
    }
}

/// The bytes `to_string` appends for a whole value, or the error it fails
/// with: a value at the top level carries no key.
pub open spec fn spec_encode(v: ValueV) -> Result<Seq<u8>, Error> {
    spec_ser_value(Option::None, v)
}

/// Whatever `spec_ser_fields` returns keeps the bytes it started from as a
/// prefix: element writes never touch the reserved length bytes.
pub proof fn lemma_ser_fields_prefix(fields: Seq<FieldV>, acc: Seq<u8>)
    ensures
        spec_ser_fields(fields, acc) matches Result::Ok(b) ==> b.len() >= acc.len()
            && b.subrange(0, acc.len() as int) == acc,
    decreases fields,
{
    if fields.len() > 0 {
        match spec_ser_value(Option::Some(fields[0].key), fields[0].value) {
            Result::Err(_) => {}
            Result::Ok(b0) => {
                if acc.len() + b0.len() <= MAX_DOC_LEN {
                    lemma_ser_fields_prefix(fields.subrange(1, fields.len() as int), acc + b0);
                    if spec_ser_fields(fields, acc) is Ok {
                        let b = spec_ser_fields(fields, acc)->Ok_0;
                        assert(b.subrange(0, (acc + b0).len() as int).subrange(0, acc.len() as int)
                            =~= b.subrange(0, acc.len() as int));
                        assert((acc + b0).subrange(0, acc.len() as int) =~= acc);
                    }
                }
            }
        }
    }
}

/// What a serializing function leaves in its output sink: on success the
/// specified bytes are appended, on failure the specified error is returned.
pub open spec fn ser_outcome<B: BytesLikeBuf>(
    sr: Result<Seq<u8>, Error>,
    pre: Seq<u8>,
    post: B,
    r: Result<(), Error>,
) -> bool {
    match sr {
        Result::Ok(b) => r is Ok && post.inv() && post.contents() == pre + b,
        Result::Err(e) => r == Result::<(), Error>::Err(e),
    }
}

/// Relies on `itoa::Buffer::format`: the decimal digit string of `i`.
#[verifier::external_body]
fn format_int(i: usize) -> (r: Vec<u8>)
    ensures
        r@ == dec_digits(i as nat),
{
    let mut buf = itoa::Buffer::new();
    let s = buf.format(i);
    s.as_bytes().to_vec()
}

impl<'a> DocumentKey<'a> {
    /// Writes the key's bytes (a field name, or the decimal form of an array
    /// index) to the buffer; the terminator is the caller's.
    pub fn write_to_buf<B: BytesLikeBuf>(&self, buf: &mut B)
        requires
            old(buf).inv(),
            old(buf).contents().len() + self.model().len() <= usize::MAX,
        ensures
            final(buf).inv(),
            final(buf).contents() == old(buf).contents() + self.model(),
    {
        match self {
            DocumentKey::Str(s) => buf.put_slice(s),
            DocumentKey::Int(i) => {
                let digits = format_int(*i);
                buf.put_slice(digits.as_slice());
            }
        }
    }
}

/// Writes `typeTag + key + NUL` for a scalar element, failing without a key.
fn write_key<B: BytesLikeBuf>(tag: u8, key: Option<DocumentKey>, output: &mut B) -> (r: Result<
    (),
    Error,
>)
    requires
        arch_headroom(),
        old(output).inv(),
        old(output).contents().len() + 0x2_0000_0000 <= usize::MAX,
    ensures
        match spec_write_key(tag, model_opt_key(key)) {
            Result::Ok(h) => r is Ok && final(output).inv()
                && final(output).contents() == old(output).contents() + h
                && h.len() <= 2 + MAX_DOC_LEN,
            Result::Err(e) => r == Result::<(), Error>::Err(e),
        },
{
    let k = match key {
        Option::None => {
            return Result::Err(Error::NotSerializingStruct);
        },
        Option::Some(k) => k,
    };
    match k {
        DocumentKey::Str(s) => {
            if s.len() > MAX_DOC_LEN {
                return Result::Err(Error::DocumentTooLarge);
            }
        },
        DocumentKey::Int(i) => {
            proof {
                lemma_dec_digits_len(i as nat);
            }
        },
    }
    let ghost pre = output.contents();
    output.put_u8(tag);
    k.write_to_buf(output);
    output.put_u8(0x00);
    proof {
        assert(output.contents() =~= pre + spec_header(tag, k.model()));
    }
    Result::Ok(())
}

/// Writes `typeTag + key + NUL` for a container element; at the top level
/// there is no key and nothing is written.
fn container_key<B: BytesLikeBuf>(tag: u8, key: Option<DocumentKey>, output: &mut B) -> (r: Result<
    (),
    Error,
>)
    requires
        arch_headroom(),
        old(output).inv(),
        old(output).contents().len() + 0x2_0000_0000 <= usize::MAX,
    ensures
        match spec_container_key(tag, model_opt_key(key)) {
            Result::Ok(h) => r is Ok && final(output).inv()
                && final(output).contents() == old(output).contents() + h
                && h.len() <= 2 + MAX_DOC_LEN,
            Result::Err(e) => r == Result::<(), Error>::Err(e),
        },
{
    match key {
        Option::None => {
            proof {
                assert(old(output).contents() + Seq::<u8>::empty() =~= old(output).contents());
            }
            Result::Ok(())
        },
        Option::Some(_) => write_key(tag, key, output),
    }
}

/// Splits a fresh sub-buffer off the parent's end and reserves the four
/// zeroed bytes the document's length is patched into later.
pub fn start_document<B: BytesLikeBuf>(buffer: &mut B) -> (doc: B)
    requires
        old(buffer).inv(),
    ensures
        final(buffer).inv(),
        final(buffer).contents() == old(buffer).contents(),
        doc.inv(),
        doc.contents() == spec_placeholder(),
{
    let len = buffer.len();
    let mut doc_output = buffer.split_off(len);
    doc_output.put_i32_le(0);
    proof {
        assert(Seq::<u8>::empty() + i32_le_bytes(0) =~= spec_placeholder());
    }
    doc_output
}

/// Appends the terminator, patches the reserved length bytes — statically
/// known to still be zero, the corruption guard of the format — and merges
/// the finished document back onto its parent.
pub fn terminate_document<B: BytesLikeBuf>(original_buffer: &mut B, document: B) -> (r: Result<
    (),
    Error,
>)
    requires
        old(original_buffer).inv(),
        document.inv(),
        document.contents().len() >= 4,
        document.contents().subrange(0, 4) == spec_placeholder(),
        document.contents().len() + 1 <= usize::MAX,
        old(original_buffer).contents().len() + document.contents().len() + 1 <= usize::MAX,
    ensures
        match spec_finish_doc(document.contents()) {
            Result::Ok(d) => r is Ok && final(original_buffer).inv()
                && final(original_buffer).contents() == old(original_buffer).contents() + d,
            Result::Err(e) => r == Result::<(), Error>::Err(e),
        },
{
    let ghost doc0 = document.contents();
    let mut document = document;
    document.put_u8(0x00);
    let total = document.len();
    if total > MAX_DOC_LEN {
        return Result::Err(Error::DocumentTooLarge);
    }
    let b0 = (total % 0x100) as u8;
    let b1 = ((total / 0x100) % 0x100) as u8;
    let b2 = ((total / 0x10000) % 0x100) as u8;
    let b3 = ((total / 0x1000000) % 0x100) as u8;
    document.set_byte(0, b0);
    document.set_byte(1, b1);
    document.set_byte(2, b2);
    document.set_byte(3, b3);
    proof {
        assert(total as u32 == total as int);
        assert(document.contents() =~= u32_le_bytes((doc0.len() + 1) as u32) + doc0.subrange(
            4,
            doc0.len() as int,
        ) + seq![0u8]);
    }
    original_buffer.unsplit(document);
    Result::Ok(())
}

/// Serializes a boolean element: tag `0x08`, one payload byte.
pub fn serialize_bool<B: BytesLikeBuf>(key: Option<DocumentKey>, v: bool, output: &mut B) -> (r:
    Result<(), Error>)
    requires
        arch_headroom(),
        old(output).inv(),
        old(output).contents().len() + 0x2_0000_0000 <= usize::MAX,
    ensures
        ser_outcome(
            spec_ser_value(model_opt_key(key), ValueV::Boolean(v)),
            old(output).contents(),
            *final(output),
            r,
        ),
{
    let ghost pre = output.contents();
    match write_key(0x08, key, output) {
        Result::Err(e) => {
            return Result::Err(e);
        },
        Result::Ok(()) => {},
    }
    let byte: u8 = if v {
        1
    } else {
        0
    };
    output.put_u8(byte);
    proof {
        let h = spec_write_key(0x08, model_opt_key(key))->Ok_0;
        assert(output.contents() =~= pre + (h + seq![byte]));
    }
    Result::Ok(())
}

/// Serializes a signed 32-bit integer element: tag `0x10`.
pub fn serialize_i32<B: BytesLikeBuf>(key: Option<DocumentKey>, v: i32, output: &mut B) -> (r:
    Result<(), Error>)
    requires
        arch_headroom(),
        old(output).inv(),
        old(output).contents().len() + 0x2_0000_0000 <= usize::MAX,
    ensures
        ser_outcome(
            spec_ser_value(model_opt_key(key), ValueV::Int32(v)),
            old(output).contents(),
            *final(output),
            r,
        ),
{
    let ghost pre = output.contents();
    match write_key(0x10, key, output) {
        Result::Err(e) => {
            return Result::Err(e);
        },
        Result::Ok(()) => {},
    }
    output.put_i32_le(v);
    proof {
        let h = spec_write_key(0x10, model_opt_key(key))->Ok_0;
        assert(output.contents() =~= pre + (h + i32_le_bytes(v)));
    }
    Result::Ok(())
}

/// Serializes a signed 64-bit integer element: tag `0x12`.
pub fn serialize_i64<B: BytesLikeBuf>(key: Option<DocumentKey>, v: i64, output: &mut B) -> (r:
    Result<(), Error>)
    requires
        arch_headroom(),
        old(output).inv(),
        old(output).contents().len() + 0x2_0000_0000 <= usize::MAX,
    ensures
        ser_outcome(
            spec_ser_value(model_opt_key(key), ValueV::Int64(v)),
            old(output).contents(),
            *final(output),
            r,
        ),
{
    let ghost pre = output.contents();
    match write_key(0x12, key, output) {
        Result::Err(e) => {
            return Result::Err(e);
        },
        Result::Ok(()) => {},
    }
    output.put_i64_le(v);
    proof {
        let h = spec_write_key(0x12, model_opt_key(key))->Ok_0;
        assert(output.contents() =~= pre + (h + i64_le_bytes(v)));
    }
    Result::Ok(())
}

/// Serializes a UTC datetime element: tag `0x09`, signed 64-bit payload.
pub fn serialize_datetime<B: BytesLikeBuf>(key: Option<DocumentKey>, v: i64, output: &mut B) -> (r:
    Result<(), Error>)
    requires
        arch_headroom(),
        old(output).inv(),
        old(output).contents().len() + 0x2_0000_0000 <= usize::MAX,
    ensures
        ser_outcome(
            spec_ser_value(model_opt_key(key), ValueV::DateTime(v)),
            old(output).contents(),
            *final(output),
            r,
        ),
{
    let ghost pre = output.contents();
    match write_key(0x09, key, output) {
        Result::Err(e) => {
            return Result::Err(e);
        },
        Result::Ok(()) => {},
    }
    output.put_i64_le(v);
    proof {
        let h = spec_write_key(0x09, model_opt_key(key))->Ok_0;
        assert(output.contents() =~= pre + (h + i64_le_bytes(v)));
    }
    Result::Ok(())
}

/// Serializes a timestamp element: tag `0x11`, unsigned 64-bit payload.
pub fn serialize_timestamp<B: BytesLikeBuf>(key: Option<DocumentKey>, v: u64, output: &mut B) -> (r:
    Result<(), Error>)
    requires
        arch_headroom(),
        old(output).inv(),
        old(output).contents().len() + 0x2_0000_0000 <= usize::MAX,
    ensures
        ser_outcome(
            spec_ser_value(model_opt_key(key), ValueV::Timestamp(v)),
            old(output).contents(),
            *final(output),
            r,
        ),
{
    let ghost pre = output.contents();
    match write_key(0x11, key, output) {
        Result::Err(e) => {
            return Result::Err(e);
        },
        Result::Ok(()) => {},
    }
    output.put_u64_le(v);
    proof {
        let h = spec_write_key(0x11, model_opt_key(key))->Ok_0;
        assert(output.contents() =~= pre + (h + u64_le_bytes(v)));
    }
    Result::Ok(())
}

/// Serializes a double element: tag `0x01`. The payload is the IEEE754 bit
/// pattern, handed over as a `u64`, whose little-endian bytes are exactly
/// the double's wire form.
pub fn serialize_double<B: BytesLikeBuf>(key: Option<DocumentKey>, bits: u64, output: &mut B) -> (r:
    Result<(), Error>)
    requires
        arch_headroom(),
        old(output).inv(),
        old(output).contents().len() + 0x2_0000_0000 <= usize::MAX,
    ensures
        ser_outcome(
            spec_ser_value(model_opt_key(key), ValueV::Double(bits)),
            old(output).contents(),
            *final(output),
            r,
        ),
{
    let ghost pre = output.contents();
    match write_key(0x01, key, output) {
        Result::Err(e) => {
            return Result::Err(e);
        },
        Result::Ok(()) => {},
    }
    output.put_u64_le(bits);
    proof {
        let h = spec_write_key(0x01, model_opt_key(key))->Ok_0;
        assert(output.contents() =~= pre + (h + u64_le_bytes(bits)));
    }
    Result::Ok(())
}

/// Serializes a null element (absent optionals and units): tag `0x0A`, no
/// payload.
pub fn serialize_none<B: BytesLikeBuf>(key: Option<DocumentKey>, output: &mut B) -> (r: Result<
    (),
    Error,
>)
    requires
        arch_headroom(),
        old(output).inv(),
        old(output).contents().len() + 0x2_0000_0000 <= usize::MAX,
    ensures
        ser_outcome(
            spec_ser_value(model_opt_key(key), ValueV::Null),
            old(output).contents(),
            *final(output),
            r,
        ),
{
    match write_key(0x0a, key, output) {
        Result::Err(e) => {
            return Result::Err(e);
        },
        Result::Ok(()) => {},
    }
    Result::Ok(())
}

/// Serializes a string element: tag `0x02`, then `int32 byteLen+1`, the
/// UTF-8 bytes, and a NUL.
pub fn serialize_str<B: BytesLikeBuf>(key: Option<DocumentKey>, v: &[u8], output: &mut B) -> (r:
    Result<(), Error>)
    requires
        arch_headroom(),
        old(output).inv(),
        old(output).contents().len() + 0x2_0000_0000 <= usize::MAX,
    ensures
        ser_outcome(
            spec_ser_string(model_opt_key(key), v@),
            old(output).contents(),
            *final(output),
            r,
        ),
{
    let ghost pre = output.contents();
    match write_key(0x02, key, output) {
        Result::Err(e) => {
            return Result::Err(e);
        },
        Result::Ok(()) => {},
    }
    if v.len() > MAX_DOC_LEN - 1 {
        return Result::Err(Error::DocumentTooLarge);
    }
    output.put_i32_le((v.len() + 1) as i32);
    output.put_slice(v);
    output.put_u8(0x00);
    proof {
        let h = spec_write_key(0x02, model_opt_key(key))->Ok_0;
        assert(i32_le_bytes((v@.len() + 1) as i32) =~= u32_le_bytes((v@.len() + 1) as u32));
        assert(output.contents() =~= pre + (h + u32_le_bytes((v@.len() + 1) as u32) + v@
            + seq![0u8]));
    }
    Result::Ok(())
}

/// Serializes a unit enum variant: a bare string element holding the
/// variant's tag name.
pub fn serialize_unit_variant<B: BytesLikeBuf>(
    key: Option<DocumentKey>,
    variant: &[u8],
    output: &mut B,
) -> (r: Result<(), Error>)
    requires
        arch_headroom(),
        old(output).inv(),
        old(output).contents().len() + 0x2_0000_0000 <= usize::MAX,
    ensures
        ser_outcome(
            spec_ser_value(model_opt_key(key), ValueV::UnitVariant(variant@)),
            old(output).contents(),
            *final(output),
            r,
        ),
{
    serialize_str(key, variant, output)
}

/// Serializes a binary element: tag `0x05`, then `int32 byteLen`, the
/// subtype byte `0x00`, and the raw bytes.
pub fn serialize_bytes<B: BytesLikeBuf>(key: Option<DocumentKey>, v: &[u8], output: &mut B) -> (r:
    Result<(), Error>)
    requires
        arch_headroom(),
        old(output).inv(),
        old(output).contents().len() + 0x2_0000_0000 <= usize::MAX,
    ensures
        ser_outcome(
            spec_ser_value(model_opt_key(key), ValueV::Binary(v@)),
            old(output).contents(),
            *final(output),
            r,
        ),
{
    let ghost pre = output.contents();
    match write_key(0x05, key, output) {
        Result::Err(e) => {
            return Result::Err(e);
        },
        Result::Ok(()) => {},
    }
    if v.len() > MAX_DOC_LEN {
        return Result::Err(Error::DocumentTooLarge);
    }
    output.put_i32_le(v.len() as i32);
    output.put_u8(0x00);
    output.put_slice(v);
    proof {
        let h = spec_write_key(0x05, model_opt_key(key))->Ok_0;
        assert(i32_le_bytes(v@.len() as i32) =~= u32_le_bytes(v@.len() as u32));
        assert(output.contents() =~= pre + (h + u32_le_bytes(v@.len() as u32) + seq![0u8] + v@));
    }
    Result::Ok(())
}

/// Writes the elements of a document body for `fields[i..]`, each preceded
/// by its field name, checking the running length after each element.
fn serialize_fields<B: BytesLikeBuf>(fields: &Vec<Field>, i: usize, doc: &mut B) -> (r: Result<
    (),
    Error,
>)
    requires
        arch_headroom(),
        old(doc).inv(),
        i <= fields@.len(),
        old(doc).contents().len() <= MAX_DOC_LEN,
    ensures
        match spec_ser_fields(
            model_fields(fields@.subrange(i as int, fields@.len() as int)),
            old(doc).contents(),
        ) {
            Result::Ok(b) => r is Ok && final(doc).inv() && final(doc).contents() == b && b.len()
                <= MAX_DOC_LEN,
            Result::Err(e) => r == Result::<(), Error>::Err(e),
        },
    decreases fields@, fields@.len() - i,
{
    let ghost s = fields@.subrange(i as int, fields@.len() as int);
    if i == fields.len() {
        proof {
            assert(s =~= Seq::<Field>::empty());
        }
        return Result::Ok(());
    }
    proof {
        assert(s[0] == fields@[i as int]);
        assert(decreases_to!(fields@ => fields@[i as int].value));
    }
    let f = &fields[i];
    match serialize_value(Option::Some(DocumentKey::Str(f.key.as_slice())), &f.value, doc) {
        Result::Err(e) => {
            return Result::Err(e);
        },
        Result::Ok(()) => {},
    }
    let l = doc.len();
    if l > MAX_DOC_LEN {
        return Result::Err(Error::DocumentTooLarge);
    }
    proof {
        assert(s.subrange(1, s.len() as int) =~= fields@.subrange(
            i as int + 1,
            fields@.len() as int,
        ));
        assert(model_fields(s).subrange(1, model_fields(s).len() as int) =~= model_fields(
            s.subrange(1, s.len() as int),
        ));
    }
    serialize_fields(fields, i + 1, doc)
}

/// Writes the elements of an array's document body for `items[i..]`, each
/// keyed by the decimal form of its index.
fn serialize_items<B: BytesLikeBuf>(items: &Vec<Value>, i: usize, doc: &mut B) -> (r: Result<
    (),
    Error,
>)
    requires
        arch_headroom(),
        old(doc).inv(),
        i <= items@.len(),
        old(doc).contents().len() <= MAX_DOC_LEN,
    ensures
        match spec_ser_items(
            model_values(items@.subrange(i as int, items@.len() as int)),
            i as nat,
            old(doc).contents(),
        ) {
            Result::Ok(b) => r is Ok && final(doc).inv() && final(doc).contents() == b && b.len()
                <= MAX_DOC_LEN,
            Result::Err(e) => r == Result::<(), Error>::Err(e),
        },
    decreases items@, items@.len() - i,
{
    let ghost s = items@.subrange(i as int, items@.len() as int);
    if i == items.len() {
        proof {
            assert(s =~= Seq::<Value>::empty());
        }
        return Result::Ok(());
    }
    proof {
        assert(s[0] == items@[i as int]);
        assert(decreases_to!(items@ => items@[i as int]));
    }
    let item = &items[i];
    match serialize_value(Option::Some(DocumentKey::Int(i)), item, doc) {
        Result::Err(e) => {
            return Result::Err(e);
        },
        Result::Ok(()) => {},
    }
    let l = doc.len();
    if l > MAX_DOC_LEN {
        return Result::Err(Error::DocumentTooLarge);
    }
    proof {
        assert(s.subrange(1, s.len() as int) =~= items@.subrange(
            i as int + 1,
            items@.len() as int,
        ));
        assert(model_values(s).subrange(1, model_values(s).len() as int) =~= model_values(
            s.subrange(1, s.len() as int),
        ));
    }
    serialize_items(items, i + 1, doc)
}

/// Serializes a sequence, tuple or tuple struct: a nested array document
/// (tag `0x04`) whose keys are the decimal forms of `0, 1, 2, …`.
#[verifier::rlimit(100)]
pub fn serialize_seq<B: BytesLikeBuf>(
    key: Option<DocumentKey>,
    items: &Vec<Value>,
    output: &mut B,
) -> (r: Result<(), Error>)
    requires
        arch_headroom(),
        old(output).inv(),
        old(output).contents().len() + 0x2_0000_0000 <= usize::MAX,
    ensures
        ser_outcome(
            spec_ser_array(model_opt_key(key), model_values(items@)),
            old(output).contents(),
            *final(output),
            r,
        ),
    decreases items@, items@.len() + 1,
{
    let ghost pre = output.contents();
    match container_key(0x04, key, output) {
        Result::Err(e) => {
            return Result::Err(e);
        },
        Result::Ok(()) => {},
    }
    let mut doc = start_document(output);
    proof {
        assert(items@.subrange(0, items@.len() as int) =~= items@);
    }
    match serialize_items(items, 0, &mut doc) {
        Result::Err(e) => {
            return Result::Err(e);
        },
        Result::Ok(()) => {},
    }
    proof {
        lemma_ser_items_prefix(model_values(items@), 0, spec_placeholder());
    }
    let r = terminate_document(output, doc);
    proof {
        let h = spec_container_key(0x04, model_opt_key(key))->Ok_0;
        match spec_ser_items(model_values(items@), 0, spec_placeholder()) {
            Result::Ok(b) => {
                match spec_finish_doc(b) {
                    Result::Ok(d) => {
                        assert((pre + h) + d =~= pre + (h + d));
                    },
                    Result::Err(_) => {},
                }
            },
            Result::Err(_) => {},
        }
    }
    r
}

/// Serializes a struct or document of named fields: a nested document with
/// tag `0x03`.
#[verifier::rlimit(100)]
pub fn serialize_struct<B: BytesLikeBuf>(
    key: Option<DocumentKey>,
    fields: &Vec<Field>,
    output: &mut B,
) -> (r: Result<(), Error>)
    requires
        arch_headroom(),
        old(output).inv(),
        old(output).contents().len() + 0x2_0000_0000 <= usize::MAX,
    ensures
        ser_outcome(
            spec_ser_document(model_opt_key(key), model_fields(fields@)),
            old(output).contents(),
            *final(output),
            r,
        ),
    decreases fields@, fields@.len() + 1,
{
    let ghost pre = output.contents();
    match container_key(0x03, key, output) {
        Result::Err(e) => {
            return Result::Err(e);
        },
        Result::Ok(()) => {},
    }
    let mut doc = start_document(output);
    proof {
        assert(fields@.subrange(0, fields@.len() as int) =~= fields@);
    }
    match serialize_fields(fields, 0, &mut doc) {
        Result::Err(e) => {
            return Result::Err(e);
        },
        Result::Ok(()) => {},
    }
    proof {
        lemma_ser_fields_prefix(model_fields(fields@), spec_placeholder());
    }
    let r = terminate_document(output, doc);
    proof {
        let h = spec_container_key(0x03, model_opt_key(key))->Ok_0;
        match spec_ser_fields(model_fields(fields@), spec_placeholder()) {
            Result::Ok(b) => {
                match spec_finish_doc(b) {
                    Result::Ok(d) => {
                        assert((pre + h) + d =~= pre + (h + d));
                    },
                    Result::Err(_) => {},
                }
            },
            Result::Err(_) => {},
        }
    }
    r
}

/// Serializes a newtype enum variant: the one-field document
/// `{ variantName: value }`.
#[verifier::rlimit(100)]
pub fn serialize_newtype_variant<B: BytesLikeBuf>(
    key: Option<DocumentKey>,
    variant: &[u8],
    value: &Value,
    output: &mut B,
) -> (r: Result<(), Error>)
    requires
        arch_headroom(),
        old(output).inv(),
        old(output).contents().len() + 0x2_0000_0000 <= usize::MAX,
    ensures
        ser_outcome(
            spec_ser_newtype_variant(model_opt_key(key), variant@, model_value(*value)),
            old(output).contents(),
            *final(output),
            r,
        ),
    decreases *value, 1int,
{
    let ghost pre = output.contents();
    match container_key(0x03, key, output) {
        Result::Err(e) => {
            return Result::Err(e);
        },
        Result::Ok(()) => {},
    }
    let mut doc = start_document(output);
    match serialize_value(Option::Some(DocumentKey::Str(variant)), value, &mut doc) {
        Result::Err(e) => {
            return Result::Err(e);
        },
        Result::Ok(()) => {},
    }
    let l = doc.len();
    if l > MAX_DOC_LEN {
        return Result::Err(Error::DocumentTooLarge);
    }
    proof {
        assert(doc.contents().subrange(0, 4) =~= spec_placeholder());
    }
    let r = terminate_document(output, doc);
    proof {
        let h = spec_container_key(0x03, model_opt_key(key))->Ok_0;
        match spec_ser_value(Option::Some(variant@), model_value(*value)) {
            Result::Ok(b) => {
                match spec_finish_doc(spec_placeholder() + b) {
                    Result::Ok(d) => {
                        assert((pre + h) + d =~= pre + (h + d));
                    },
                    Result::Err(_) => {},
                }
            },
            Result::Err(_) => {},
        }
    }
    r
}

/// Serializes a tuple enum variant: the document
/// `{ variantName: [v0, v1, …] }`.
#[verifier::rlimit(100)]
pub fn serialize_tuple_variant<B: BytesLikeBuf>(
    key: Option<DocumentKey>,
    variant: &[u8],
    items: &Vec<Value>,
    output: &mut B,
) -> (r: Result<(), Error>)
    requires
        arch_headroom(),
        old(output).inv(),
        old(output).contents().len() + 0x2_0000_0000 <= usize::MAX,
    ensures
        ser_outcome(
            spec_ser_tuple_variant(model_opt_key(key), variant@, model_values(items@)),
            old(output).contents(),
            *final(output),
            r,
        ),
    decreases items@, items@.len() + 1,
{
    let ghost pre = output.contents();
    match container_key(0x03, key, output) {
        Result::Err(e) => {
            return Result::Err(e);
        },
        Result::Ok(()) => {},
    }
    let mut doc = start_document(output);
    match write_key(0x04, Option::Some(DocumentKey::Str(variant)), &mut doc) {
        Result::Err(e) => {
            return Result::Err(e);
        },
        Result::Ok(()) => {},
    }
    let mut arr = start_document(&mut doc);
    proof {
        assert(items@.subrange(0, items@.len() as int) =~= items@);
    }
    match serialize_items(items, 0, &mut arr) {
        Result::Err(e) => {
            return Result::Err(e);
        },
        Result::Ok(()) => {},
    }
    proof {
        lemma_ser_items_prefix(model_values(items@), 0, spec_placeholder());
    }
    match terminate_document(&mut doc, arr) {
        Result::Err(e) => {
            return Result::Err(e);
        },
        Result::Ok(()) => {},
    }
    proof {
        assert(doc.contents().subrange(0, 4) =~= spec_placeholder());
    }
    let r = terminate_document(output, doc);
    proof {
        let h = spec_container_key(0x03, model_opt_key(key))->Ok_0;
        let h2 = spec_write_key(0x04, Option::Some(variant@))->Ok_0;
        match spec_ser_items(model_values(items@), 0, spec_placeholder()) {
            Result::Ok(b) => {
                match spec_finish_doc(b) {
                    Result::Ok(inner) => {
                        assert((spec_placeholder() + h2) + inner =~= spec_placeholder() + h2
                            + inner);
                        match spec_finish_doc(spec_placeholder() + h2 + inner) {
                            Result::Ok(d) => {
                                assert((pre + h) + d =~= pre + (h + d));
                            },
                            Result::Err(_) => {},
                        }
                    },
                    Result::Err(_) => {},
                }
            },
            Result::Err(_) => {},
        }
    }
    r
}

/// Serializes a struct enum variant: the document
/// `{ variantName: { f0: …, f1: … } }`.
#[verifier::rlimit(100)]
pub fn serialize_struct_variant<B: BytesLikeBuf>(
    key: Option<DocumentKey>,
    variant: &[u8],
    fields: &Vec<Field>,
    output: &mut B,
) -> (r: Result<(), Error>)
    requires
        arch_headroom(),
        old(output).inv(),
        old(output).contents().len() + 0x2_0000_0000 <= usize::MAX,
    ensures
        ser_outcome(
            spec_ser_struct_variant(model_opt_key(key), variant@, model_fields(fields@)),
            old(output).contents(),
            *final(output),
            r,
        ),
    decreases fields@, fields@.len() + 1,
{
    let ghost pre = output.contents();
    match container_key(0x03, key, output) {
        Result::Err(e) => {
            return Result::Err(e);
        },
        Result::Ok(()) => {},
    }
    let mut doc = start_document(output);
    match write_key(0x03, Option::Some(DocumentKey::Str(variant)), &mut doc) {
        Result::Err(e) => {
            return Result::Err(e);
        },
        Result::Ok(()) => {},
    }
    let mut inner_doc = start_document(&mut doc);
    proof {
        assert(fields@.subrange(0, fields@.len() as int) =~= fields@);
    }
    match serialize_fields(fields, 0, &mut inner_doc) {
        Result::Err(e) => {
            return Result::Err(e);
        },
        Result::Ok(()) => {},
    }
    proof {
        lemma_ser_fields_prefix(model_fields(fields@), spec_placeholder());
    }
    match terminate_document(&mut doc, inner_doc) {
        Result::Err(e) => {
            return Result::Err(e);
        },
        Result::Ok(()) => {},
    }
    proof {
        assert(doc.contents().subrange(0, 4) =~= spec_placeholder());
    }
    let r = terminate_document(output, doc);
    proof {
        let h = spec_container_key(0x03, model_opt_key(key))->Ok_0;
        let h2 = spec_write_key(0x03, Option::Some(variant@))->Ok_0;
        match spec_ser_fields(model_fields(fields@), spec_placeholder()) {
            Result::Ok(b) => {
                match spec_finish_doc(b) {
                    Result::Ok(inner) => {
                        assert((spec_placeholder() + h2) + inner =~= spec_placeholder() + h2
                            + inner);
                        match spec_finish_doc(spec_placeholder() + h2 + inner) {
                            Result::Ok(d) => {
                                assert((pre + h) + d =~= pre + (h + d));
                            },
                            Result::Err(_) => {},
                        }
                    },
                    Result::Err(_) => {},
                }
            },
            Result::Err(_) => {},
        }
    }
    r
}

/// Serializes one value under an optional key: the dispatcher over every
/// shape the value-shape protocol can report.
#[verifier::rlimit(100)]
pub fn serialize_value<B: BytesLikeBuf>(key: Option<DocumentKey>, v: &Value, output: &mut B) -> (r:
    Result<(), Error>)
    requires
        arch_headroom(),
        old(output).inv(),
        old(output).contents().len() + 0x2_0000_0000 <= usize::MAX,
    ensures
        ser_outcome(
            spec_ser_value(model_opt_key(key), model_value(*v)),
            old(output).contents(),
            *final(output),
            r,
        ),
    decreases *v, 0int,
{
    match v {
        Value::Double(bits) => serialize_double(key, *bits, output),
        Value::String(s) => serialize_str(key, s.as_slice(), output),
        Value::Binary(b) => serialize_bytes(key, b.as_slice(), output),
        Value::Boolean(b) => serialize_bool(key, *b, output),
        Value::DateTime(t) => serialize_datetime(key, *t, output),
        Value::Null => serialize_none(key, output),
        Value::Int32(i) => serialize_i32(key, *i, output),
        Value::Timestamp(t) => serialize_timestamp(key, *t, output),
        Value::Int64(i) => serialize_i64(key, *i, output),
        Value::Array(items) => serialize_seq(key, items, output),
        Value::Document(fields) => serialize_struct(key, fields, output),
        Value::UnitVariant(name) => serialize_unit_variant(key, name.as_slice(), output),
        Value::NewtypeVariant(name, inner) => serialize_newtype_variant(
            key,
            name.as_slice(),
            &**inner,
            output,
        ),
        Value::TupleVariant(name, items) => serialize_tuple_variant(
            key,
            name.as_slice(),
            items,
            output,
        ),
        Value::StructVariant(name, fields) => serialize_struct_variant(
            key,
            name.as_slice(),
            fields,
            output,
        ),
        Value::Unsigned(_) => Result::Err(Error::UnsignedIntNotInSpec),
        Value::Char(_) => Result::Err(Error::UnsignedIntNotInSpec),
    }
}

/// The array counterpart of [`lemma_ser_fields_prefix`].
pub proof fn lemma_ser_items_prefix(items: Seq<ValueV>, idx: nat, acc: Seq<u8>)
    ensures
        spec_ser_items(items, idx, acc) matches Result::Ok(b) ==> b.len() >= acc.len()
            && b.subrange(0, acc.len() as int) == acc,
    decreases items,
{
    if items.len() > 0 {
        match spec_ser_value(Option::Some(dec_digits(idx)), items[0]) {
            Result::Err(_) => {}
            Result::Ok(b0) => {
                if acc.len() + b0.len() <= MAX_DOC_LEN {
                    lemma_ser_items_prefix(items.subrange(1, items.len() as int), idx + 1, acc + b0);
                    if spec_ser_items(items, idx, acc) is Ok {
                        let b = spec_ser_items(items, idx, acc)->Ok_0;
                        assert(b.subrange(0, (acc + b0).len() as int).subrange(0, acc.len() as int)
                            =~= b.subrange(0, acc.len() as int));
                        assert((acc + b0).subrange(0, acc.len() as int) =~= acc);
                    }
                }
            }
        }
    }
}

} // verus!
