//! The round-trip law: decoding the encoding of a document gives the
//! document back. Proved here for documents of scalar fields and nested
//! such documents; the keys must be UTF-8 without embedded NUL and the
//! strings UTF-8, which is what the format carries faithfully.

use vstd::prelude::*;

use crate::de::{
    is_utf8, lemma_find_nul_some, scan_cons, spec_find_nul, spec_from_bytes, spec_scan,
    spec_to_tape, sufficient_fuel, take_fields, take_value, Tape,
};
use crate::le_bytes::{
    i32_le_bytes, i64_le_bytes, le32_at, le64_at, lemma_u32_le_round_trip, lemma_u64_le_round_trip,
    u32_le_bytes, u64_le_bytes,
};
use crate::ser::{
    lemma_ser_fields_prefix, spec_encode, spec_header, spec_placeholder, spec_ser_fields,
    spec_ser_value, MAX_DOC_LEN,
};
use crate::value::{FieldV, ValueV};

verus! {

/// A key the format carries faithfully: UTF-8 with no embedded NUL.
pub open spec fn key_wf(k: Seq<u8>) -> bool {
    is_utf8(k) && forall|i: int| 0 <= i < k.len() ==> k[i] != 0
}

/// A scalar value both directions carry faithfully.
pub open spec fn scalar_wf(v: ValueV) -> bool {
    match v {
        ValueV::Double(_) => true,
        ValueV::Boolean(_) => true,
        ValueV::DateTime(_) => true,
        ValueV::Null => true,
        ValueV::Int32(_) => true,
        ValueV::Timestamp(_) => true,
        ValueV::Int64(_) => true,
        ValueV::Binary(_) => true,
        ValueV::String(s) => is_utf8(s),
        _ => false,
    }
}

/// A value both directions carry faithfully: a scalar, or a document of
/// such values under well-formed keys. Arrays and variant forms are not
/// included: an array's decimal index keys are discarded by sequence-shape
/// consumption, and a variant's wrapper reads back as a plain document
/// unless the consumer's declared kind drives the enum protocol.
pub open spec fn value_rt_wf(v: ValueV) -> bool
    decreases v,
{
    match v {
        ValueV::Document(fields) => fields_rt_wf(fields),
        _ => scalar_wf(v),
    }
}

/// Fields both directions carry faithfully.
pub open spec fn fields_rt_wf(fields: Seq<FieldV>) -> bool
    decreases fields,
{
    forall|i: int|
        0 <= i < fields.len() ==> key_wf(#[trigger] fields[i].key) && value_rt_wf(
            fields[i].value,
        )
}

/// The tape entry the scanner emits for a scalar element whose payload
/// begins at `p`.
pub open spec fn scalar_entry(v: ValueV, p: int) -> Tape {
    match v {
        ValueV::Double(bits) => Tape::Double { bits },
        ValueV::String(s) => Tape::String { start: (p + 4) as usize, len: s.len() as usize },
        ValueV::Binary(b) => Tape::Binary {
            start: (p + 5) as usize,
            len: b.len() as usize,
            subtype: 0,
        },
        ValueV::Boolean(x) => Tape::Boolean { value: x },
        ValueV::DateTime(t) => Tape::UtcDateTime { value: t },
        ValueV::Null => Tape::Null,
        ValueV::Int32(i) => Tape::I32 { value: i },
        ValueV::Timestamp(t) => Tape::Timestamp { value: t },
        ValueV::Int64(i) => Tape::I64 { value: i },
        _ => Tape::Null,
    }
}

proof fn lemma_i32_cast_round(i: i32)
    ensures
        ((i as u32) as i32) == i,
{
    assert(((i as u32) as i32) == i) by (bit_vector);
}

proof fn lemma_i64_cast_round(i: i64)
    ensures
        ((i as u64) as i64) == i,
{
    assert(((i as u64) as i64) == i) by (bit_vector);
}

/// Scanning one element's bytes: the tag, the NUL-terminated key, and the
/// payload bytes all read back as written.
proof fn lemma_scan_elem_header(k: Seq<u8>, tag: u8, body: Seq<u8>, data: Seq<u8>, pos: int, end: int)
    requires
        key_wf(k),
        tag != 0,
        0 <= pos,
        pos + spec_header(tag, k).len() + body.len() <= end <= data.len(),
        data.subrange(pos, pos + spec_header(tag, k).len() + body.len()) == spec_header(tag, k)
            + body,
    ensures
        data[pos] == tag,
        spec_find_nul(data, pos + 1, end) == Option::Some(pos + 1 + k.len()),
        data.subrange(pos + 1, pos + 1 + k.len()) == k,
        is_utf8(data.subrange(pos + 1, pos + 1 + k.len())),
        forall|j: int| 0 <= j < body.len() ==> #[trigger] data[pos + 2 + k.len() + j] == body[j],
{
    let b = spec_header(tag, k) + body;
    let m = b.len() as int;
    let klen = k.len() as int;
    let kend = pos + 1 + klen;
    assert forall|j: int| 0 <= j < m implies data[pos + j] == b[j] by {
        assert(b[j] == data.subrange(pos, pos + m)[j]);
    }
    assert(data[pos] == b[0]);
    assert forall|j: int| 0 <= j < klen implies data[pos + 1 + j] == k[j] by {
        assert(b[1 + j] == spec_header(tag, k)[1 + j]);
        assert(data[pos + (1 + j)] == b[1 + j]);
    }
    assert forall|j: int| pos + 1 <= j < kend implies data[j] != 0 by {
        assert(data[pos + 1 + (j - pos - 1)] == k[j - pos - 1]);
    }
    assert(data[kend] == 0) by {
        assert(b[1 + klen] == spec_header(tag, k)[1 + klen]);
        assert(data[pos + (1 + klen)] == b[1 + klen]);
    }
    lemma_find_nul_some(data, pos + 1, end, kend);
    assert(data.subrange(pos + 1, kend) =~= k);
    assert forall|j: int| 0 <= j < body.len() implies #[trigger] data[pos + 2 + k.len() + j]
        == body[j] by {
        assert(b[2 + klen + j] == body[j]);
        assert(data[pos + (2 + klen + j)] == b[2 + klen + j]);
    }
}

/// Reading back four little-endian bytes laid down in `data` gives the value
/// they encode.
proof fn lemma_le32_of_bytes(data: Seq<u8>, p: int, x: u32)
    requires
        forall|j: int| 0 <= j < 4 ==> data[p + j] == #[trigger] u32_le_bytes(x)[j],
    ensures
        le32_at(data, p) == x,
{
    lemma_u32_le_round_trip(x);
    assert(data[p + 0] == u32_le_bytes(x)[0]);
    assert(data[p + 1] == u32_le_bytes(x)[1]);
    assert(data[p + 2] == u32_le_bytes(x)[2]);
    assert(data[p + 3] == u32_le_bytes(x)[3]);
    assert(le32_at(u32_le_bytes(x), 0) == x);
}

#[verifier::rlimit(100)]
proof fn lemma_scan_elem_int32(k: Seq<u8>, i: i32, v: ValueV, data: Seq<u8>, pos: int, end: int)
    requires
        key_wf(k),
        scalar_wf(v),
        v == ValueV::Int32(i),
        spec_ser_value(Option::Some(k), v) is Ok,
        0 <= pos,
        pos + spec_ser_value(Option::Some(k), v)->Ok_0.len() <= end <= data.len(),
        data.subrange(pos, pos + spec_ser_value(Option::Some(k), v)->Ok_0.len())
            == spec_ser_value(Option::Some(k), v)->Ok_0,
    ensures
        spec_scan(data, pos, end) == scan_cons(
            seq![
                Tape::Key { start: (pos + 1) as usize, len: k.len() as usize },
                scalar_entry(v, pos + 2 + k.len()),
            ],
            spec_scan(data, pos + spec_ser_value(Option::Some(k), v)->Ok_0.len(), end),
        ),
        data.subrange(pos + 1, pos + 1 + k.len()) == k,
{
    let b = spec_ser_value(Option::Some(k), v)->Ok_0;
    let m = b.len() as int;
    let klen = k.len() as int;
    let kend = pos + 1 + klen;
    let p = kend + 1;
    assert(k.len() <= MAX_DOC_LEN);
    lemma_scan_elem_header(k, 0x10, i32_le_bytes(i), data, pos, end);
    assert forall|j: int| 0 <= j < 4 implies data[p + j] == #[trigger] i32_le_bytes(i)[j] by {
        assert(data[pos + 2 + k.len() + j] == i32_le_bytes(i)[j]);
    }
    lemma_u32_le_round_trip(i as u32);
    assert(le32_at(data, p) == le32_at(u32_le_bytes(i as u32), 0));
    lemma_i32_cast_round(i);
    assert(p + 4 == pos + m);
}

#[verifier::rlimit(100)]
proof fn lemma_scan_elem_int64(k: Seq<u8>, i: i64, v: ValueV, data: Seq<u8>, pos: int, end: int)
    requires
        key_wf(k),
        scalar_wf(v),
        v == ValueV::Int64(i),
        spec_ser_value(Option::Some(k), v) is Ok,
        0 <= pos,
        pos + spec_ser_value(Option::Some(k), v)->Ok_0.len() <= end <= data.len(),
        data.subrange(pos, pos + spec_ser_value(Option::Some(k), v)->Ok_0.len())
            == spec_ser_value(Option::Some(k), v)->Ok_0,
    ensures
        spec_scan(data, pos, end) == scan_cons(
            seq![
                Tape::Key { start: (pos + 1) as usize, len: k.len() as usize },
                scalar_entry(v, pos + 2 + k.len()),
            ],
            spec_scan(data, pos + spec_ser_value(Option::Some(k), v)->Ok_0.len(), end),
        ),
        data.subrange(pos + 1, pos + 1 + k.len()) == k,
{
    let b = spec_ser_value(Option::Some(k), v)->Ok_0;
    let m = b.len() as int;
    let klen = k.len() as int;
    let kend = pos + 1 + klen;
    let p = kend + 1;
    assert(k.len() <= MAX_DOC_LEN);
    lemma_scan_elem_header(k, 0x12, i64_le_bytes(i), data, pos, end);
    assert forall|j: int| 0 <= j < 8 implies data[p + j] == #[trigger] i64_le_bytes(i)[j] by {
        assert(data[pos + 2 + k.len() + j] == i64_le_bytes(i)[j]);
    }
    lemma_u64_le_round_trip(i as u64);
    assert(le64_at(data, p) == le64_at(u64_le_bytes(i as u64), 0));
    lemma_i64_cast_round(i);
    assert(p + 8 == pos + m);
}

#[verifier::rlimit(100)]
proof fn lemma_scan_elem_datetime(k: Seq<u8>, i: i64, v: ValueV, data: Seq<u8>, pos: int, end: int)
    requires
        key_wf(k),
        scalar_wf(v),
        v == ValueV::DateTime(i),
        spec_ser_value(Option::Some(k), v) is Ok,
        0 <= pos,
        pos + spec_ser_value(Option::Some(k), v)->Ok_0.len() <= end <= data.len(),
        data.subrange(pos, pos + spec_ser_value(Option::Some(k), v)->Ok_0.len())
            == spec_ser_value(Option::Some(k), v)->Ok_0,
    ensures
        spec_scan(data, pos, end) == scan_cons(
            seq![
                Tape::Key { start: (pos + 1) as usize, len: k.len() as usize },
                scalar_entry(v, pos + 2 + k.len()),
            ],
            spec_scan(data, pos + spec_ser_value(Option::Some(k), v)->Ok_0.len(), end),
        ),
        data.subrange(pos + 1, pos + 1 + k.len()) == k,
{
    let b = spec_ser_value(Option::Some(k), v)->Ok_0;
    let m = b.len() as int;
    let klen = k.len() as int;
    let kend = pos + 1 + klen;
    let p = kend + 1;
    assert(k.len() <= MAX_DOC_LEN);
    lemma_scan_elem_header(k, 0x09, i64_le_bytes(i), data, pos, end);
    assert forall|j: int| 0 <= j < 8 implies data[p + j] == #[trigger] i64_le_bytes(i)[j] by {
        assert(data[pos + 2 + k.len() + j] == i64_le_bytes(i)[j]);
    }
    lemma_u64_le_round_trip(i as u64);
    assert(le64_at(data, p) == le64_at(u64_le_bytes(i as u64), 0));
    lemma_i64_cast_round(i);
    assert(p + 8 == pos + m);
}

#[verifier::rlimit(100)]
proof fn lemma_scan_elem_timestamp(k: Seq<u8>, i: u64, v: ValueV, data: Seq<u8>, pos: int, end: int)
    requires
        key_wf(k),
        scalar_wf(v),
        v == ValueV::Timestamp(i),
        spec_ser_value(Option::Some(k), v) is Ok,
        0 <= pos,
        pos + spec_ser_value(Option::Some(k), v)->Ok_0.len() <= end <= data.len(),
        data.subrange(pos, pos + spec_ser_value(Option::Some(k), v)->Ok_0.len())
            == spec_ser_value(Option::Some(k), v)->Ok_0,
    ensures
        spec_scan(data, pos, end) == scan_cons(
            seq![
                Tape::Key { start: (pos + 1) as usize, len: k.len() as usize },
                scalar_entry(v, pos + 2 + k.len()),
            ],
            spec_scan(data, pos + spec_ser_value(Option::Some(k), v)->Ok_0.len(), end),
        ),
        data.subrange(pos + 1, pos + 1 + k.len()) == k,
{
    let b = spec_ser_value(Option::Some(k), v)->Ok_0;
    let m = b.len() as int;
    let klen = k.len() as int;
    let kend = pos + 1 + klen;
    let p = kend + 1;
    assert(k.len() <= MAX_DOC_LEN);
    lemma_scan_elem_header(k, 0x11, u64_le_bytes(i), data, pos, end);
    assert forall|j: int| 0 <= j < 8 implies data[p + j] == #[trigger] u64_le_bytes(i)[j] by {
        assert(data[pos + 2 + k.len() + j] == u64_le_bytes(i)[j]);
    }
    lemma_u64_le_round_trip(i);
    assert(le64_at(data, p) == le64_at(u64_le_bytes(i), 0));
    assert(p + 8 == pos + m);
}

#[verifier::rlimit(100)]
proof fn lemma_scan_elem_double(k: Seq<u8>, i: u64, v: ValueV, data: Seq<u8>, pos: int, end: int)
    requires
        key_wf(k),
        scalar_wf(v),
        v == ValueV::Double(i),
        spec_ser_value(Option::Some(k), v) is Ok,
        0 <= pos,
        pos + spec_ser_value(Option::Some(k), v)->Ok_0.len() <= end <= data.len(),
        data.subrange(pos, pos + spec_ser_value(Option::Some(k), v)->Ok_0.len())
            == spec_ser_value(Option::Some(k), v)->Ok_0,
    ensures
        spec_scan(data, pos, end) == scan_cons(
            seq![
                Tape::Key { start: (pos + 1) as usize, len: k.len() as usize },
                scalar_entry(v, pos + 2 + k.len()),
            ],
            spec_scan(data, pos + spec_ser_value(Option::Some(k), v)->Ok_0.len(), end),
        ),
        data.subrange(pos + 1, pos + 1 + k.len()) == k,
{
    let b = spec_ser_value(Option::Some(k), v)->Ok_0;
    let m = b.len() as int;
    let klen = k.len() as int;
    let kend = pos + 1 + klen;
    let p = kend + 1;
    assert(k.len() <= MAX_DOC_LEN);
    lemma_scan_elem_header(k, 0x01, u64_le_bytes(i), data, pos, end);
    assert forall|j: int| 0 <= j < 8 implies data[p + j] == #[trigger] u64_le_bytes(i)[j] by {
        assert(data[pos + 2 + k.len() + j] == u64_le_bytes(i)[j]);
    }
    lemma_u64_le_round_trip(i);
    assert(le64_at(data, p) == le64_at(u64_le_bytes(i), 0));
    assert(p + 8 == pos + m);
}

#[verifier::rlimit(100)]
proof fn lemma_scan_elem_boolean(k: Seq<u8>, i: bool, v: ValueV, data: Seq<u8>, pos: int, end: int)
    requires
        key_wf(k),
        scalar_wf(v),
        v == ValueV::Boolean(i),
        spec_ser_value(Option::Some(k), v) is Ok,
        0 <= pos,
        pos + spec_ser_value(Option::Some(k), v)->Ok_0.len() <= end <= data.len(),
        data.subrange(pos, pos + spec_ser_value(Option::Some(k), v)->Ok_0.len())
            == spec_ser_value(Option::Some(k), v)->Ok_0,
    ensures
        spec_scan(data, pos, end) == scan_cons(
            seq![
                Tape::Key { start: (pos + 1) as usize, len: k.len() as usize },
                scalar_entry(v, pos + 2 + k.len()),
            ],
            spec_scan(data, pos + spec_ser_value(Option::Some(k), v)->Ok_0.len(), end),
        ),
        data.subrange(pos + 1, pos + 1 + k.len()) == k,
{
    let b = spec_ser_value(Option::Some(k), v)->Ok_0;
    let m = b.len() as int;
    let klen = k.len() as int;
    let kend = pos + 1 + klen;
    let p = kend + 1;
    assert(k.len() <= MAX_DOC_LEN);
    let payload: u8 = if i { 1u8 } else { 0u8 };
    lemma_scan_elem_header(k, 0x08, seq![payload], data, pos, end);
    assert(data[p] == payload) by {
        assert(data[pos + 2 + k.len() + 0] == seq![payload][0]);
    }
    assert(p + 1 == pos + m);
}

#[verifier::rlimit(100)]
proof fn lemma_scan_elem_null(k: Seq<u8>, i: bool, v: ValueV, data: Seq<u8>, pos: int, end: int)
    requires
        key_wf(k),
        scalar_wf(v),
        v == ValueV::Null,
        spec_ser_value(Option::Some(k), v) is Ok,
        0 <= pos,
        pos + spec_ser_value(Option::Some(k), v)->Ok_0.len() <= end <= data.len(),
        data.subrange(pos, pos + spec_ser_value(Option::Some(k), v)->Ok_0.len())
            == spec_ser_value(Option::Some(k), v)->Ok_0,
    ensures
        spec_scan(data, pos, end) == scan_cons(
            seq![
                Tape::Key { start: (pos + 1) as usize, len: k.len() as usize },
                scalar_entry(v, pos + 2 + k.len()),
            ],
            spec_scan(data, pos + spec_ser_value(Option::Some(k), v)->Ok_0.len(), end),
        ),
        data.subrange(pos + 1, pos + 1 + k.len()) == k,
{
    let b = spec_ser_value(Option::Some(k), v)->Ok_0;
    let m = b.len() as int;
    let klen = k.len() as int;
    let kend = pos + 1 + klen;
    let p = kend + 1;
    assert(k.len() <= MAX_DOC_LEN);
    lemma_scan_elem_header(k, 0x0a, Seq::empty(), data, pos, end);
    assert(p == pos + m);
}

/// The conclusion step for a string element, from the facts alone.
#[verifier::rlimit(100)]
proof fn lemma_scan_string_conclude(
    i: Seq<u8>,
    data: Seq<u8>,
    pos: int,
    end: int,
    klen: int,
    m: int,
)
    requires
        0 <= pos,
        klen >= 0,
        pos + m <= end <= data.len(),
        data[pos] == 0x02,
        spec_find_nul(data, pos + 1, end) == Option::Some(pos + 1 + klen),
        pos + 1 + klen < end,
        is_utf8(data.subrange(pos + 1, pos + 1 + klen)),
        le32_at(data, pos + 2 + klen) == i.len() + 1,
        i.len() + 1 <= MAX_DOC_LEN,
        is_utf8(data.subrange(pos + 2 + klen + 4, pos + 2 + klen + 4 + i.len() as int)),
        pos + 2 + klen + 4 + i.len() + 1 == pos + m,
    ensures
        spec_scan(data, pos, end) == scan_cons(
            seq![
                Tape::Key { start: (pos + 1) as usize, len: klen as usize },
                Tape::String { start: (pos + 2 + klen + 4) as usize, len: i.len() as usize },
            ],
            spec_scan(data, pos + m, end),
        ),
{
    let p = pos + 2 + klen;
    let sl = i.len() as int + 1;
    assert(p + 4 + sl - 1 == p + 4 + i.len());
    assert(sl >= 1 && p + 4 + sl <= end && p + 4 <= end);
}

/// The facts of one string element's bytes: the scanner's guards all pass
/// and the content reads back as written.
#[verifier::rlimit(100)]
proof fn lemma_scan_elem_string(k: Seq<u8>, i: Seq<u8>, v: ValueV, data: Seq<u8>, pos: int, end: int)
    requires
        key_wf(k),
        scalar_wf(v),
        v == ValueV::String(i),
        spec_ser_value(Option::Some(k), v) is Ok,
        0 <= pos,
        pos + spec_ser_value(Option::Some(k), v)->Ok_0.len() <= end <= data.len(),
        data.subrange(pos, pos + spec_ser_value(Option::Some(k), v)->Ok_0.len())
            == spec_ser_value(Option::Some(k), v)->Ok_0,
    ensures
        data[pos] == 0x02,
        spec_find_nul(data, pos + 1, end) == Option::Some(pos + 1 + k.len()),
        pos + 1 + k.len() < end,
        is_utf8(data.subrange(pos + 1, pos + 1 + k.len())),
        le32_at(data, pos + 2 + k.len()) == i.len() + 1,
        i.len() + 1 <= MAX_DOC_LEN,
        is_utf8(data.subrange(pos + 2 + k.len() + 4, pos + 2 + k.len() + 4 + i.len() as int)),
        pos + 2 + k.len() + 4 + i.len() + 1 == pos + spec_ser_value(
            Option::Some(k),
            v,
        )->Ok_0.len(),
        data.subrange(pos + 1, pos + 1 + k.len()) == k,
        data.subrange(pos + 2 + k.len() + 4, pos + 2 + k.len() + 4 + i.len() as int) == i,
{
    let b = spec_ser_value(Option::Some(k), v)->Ok_0;
    let m = b.len() as int;
    let klen = k.len() as int;
    let kend = pos + 1 + klen;
    let p = kend + 1;
    assert(k.len() <= MAX_DOC_LEN);
    let sl = i.len() as int + 1;
    let body = u32_le_bytes((i.len() + 1) as u32) + i + seq![0u8];
    assert(b =~= spec_header(0x02, k) + body);
    lemma_scan_elem_header(k, 0x02, body, data, pos, end);
    assert forall|j: int| 0 <= j < 4 implies data[p + j] == #[trigger] u32_le_bytes(
        (i.len() + 1) as u32,
    )[j] by {
        assert(data[pos + 2 + k.len() + j] == body[j]);
        assert(body[j] == u32_le_bytes((i.len() + 1) as u32)[j]);
    }
    lemma_le32_of_bytes(data, p, (i.len() + 1) as u32);
    assert(i.len() + 1 <= MAX_DOC_LEN);
    assert((i.len() + 1) as u32 == i.len() + 1);
    assert(le32_at(data, p) == sl);
    assert(data.subrange(p + 4, p + 4 + i.len() as int) =~= i) by {
        assert forall|j: int| 0 <= j < i.len() implies data[p + 4 + j] == i[j] by {
            assert(data[pos + 2 + k.len() + (4 + j)] == body[4 + j]);
            assert(body[4 + j] == i[j]);
        }
    }
    assert(p + 4 + sl == pos + m);
    assert(kend < end);
}

/// The conclusion step for a binary element, from the facts alone.
#[verifier::rlimit(100)]
proof fn lemma_scan_binary_conclude(
    i: Seq<u8>,
    data: Seq<u8>,
    pos: int,
    end: int,
    klen: int,
    m: int,
)
    requires
        0 <= pos,
        klen >= 0,
        pos + m <= end <= data.len(),
        data[pos] == 0x05,
        spec_find_nul(data, pos + 1, end) == Option::Some(pos + 1 + klen),
        pos + 1 + klen < end,
        is_utf8(data.subrange(pos + 1, pos + 1 + klen)),
        le32_at(data, pos + 2 + klen) == i.len(),
        i.len() <= MAX_DOC_LEN,
        data[pos + 2 + klen + 4] == 0,
        pos + 2 + klen + 5 + i.len() == pos + m,
    ensures
        spec_scan(data, pos, end) == scan_cons(
            seq![
                Tape::Key { start: (pos + 1) as usize, len: klen as usize },
                Tape::Binary {
                    start: (pos + 2 + klen + 5) as usize,
                    len: i.len() as usize,
                    subtype: 0,
                },
            ],
            spec_scan(data, pos + m, end),
        ),
{
    let p = pos + 2 + klen;
    let bl = i.len() as int;
    assert(p + 4 <= end && p + 5 + bl <= end);
}

/// The facts of one binary element's bytes: the scanner's guards all pass
/// and the content reads back as written.
#[verifier::rlimit(100)]
proof fn lemma_scan_elem_binary(k: Seq<u8>, i: Seq<u8>, v: ValueV, data: Seq<u8>, pos: int, end: int)
    requires
        key_wf(k),
        scalar_wf(v),
        v == ValueV::Binary(i),
        spec_ser_value(Option::Some(k), v) is Ok,
        0 <= pos,
        pos + spec_ser_value(Option::Some(k), v)->Ok_0.len() <= end <= data.len(),
        data.subrange(pos, pos + spec_ser_value(Option::Some(k), v)->Ok_0.len())
            == spec_ser_value(Option::Some(k), v)->Ok_0,
    ensures
        data[pos] == 0x05,
        spec_find_nul(data, pos + 1, end) == Option::Some(pos + 1 + k.len()),
        pos + 1 + k.len() < end,
        is_utf8(data.subrange(pos + 1, pos + 1 + k.len())),
        le32_at(data, pos + 2 + k.len()) == i.len(),
        i.len() <= MAX_DOC_LEN,
        data[pos + 2 + k.len() + 4] == 0,
        pos + 2 + k.len() + 5 + i.len() == pos + spec_ser_value(
            Option::Some(k),
            v,
        )->Ok_0.len(),
        data.subrange(pos + 1, pos + 1 + k.len()) == k,
        data.subrange(pos + 2 + k.len() + 5, pos + 2 + k.len() + 5 + i.len() as int) == i,
{
    let b = spec_ser_value(Option::Some(k), v)->Ok_0;
    let m = b.len() as int;
    let klen = k.len() as int;
    let kend = pos + 1 + klen;
    let p = kend + 1;
    assert(k.len() <= MAX_DOC_LEN);
    let bl = i.len() as int;
    let body = u32_le_bytes(i.len() as u32) + seq![0u8] + i;
    assert(b =~= spec_header(0x05, k) + body);
    lemma_scan_elem_header(k, 0x05, body, data, pos, end);
    assert forall|j: int| 0 <= j < 4 implies data[p + j] == #[trigger] u32_le_bytes(
        i.len() as u32,
    )[j] by {
        assert(data[pos + 2 + k.len() + j] == body[j]);
        assert(body[j] == u32_le_bytes(i.len() as u32)[j]);
    }
    lemma_le32_of_bytes(data, p, i.len() as u32);
    assert(i.len() <= MAX_DOC_LEN);
    assert(i.len() as u32 == i.len());
    assert(le32_at(data, p) == bl);
    assert(data[p + 4] == 0) by {
        assert(data[pos + 2 + k.len() + 4] == body[4]);
        assert(body[4] == 0u8);
    }
    assert(p + 5 + bl == pos + m);
    assert(kend < end);
    assert(data.subrange(p + 5, p + 5 + bl) =~= i) by {
        assert forall|j: int| 0 <= j < i.len() implies data[p + 5 + j] == i[j] by {
            assert(data[pos + 2 + k.len() + (5 + j)] == body[5 + j]);
            assert(body[5 + j] == i[j]);
        }
    }
}

/// Scanning the bytes of one scalar element at `pos` emits its key entry and
/// its value entry, then continues right after the element.
proof fn lemma_scan_scalar_elem(k: Seq<u8>, v: ValueV, data: Seq<u8>, pos: int, end: int)
    requires
        key_wf(k),
        scalar_wf(v),
        spec_ser_value(Option::Some(k), v) is Ok,
        0 <= pos,
        pos + spec_ser_value(Option::Some(k), v)->Ok_0.len() <= end <= data.len(),
        data.subrange(pos, pos + spec_ser_value(Option::Some(k), v)->Ok_0.len())
            == spec_ser_value(Option::Some(k), v)->Ok_0,
    ensures
        spec_scan(data, pos, end) == scan_cons(
            seq![
                Tape::Key { start: (pos + 1) as usize, len: k.len() as usize },
                scalar_entry(v, pos + 2 + k.len()),
            ],
            spec_scan(data, pos + spec_ser_value(Option::Some(k), v)->Ok_0.len(), end),
        ),
        data.subrange(pos + 1, pos + 1 + k.len()) == k,
{
    match v {
        ValueV::Int32(i) => lemma_scan_elem_int32(k, i, v, data, pos, end),
        ValueV::Int64(i) => lemma_scan_elem_int64(k, i, v, data, pos, end),
        ValueV::DateTime(i) => lemma_scan_elem_datetime(k, i, v, data, pos, end),
        ValueV::Timestamp(i) => lemma_scan_elem_timestamp(k, i, v, data, pos, end),
        ValueV::Double(i) => lemma_scan_elem_double(k, i, v, data, pos, end),
        ValueV::Boolean(i) => lemma_scan_elem_boolean(k, i, v, data, pos, end),
        ValueV::Null => lemma_scan_elem_null(k, false, v, data, pos, end),
        ValueV::String(i) => {
            lemma_scan_elem_string(k, i, v, data, pos, end);
            lemma_scan_string_conclude(
                i,
                data,
                pos,
                end,
                k.len() as int,
                spec_ser_value(Option::Some(k), v)->Ok_0.len() as int,
            );
        },
        ValueV::Binary(i) => {
            lemma_scan_elem_binary(k, i, v, data, pos, end);
            lemma_scan_binary_conclude(
                i,
                data,
                pos,
                end,
                k.len() as int,
                spec_ser_value(Option::Some(k), v)->Ok_0.len() as int,
            );
        },
        _ => {
            assert(false);
        },
    }
}

/// The cursor takes back from a scalar element's tape entry exactly the
/// value that was serialized.
#[verifier::rlimit(100)]
proof fn lemma_take_scalar(
    k: Seq<u8>,
    v: ValueV,
    data: Seq<u8>,
    pos: int,
    rest: Seq<Tape>,
    fuel: nat,
)
    requires
        key_wf(k),
        scalar_wf(v),
        fuel >= 1,
        spec_ser_value(Option::Some(k), v) is Ok,
        0 <= pos,
        pos + spec_ser_value(Option::Some(k), v)->Ok_0.len() <= data.len(),
        data.len() <= usize::MAX,
        data.subrange(pos, pos + spec_ser_value(Option::Some(k), v)->Ok_0.len())
            == spec_ser_value(Option::Some(k), v)->Ok_0,
    ensures
        take_value(seq![scalar_entry(v, pos + 2 + k.len())] + rest, data, fuel) == Option::Some(
            Result::<(ValueV, Seq<Tape>), crate::de::Error>::Ok((v, rest)),
        ),
{
    let t = seq![scalar_entry(v, pos + 2 + k.len())] + rest;
    let p = pos + 2 + k.len();
    assert(t[0] == scalar_entry(v, pos + 2 + k.len()));
    assert(t.drop_first() =~= rest);
    match v {
        ValueV::String(i) => {
            lemma_scan_elem_string(k, i, v, data, pos, data.len() as int);
            assert((p + 4) as usize == p + 4);
            assert((p + 4) as usize + i.len() as usize == p + 4 + i.len());
            assert(data.subrange(p + 4, p + 4 + i.len() as int) == i);
        },
        ValueV::Binary(i) => {
            lemma_scan_elem_binary(k, i, v, data, pos, data.len() as int);
            assert((p + 5) as usize == p + 5);
            assert((p + 5) as usize + i.len() as usize == p + 5 + i.len());
            assert(data.subrange(p + 5, p + 5 + i.len() as int) == i);
        },
        _ => {},
    }
}

/// Peels the first field off a successful serializer run: the field's bytes
/// sit at `pos`, and the remaining fields' bytes follow them.
#[verifier::rlimit(100)]
proof fn lemma_peel_layout(fields: Seq<FieldV>, acc: Seq<u8>, data: Seq<u8>, pos: int, end: int)
    requires
        fields.len() > 0,
        spec_ser_fields(fields, acc) is Ok,
        spec_ser_fields(fields, acc)->Ok_0.len() >= acc.len(),
        0 <= pos,
        data.len() <= usize::MAX,
        pos + (spec_ser_fields(fields, acc)->Ok_0.len() - acc.len()) + 1 <= end <= data.len(),
        data.subrange(pos, pos + (spec_ser_fields(fields, acc)->Ok_0.len() - acc.len()) + 1)
            == spec_ser_fields(fields, acc)->Ok_0.subrange(
            acc.len() as int,
            spec_ser_fields(fields, acc)->Ok_0.len() as int,
        ) + seq![0u8],
    ensures
        spec_ser_value(Option::Some(fields[0].key), fields[0].value) is Ok,
        ({
            let res = spec_ser_fields(fields, acc)->Ok_0;
            let b0 = spec_ser_value(Option::Some(fields[0].key), fields[0].value)->Ok_0;
            &&& spec_ser_fields(fields.subrange(1, fields.len() as int), acc + b0)
                == spec_ser_fields(fields, acc)
            &&& res.len() >= acc.len() + b0.len()
            &&& data.subrange(pos, pos + b0.len() as int) == b0
            &&& data.subrange(pos + b0.len(), pos + (res.len() - acc.len()) + 1) == res.subrange(
                (acc + b0).len() as int,
                res.len() as int,
            ) + seq![0u8]
        }),
{
    let res = spec_ser_fields(fields, acc)->Ok_0;
    let n = res.len() - acc.len();
    let elems = res.subrange(acc.len() as int, res.len() as int);
    assert forall|j: int| 0 <= j < n + 1 implies data[pos + j] == (elems + seq![0u8])[j] by {
        assert((elems + seq![0u8])[j] == data.subrange(pos, pos + n + 1)[j]);
    }
    let rest = fields.subrange(1, fields.len() as int);
    let b0 = spec_ser_value(Option::Some(fields[0].key), fields[0].value)->Ok_0;
    assert(spec_ser_fields(rest, acc + b0) == spec_ser_fields(fields, acc));
    lemma_ser_fields_prefix(rest, acc + b0);
    assert(res.len() >= acc.len() + b0.len());
    assert(res.subrange(0, (acc + b0).len() as int) == acc + b0);
    assert forall|j: int| 0 <= j < b0.len() implies elems[j] == b0[j] by {
        assert(res.subrange(0, (acc + b0).len() as int)[acc.len() + j] == (acc + b0)[acc.len()
            + j]);
        assert(res[acc.len() + j] == b0[j]);
    }
    assert(data.subrange(pos, pos + b0.len() as int) =~= b0) by {
        assert forall|j: int| 0 <= j < b0.len() implies data[pos + j] == b0[j] by {
            assert(data[pos + j] == (elems + seq![0u8])[j]);
        }
    }
    let pos2 = pos + b0.len() as int;
    let n2 = res.len() - (acc + b0).len();
    assert(data.subrange(pos2, pos2 + n2 + 1) =~= res.subrange(
        (acc + b0).len() as int,
        res.len() as int,
    ) + seq![0u8]) by {
        assert forall|j: int|
            0 <= j < n2 + 1 implies data[pos2 + j] == (res.subrange(
            (acc + b0).len() as int,
            res.len() as int,
        ) + seq![0u8])[j] by {
            assert(data[pos + (b0.len() + j)] == (elems + seq![0u8])[b0.len() + j]);
        }
    }
}

/// One element of a document body: scanning its bytes emits its key entry
/// and its value entries, and taking those value entries back — under any
/// continuation — gives the value that was serialized. Mutually inductive
/// with `lemma_round_trip_fields` through nested documents.
#[verifier::rlimit(100)]
#[verifier::spinoff_prover]
proof fn lemma_round_trip_elem(k: Seq<u8>, v: ValueV, data: Seq<u8>, pos: int, end: int)
    requires
        key_wf(k),
        value_rt_wf(v),
        spec_ser_value(Option::Some(k), v) is Ok,
        0 <= pos,
        data.len() <= usize::MAX,
        pos + spec_ser_value(Option::Some(k), v)->Ok_0.len() <= end <= data.len(),
        data.subrange(pos, pos + spec_ser_value(Option::Some(k), v)->Ok_0.len())
            == spec_ser_value(Option::Some(k), v)->Ok_0,
    ensures
        data.subrange(pos + 1, pos + 1 + k.len()) == k,
        ({
            let m = spec_ser_value(Option::Some(k), v)->Ok_0.len() as int;
            match spec_scan(data, pos + m, end) {
                Result::Err(e) => spec_scan(data, pos, end) == Result::<
                    Seq<Tape>,
                    crate::de::Error,
                >::Err(e),
                Result::Ok(tr) => exists|tval: Seq<Tape>|
                    spec_scan(data, pos, end) == Result::<Seq<Tape>, crate::de::Error>::Ok(
                        #[trigger] ((seq![
                            Tape::Key { start: (pos + 1) as usize, len: k.len() as usize },
                        ] + tval) + tr),
                    ) && (forall|rest: Seq<Tape>, fuel: nat|
                        fuel >= 2 * (tval + rest).len() + 2 ==> #[trigger] take_value(
                            tval + rest,
                            data,
                            fuel,
                        ) == Option::Some(
                            Result::<(ValueV, Seq<Tape>), crate::de::Error>::Ok((v, rest)),
                        )),
            }
        }),
    decreases v, 0int,
{
    let b = spec_ser_value(Option::Some(k), v)->Ok_0;
    let m = b.len() as int;
    let key_entry = Tape::Key { start: (pos + 1) as usize, len: k.len() as usize };
    match v {
        ValueV::Document(inner) => {
            assert(fields_rt_wf(inner));
            let h = spec_header(0x03, k);
            assert(spec_ser_fields(inner, spec_placeholder()) is Ok);
            let docbuf = spec_ser_fields(inner, spec_placeholder())->Ok_0;
            lemma_ser_fields_prefix(inner, spec_placeholder());
            assert(docbuf.len() >= 4);
            let total = docbuf.len() as int + 1;
            assert(total <= MAX_DOC_LEN);
            let d = u32_le_bytes((docbuf.len() + 1) as u32) + docbuf.subrange(
                4,
                docbuf.len() as int,
            ) + seq![0u8];
            assert(b =~= h + d);
            lemma_scan_elem_header(k, 0x03, d, data, pos, end);
            let p = pos + 2 + k.len() as int;
            let n_in = docbuf.len() as int - 4;
            assert(p + 4 + n_in + 1 == pos + m);
            assert(data.subrange(p + 4, p + 4 + n_in + 1) =~= docbuf.subrange(
                4,
                docbuf.len() as int,
            ) + seq![0u8]) by {
                assert forall|j: int|
                    0 <= j < n_in + 1 implies data[p + 4 + j] == (docbuf.subrange(
                    4,
                    docbuf.len() as int,
                ) + seq![0u8])[j] by {
                    assert(data[pos + 2 + k.len() + (4 + j)] == d[4 + j]);
                }
            }
            assert(docbuf.subrange(4, docbuf.len() as int) =~= docbuf.subrange(
                spec_placeholder().len() as int,
                docbuf.len() as int,
            ));
            lemma_round_trip_fields(inner, spec_placeholder(), data, p + 4, end);
            match spec_scan(data, pos + m, end) {
                Result::Err(e) => {
                    assert(spec_scan(data, p + 4, end) == Result::<
                        Seq<Tape>,
                        crate::de::Error,
                    >::Err(e));
                },
                Result::Ok(tr) => {
                    let t1in = choose|t1in: Seq<Tape>|
                        spec_scan(data, p + 4, end) == Result::<
                            Seq<Tape>,
                            crate::de::Error,
                        >::Ok(#[trigger] (t1in + tr)) && (forall|rest: Seq<Tape>, fuel: nat|
                            fuel >= 2 * (t1in + rest).len() + 2 ==> #[trigger] take_fields(
                                t1in + rest,
                                data,
                                fuel,
                            ) == Option::Some(
                                Result::<(Seq<FieldV>, Seq<Tape>), crate::de::Error>::Ok(
                                    (inner, rest),
                                ),
                            ));
                    let tval = seq![Tape::DocumentStart] + t1in;
                    assert(seq![key_entry, Tape::DocumentStart] + (t1in + tr) =~= (seq![
                        key_entry,
                    ] + tval) + tr);
                    assert(spec_scan(data, pos, end) == Result::<
                        Seq<Tape>,
                        crate::de::Error,
                    >::Ok((seq![key_entry] + tval) + tr));
                    assert forall|rest: Seq<Tape>, fuel: nat|
                        fuel >= 2 * (tval + rest).len() + 2 implies #[trigger] take_value(
                        tval + rest,
                        data,
                        fuel,
                    ) == Option::Some(
                        Result::<(ValueV, Seq<Tape>), crate::de::Error>::Ok((v, rest)),
                    ) by {
                        assert((tval + rest)[0] == Tape::DocumentStart);
                        assert((tval + rest).drop_first() =~= t1in + rest);
                        assert(take_fields(t1in + rest, data, (fuel - 1) as nat)
                            == Option::Some(
                            Result::<(Seq<FieldV>, Seq<Tape>), crate::de::Error>::Ok(
                                (inner, rest),
                            ),
                        ));
                    }
                },
            }
        },
        _ => {
            assert(scalar_wf(v));
            lemma_scan_scalar_elem(k, v, data, pos, end);
            let tval = seq![scalar_entry(v, pos + 2 + k.len())];
            match spec_scan(data, pos + m, end) {
                Result::Err(_) => {},
                Result::Ok(tr) => {
                    assert(seq![key_entry, scalar_entry(v, pos + 2 + k.len())] + tr =~= (seq![
                        key_entry,
                    ] + tval) + tr);
                    assert(spec_scan(data, pos, end) == Result::<
                        Seq<Tape>,
                        crate::de::Error,
                    >::Ok((seq![key_entry] + tval) + tr));
                    assert forall|rest: Seq<Tape>, fuel: nat|
                        fuel >= 2 * (tval + rest).len() + 2 implies #[trigger] take_value(
                        tval + rest,
                        data,
                        fuel,
                    ) == Option::Some(
                        Result::<(ValueV, Seq<Tape>), crate::de::Error>::Ok((v, rest)),
                    ) by {
                        lemma_take_scalar(k, v, data, pos, rest, fuel);
                    }
                },
            }
        },
    }
}

/// Scanning the encoded elements of a document body and consuming them with
/// map-shape consumption — under any continuation — gives back exactly the
/// fields that were encoded.
#[verifier::rlimit(100)]
#[verifier::spinoff_prover]
proof fn lemma_round_trip_fields(
    fields: Seq<FieldV>,
    acc: Seq<u8>,
    data: Seq<u8>,
    pos: int,
    end: int,
)
    requires
        fields_rt_wf(fields),
        spec_ser_fields(fields, acc) is Ok,
        spec_ser_fields(fields, acc)->Ok_0.len() >= acc.len(),
        0 <= pos,
        data.len() <= usize::MAX,
        pos + (spec_ser_fields(fields, acc)->Ok_0.len() - acc.len()) + 1 <= end <= data.len(),
        data.subrange(pos, pos + (spec_ser_fields(fields, acc)->Ok_0.len() - acc.len()) + 1)
            == spec_ser_fields(fields, acc)->Ok_0.subrange(
            acc.len() as int,
            spec_ser_fields(fields, acc)->Ok_0.len() as int,
        ) + seq![0u8],
    ensures
        ({
            let res = spec_ser_fields(fields, acc)->Ok_0;
            let n = res.len() - acc.len();
            match spec_scan(data, pos + n + 1, end) {
                Result::Err(e) => spec_scan(data, pos, end) == Result::<
                    Seq<Tape>,
                    crate::de::Error,
                >::Err(e),
                Result::Ok(tr) => exists|t1: Seq<Tape>|
                    spec_scan(data, pos, end) == Result::<Seq<Tape>, crate::de::Error>::Ok(
                        #[trigger] (t1 + tr),
                    ) && (forall|rest: Seq<Tape>, fuel: nat|
                        fuel >= 2 * (t1 + rest).len() + 2 ==> #[trigger] take_fields(
                            t1 + rest,
                            data,
                            fuel,
                        ) == Option::Some(
                            Result::<(Seq<FieldV>, Seq<Tape>), crate::de::Error>::Ok(
                                (fields, rest),
                            ),
                        )),
            }
        }),
    decreases fields, fields.len() + 1,
{
    let res = spec_ser_fields(fields, acc)->Ok_0;
    let n = res.len() - acc.len();
    let elems = res.subrange(acc.len() as int, res.len() as int);
    assert forall|j: int| 0 <= j < n + 1 implies data[pos + j] == (elems + seq![0u8])[j] by {
        assert((elems + seq![0u8])[j] == data.subrange(pos, pos + n + 1)[j]);
    }
    if fields.len() == 0 {
        assert(res == acc && n == 0);
        assert(data[pos + 0] == (elems + seq![0u8])[0]);
        assert(data[pos] == 0);
        assert(pos < end);
        match spec_scan(data, pos + 1, end) {
            Result::Err(_) => {},
            Result::Ok(tr) => {
                let t1 = seq![Tape::DocumentEnd];
                assert(spec_scan(data, pos, end) == Result::<Seq<Tape>, crate::de::Error>::Ok(
                    t1 + tr,
                ));
                assert forall|rest: Seq<Tape>, fuel: nat|
                    fuel >= 2 * (t1 + rest).len() + 2 implies #[trigger] take_fields(
                    t1 + rest,
                    data,
                    fuel,
                ) == Option::Some(
                    Result::<(Seq<FieldV>, Seq<Tape>), crate::de::Error>::Ok((fields, rest)),
                ) by {
                    assert((t1 + rest)[0] == Tape::DocumentEnd);
                    assert((t1 + rest).drop_first() =~= rest);
                    assert(fields =~= Seq::<FieldV>::empty());
                }
            },
        }
    } else {
        let f0 = fields[0];
        let rest_fields = fields.subrange(1, fields.len() as int);
        assert(key_wf(f0.key) && value_rt_wf(f0.value));
        assert(fields_rt_wf(rest_fields)) by {
            assert forall|i: int|
                0 <= i < rest_fields.len() implies key_wf(#[trigger] rest_fields[i].key)
                && value_rt_wf(rest_fields[i].value) by {
                assert(rest_fields[i] == fields[i + 1]);
            }
        }
        lemma_peel_layout(fields, acc, data, pos, end);
        let b0 = spec_ser_value(Option::Some(f0.key), f0.value)->Ok_0;
        assert(decreases_to!(fields => f0.value));
        lemma_round_trip_elem(f0.key, f0.value, data, pos, end);
        let pos2 = pos + b0.len() as int;
        let n2 = res.len() - (acc + b0).len();
        lemma_round_trip_fields(rest_fields, acc + b0, data, pos2, end);
        let key_entry = Tape::Key { start: (pos + 1) as usize, len: f0.key.len() as usize };
        assert(pos2 + n2 + 1 == pos + n + 1);
        match spec_scan(data, pos + n + 1, end) {
            Result::Err(e) => {
                assert(spec_scan(data, pos2, end) == Result::<Seq<Tape>, crate::de::Error>::Err(
                    e,
                ));
                assert(spec_scan(data, pos, end) == Result::<Seq<Tape>, crate::de::Error>::Err(
                    e,
                ));
            },
            Result::Ok(tr) => {
                let t1p = choose|t1p: Seq<Tape>|
                    spec_scan(data, pos2, end) == Result::<Seq<Tape>, crate::de::Error>::Ok(
                        #[trigger] (t1p + tr),
                    ) && (forall|rest: Seq<Tape>, fuel: nat|
                        fuel >= 2 * (t1p + rest).len() + 2 ==> #[trigger] take_fields(
                            t1p + rest,
                            data,
                            fuel,
                        ) == Option::Some(
                            Result::<(Seq<FieldV>, Seq<Tape>), crate::de::Error>::Ok(
                                (rest_fields, rest),
                            ),
                        ));
                // the element's own scan and take facts, at the tail the
                // remaining elements produce
                let tval = choose|tval: Seq<Tape>|
                    spec_scan(data, pos, end) == Result::<Seq<Tape>, crate::de::Error>::Ok(
                        #[trigger] ((seq![key_entry] + tval) + (t1p + tr)),
                    ) && (forall|rest: Seq<Tape>, fuel: nat|
                        fuel >= 2 * (tval + rest).len() + 2 ==> #[trigger] take_value(
                            tval + rest,
                            data,
                            fuel,
                        ) == Option::Some(
                            Result::<(ValueV, Seq<Tape>), crate::de::Error>::Ok(
                                (f0.value, rest),
                            ),
                        ));
                let t1 = (seq![key_entry] + tval) + t1p;
                assert((seq![key_entry] + tval) + (t1p + tr) =~= t1 + tr);
                assert(spec_scan(data, pos, end) == Result::<Seq<Tape>, crate::de::Error>::Ok(
                    t1 + tr,
                ));
                assert forall|rest: Seq<Tape>, fuel: nat|
                    fuel >= 2 * (t1 + rest).len() + 2 implies #[trigger] take_fields(
                    t1 + rest,
                    data,
                    fuel,
                ) == Option::Some(
                    Result::<(Seq<FieldV>, Seq<Tape>), crate::de::Error>::Ok((fields, rest)),
                ) by {
                    let big = t1 + rest;
                    assert(big[0] == key_entry);
                    assert(big.drop_first() =~= tval + (t1p + rest));
                    assert((pos + 1) as usize as int == pos + 1);
                    assert(data.subrange(pos + 1, pos + 1 + f0.key.len() as int) == f0.key);
                    assert(take_value(tval + (t1p + rest), data, (fuel - 1) as nat)
                        == Option::Some(
                        Result::<(ValueV, Seq<Tape>), crate::de::Error>::Ok(
                            (f0.value, t1p + rest),
                        ),
                    ));
                    assert(take_fields(t1p + rest, data, (fuel - 1) as nat) == Option::Some(
                        Result::<(Seq<FieldV>, Seq<Tape>), crate::de::Error>::Ok(
                            (rest_fields, rest),
                        ),
                    ));
                    assert(FieldV {
                        key: data.subrange(pos + 1, pos + 1 + f0.key.len() as int),
                        value: f0.value,
                    } =~= f0);
                    assert(seq![f0] + rest_fields =~= fields);
                }
            },
        }
    }
}

/// Round-trip law: for a document of scalar fields and nested such
/// documents that the encoder accepts, decoding the encoded bytes yields
/// exactly the document that was encoded. Keys must be UTF-8 without an
/// embedded NUL and strings UTF-8 — the values the format carries
/// faithfully.
#[verifier::rlimit(100)]
pub proof fn lemma_document_round_trip(fields: Seq<FieldV>)
    requires
        fields_rt_wf(fields),
        spec_encode(ValueV::Document(fields)) is Ok,
    ensures
        spec_from_bytes(spec_encode(ValueV::Document(fields))->Ok_0) == Result::<
            ValueV,
            crate::de::Error,
        >::Ok(ValueV::Document(fields)),
{
    let bytes = spec_encode(ValueV::Document(fields))->Ok_0;
    let ph = spec_placeholder();
    assert(spec_ser_fields(fields, ph) is Ok);
    let res = spec_ser_fields(fields, ph)->Ok_0;
    lemma_ser_fields_prefix(fields, ph);
    assert(res.len() >= 4);
    let total = res.len() as int + 1;
    assert(total <= MAX_DOC_LEN);
    let d = u32_le_bytes((res.len() + 1) as u32) + res.subrange(4, res.len() as int) + seq![0u8];
    assert(bytes =~= d);
    assert(bytes.len() == total);
    assert forall|j: int| 0 <= j < 4 implies bytes[0 + j] == #[trigger] u32_le_bytes(
        (res.len() + 1) as u32,
    )[j] by {
        assert(bytes[j] == d[j]);
        assert(d[j] == u32_le_bytes((res.len() + 1) as u32)[j]);
    }
    lemma_le32_of_bytes(bytes, 0, (res.len() + 1) as u32);
    assert(le32_at(bytes, 0) == total);
    let n = res.len() as int - 4;
    assert(bytes.subrange(4, 4 + n + 1) =~= res.subrange(4, res.len() as int) + seq![0u8]) by {
        assert forall|j: int|
            0 <= j < n + 1 implies bytes[4 + j] == (res.subrange(4, res.len() as int)
            + seq![0u8])[j] by {
            assert(bytes[4 + j] == d[4 + j]);
        }
    }
    assert(res.subrange(4, res.len() as int) =~= res.subrange(
        spec_placeholder().len() as int,
        res.len() as int,
    ));
    lemma_round_trip_fields(fields, ph, bytes, 4, total);
    assert(spec_scan(bytes, total, total) == Result::<Seq<Tape>, crate::de::Error>::Ok(
        Seq::<Tape>::empty(),
    ));
    let tr = Seq::<Tape>::empty();
    let t1 = choose|t1: Seq<Tape>|
        spec_scan(bytes, 4, total) == Result::<Seq<Tape>, crate::de::Error>::Ok(
            #[trigger] (t1 + tr),
        ) && (forall|rest: Seq<Tape>, fuel: nat|
            fuel >= 2 * (t1 + rest).len() + 2 ==> #[trigger] take_fields(t1 + rest, bytes, fuel)
                == Option::Some(
                Result::<(Seq<FieldV>, Seq<Tape>), crate::de::Error>::Ok((fields, rest)),
            ));
    let tape = seq![Tape::DocumentStart] + (t1 + tr);
    assert(spec_to_tape(bytes) == Result::<Seq<Tape>, crate::de::Error>::Ok(tape));
    let fuel = sufficient_fuel(tape);
    assert(tape.len() >= 1 && tape[0] == Tape::DocumentStart);
    assert(tape.drop_first() =~= t1 + tr);
    assert(fuel - 1 >= 2 * (t1 + tr).len() + 2);
    assert(take_fields(t1 + tr, bytes, (fuel - 1) as nat) == Option::Some(
        Result::<(Seq<FieldV>, Seq<Tape>), crate::de::Error>::Ok((fields, tr)),
    ));
    assert(take_value(tape, bytes, fuel) == Option::Some(
        Result::<(ValueV, Seq<Tape>), crate::de::Error>::Ok((ValueV::Document(fields), tr)),
    ));
}

} // verus!
