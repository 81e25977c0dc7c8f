//! The decode side: a single-pass scanner that turns a raw document buffer
//! into a flat tape of tagged entries, and a pull cursor that walks the tape
//! back into a value.

use vstd::prelude::*;

use crate::arena::{bump_tape_view, tape_vec_new_in, tape_vec_push};
use vstd::string::StringExecFns;
use crate::le_bytes::{le32_at, le64_at, read_u32_le, read_u64_le};
use crate::value::{model_fields, model_value, model_values, Field, FieldV, Value, ValueV};
use vstd::slice::slice_to_vec;

verus! {

/// Why a decode failed.
#[derive(Debug, Clone, PartialEq)]
pub enum Error {
    /// A document end marker stood where a value was expected.
    UnexpectedMapEnd,
    /// A key stood where a value was expected.
    UnexpectedKey,
    /// The tape was exhausted where a value was expected.
    EndOfFile,
    /// An error raised by the value-shape implementation consuming the
    /// decode.
    Custom(String),
    /// Inside a document, neither a key nor the document's end came next.
    MalformedMapMissingKey,
    /// The entry opening an enum was neither a string nor a document or
    /// array start.
    UnexpectedEnum,
    /// The input bytes are not a well-formed document: a truncated header or
    /// payload, an unterminated key, an unsupported type tag, or text that
    /// is not UTF-8.
    MalformedInput,
}

impl Error {
    /// A human-readable description of the error, standing in for a
    /// `Display` implementation.
    pub fn message(&self) -> (r: String)
        ensures
            match self {
                Error::UnexpectedMapEnd => r@ == "unexpected map end"@,
                Error::UnexpectedKey => r@ == "unexpected key"@,
                Error::EndOfFile => r@ == "end of file"@,
                Error::Custom(msg) => r@ == "custom: "@ + msg@,
                Error::MalformedMapMissingKey => r@
                    == "malformed map, missing key or document end"@,
                Error::UnexpectedEnum => r@ == "unexpected enum"@,
                Error::MalformedInput => r@ == "malformed input document"@,
            },
    {
        match self {
            Error::UnexpectedMapEnd => String::from_str("unexpected map end"),
            Error::UnexpectedKey => String::from_str("unexpected key"),
            Error::EndOfFile => String::from_str("end of file"),
            Error::Custom(msg) => {
                let mut s = String::from_str("custom: ");
                s.append(msg.as_str());
                s
            },
            Error::MalformedMapMissingKey => String::from_str(
                "malformed map, missing key or document end",
            ),
            Error::UnexpectedEnum => String::from_str("unexpected enum"),
            Error::MalformedInput => String::from_str("malformed input document"),
        }
    }
}

/// One entry of the flat tape the scanner produces. String-like entries
/// carry index ranges into the input buffer, not copies: the tape borrows
/// from the input by position.
#[derive(Clone, Copy, Debug, PartialEq, Eq, Structural)]
pub enum Tape {
    /// Start of the input document or of a nested document (tag `0x03`).
    DocumentStart,
    /// The terminator `0x00` closing the nearest open document.
    DocumentEnd,
    /// The key preceding every value: `len` bytes at `start` in the input.
    Key { start: usize, len: usize },
    /// IEEE754 double (tag `0x01`), as its bit pattern.
    Double { bits: u64 },
    /// UTF-8 string (tag `0x02`): `len` bytes at `start` in the input.
    String { start: usize, len: usize },
    /// Start of a nested array document (tag `0x04`).
    ArrayStart,
    /// Binary (tag `0x05`): `len` bytes at `start`, with the subtype byte.
    Binary { start: usize, len: usize, subtype: u8 },
    /// Boolean (tag `0x08`).
    Boolean { value: bool },
    /// UTC datetime (tag `0x09`).
    UtcDateTime { value: i64 },
    /// Null (tag `0x0A`).
    Null,
    /// Signed 32-bit integer (tag `0x10`).
    I32 { value: i32 },
    /// Unsigned 64-bit timestamp (tag `0x11`).
    Timestamp { value: u64 },
    /// Signed 64-bit integer (tag `0x12`).
    I64 { value: i64 },
}

/// Whether `b` is valid UTF-8. The codec never interprets the characters; it
/// only refuses input whose text is not UTF-8, as `utf8_check` reports.
pub uninterp spec fn is_utf8(b: Seq<u8>) -> bool;

/// Relies on `simdutf8::basic::from_utf8`: `Ok` exactly when the bytes are
/// valid UTF-8.
#[verifier::external_body]
fn utf8_check(b: &[u8]) -> (r: bool)
    ensures
        r == is_utf8(b@),
{
    simdutf8::basic::from_utf8(b).is_ok()
}

/// Relies on `memchr::memchr`: the index of the first occurrence of `needle`
/// in `haystack`, or `None` if it does not occur.
#[verifier::external_body]
fn find_byte(needle: u8, haystack: &[u8]) -> (r: Option<usize>)
    ensures
        match r {
            Option::Some(i) => i < haystack@.len() && haystack@[i as int] == needle && forall|
                j: int,
            | 0 <= j < i ==> haystack@[j] != needle,
            Option::None => forall|j: int| 0 <= j < haystack@.len() ==> haystack@[j] != needle,
        },
{
    memchr::memchr(needle, haystack)
}

/// The position of the first NUL byte in `data[from..end]`, if any.
pub open spec fn spec_find_nul(data: Seq<u8>, from: int, end: int) -> Option<int>
    decreases end - from,
{
    if from >= end {
        Option::None
    } else if data[from] == 0 {
        Option::Some(from)
    } else {
        spec_find_nul(data, from + 1, end)
    }
}

/// `spec_find_nul` returns exactly the first occurrence.
pub proof fn lemma_find_nul(data: Seq<u8>, from: int, end: int)
    requires
        0 <= from <= end <= data.len(),
    ensures
        match spec_find_nul(data, from, end) {
            Option::Some(k) => from <= k < end && data[k] == 0 && forall|j: int|
                from <= j < k ==> data[j] != 0,
            Option::None => forall|j: int| from <= j < end ==> data[j] != 0,
        },
    decreases end - from,
{
    if from < end && data[from] != 0 {
        lemma_find_nul(data, from + 1, end);
    }
}

/// Prepends already-emitted entries to the rest of a scan.
pub open spec fn scan_cons(pre: Seq<Tape>, rest: Result<Seq<Tape>, Error>) -> Result<
    Seq<Tape>,
    Error,
> {
    match rest {
        Result::Ok(t) => Result::Ok(pre + t),
        Result::Err(e) => Result::Err(e),
    }
}

/// The tape entries scanned from `data[pos..end]`, or the exact error on
/// malformed input. Mirrors the single forward pass of `to_tape`: one type
/// tag, one NUL-terminated key, one payload per step; an unsupported tag is
/// a fatal decode error, never a silent skip.
pub open spec fn spec_scan(data: Seq<u8>, pos: int, end: int) -> Result<Seq<Tape>, Error>
    decreases end - pos,
{
    if pos >= end {
        Result::Ok(Seq::empty())
    } else {
        let tag = data[pos];
        if tag == 0x00 {
            scan_cons(seq![Tape::DocumentEnd], spec_scan(data, pos + 1, end))
        } else {
            match spec_find_nul(data, pos + 1, end) {
                Option::None => Result::Err(Error::MalformedInput),
                Option::Some(kend) => if !(pos + 1 <= kend < end) {
                    Result::Err(Error::MalformedInput)
                } else if !is_utf8(data.subrange(pos + 1, kend)) {
                    Result::Err(Error::MalformedInput)
                } else {
                    let key = Tape::Key {
                        start: (pos + 1) as usize,
                        len: (kend - pos - 1) as usize,
                    };
                    let p = kend + 1;
                    if tag == 0x01 {
                        if p + 8 > end {
                            Result::Err(Error::MalformedInput)
                        } else {
                            scan_cons(
                                seq![key, Tape::Double { bits: le64_at(data, p) as u64 }],
                                spec_scan(data, p + 8, end),
                            )
                        }
                    } else if tag == 0x02 {
                        if p + 4 > end {
                            Result::Err(Error::MalformedInput)
                        } else {
                            let sl = le32_at(data, p);
                            if sl < 1 || p + 4 + sl > end {
                                Result::Err(Error::MalformedInput)
                            } else if !is_utf8(data.subrange(p + 4, p + 4 + sl - 1)) {
                                Result::Err(Error::MalformedInput)
                            } else {
                                scan_cons(
                                    seq![
                                        key,
                                        Tape::String {
                                            start: (p + 4) as usize,
                                            len: (sl - 1) as usize,
                                        },
                                    ],
                                    spec_scan(data, p + 4 + sl, end),
                                )
                            }
                        }
                    } else if tag == 0x03 {
                        if p + 4 > end {
                            Result::Err(Error::MalformedInput)
                        } else {
                            scan_cons(
                                seq![key, Tape::DocumentStart],
                                spec_scan(data, p + 4, end),
                            )
                        }
                    } else if tag == 0x04 {
                        if p + 4 > end {
                            Result::Err(Error::MalformedInput)
                        } else {
                            scan_cons(seq![key, Tape::ArrayStart], spec_scan(data, p + 4, end))
                        }
                    } else if tag == 0x05 {
                        if p + 4 > end {
                            Result::Err(Error::MalformedInput)
                        } else {
                            let bl = le32_at(data, p);
                            if p + 5 + bl > end {
                                Result::Err(Error::MalformedInput)
                            } else {
                                scan_cons(
                                    seq![
                                        key,
                                        Tape::Binary {
                                            start: (p + 5) as usize,
                                            len: bl as usize,
                                            subtype: data[p + 4],
                                        },
                                    ],
                                    spec_scan(data, p + 5 + bl, end),
                                )
                            }
                        }
                    } else if tag == 0x08 {
                        if p + 1 > end {
                            Result::Err(Error::MalformedInput)
                        } else {
                            scan_cons(
                                seq![key, Tape::Boolean { value: data[p] == 1 }],
                                spec_scan(data, p + 1, end),
                            )
                        }
                    } else if tag == 0x09 {
                        if p + 8 > end {
                            Result::Err(Error::MalformedInput)
                        } else {
                            scan_cons(
                                seq![
                                    key,
                                    Tape::UtcDateTime {
                                        value: (le64_at(data, p) as u64) as i64,
                                    },
                                ],
                                spec_scan(data, p + 8, end),
                            )
                        }
                    } else if tag == 0x0a {
                        scan_cons(seq![key, Tape::Null], spec_scan(data, p, end))
                    } else if tag == 0x10 {
                        if p + 4 > end {
                            Result::Err(Error::MalformedInput)
                        } else {
                            scan_cons(
                                seq![
                                    key,
                                    Tape::I32 { value: (le32_at(data, p) as u32) as i32 },
                                ],
                                spec_scan(data, p + 4, end),
                            )
                        }
                    } else if tag == 0x11 {
                        if p + 8 > end {
                            Result::Err(Error::MalformedInput)
                        } else {
                            scan_cons(
                                seq![key, Tape::Timestamp { value: le64_at(data, p) as u64 }],
                                spec_scan(data, p + 8, end),
                            )
                        }
                    } else if tag == 0x12 {
                        if p + 8 > end {
                            Result::Err(Error::MalformedInput)
                        } else {
                            scan_cons(
                                seq![
                                    key,
                                    Tape::I64 { value: (le64_at(data, p) as u64) as i64 },
                                ],
                                spec_scan(data, p + 8, end),
                            )
                        }
                    } else {
                        Result::Err(Error::MalformedInput)
                    }
                },
            }
        }
    }
}

/// The tape of a whole input buffer: the first four bytes give the
/// authoritative total length, which must be at least the five bytes of an
/// empty document and no more than the bytes available; bytes beyond it are
/// ignored.
pub open spec fn spec_to_tape(data: Seq<u8>) -> Result<Seq<Tape>, Error> {
    if data.len() < 4 {
        Result::Err(Error::MalformedInput)
    } else {
        let length = le32_at(data, 0);
        if length < 5 || length > data.len() {
            Result::Err(Error::MalformedInput)
        } else {
            scan_cons(seq![Tape::DocumentStart], spec_scan(data, 4, length))
        }
    }
}

/// String-like entries point into the first `n` bytes of the input.
pub open spec fn tape_entry_in_bounds(t: Tape, n: int) -> bool {
    match t {
        Tape::Key { start, len } => start + len <= n,
        Tape::String { start, len } => start + len <= n,
        Tape::Binary { start, len, subtype: _ } => start + len <= n,
        _ => true,
    }
}

/// Every entry of the tape points into the first `n` bytes of the input.
pub open spec fn tape_in_bounds(tape: Seq<Tape>, n: int) -> bool {
    forall|i: int| 0 <= i < tape.len() ==> tape_entry_in_bounds(tape[i], n)
}

proof fn lemma_in_bounds_push(tape: Seq<Tape>, t: Tape, n: int)
    requires
        tape_in_bounds(tape, n),
        tape_entry_in_bounds(t, n),
    ensures
        tape_in_bounds(tape.push(t), n),
{
    assert forall|i: int| 0 <= i < tape.push(t).len() implies tape_entry_in_bounds(
        tape.push(t)[i],
        n,
    ) by {
        if i < tape.len() {
            assert(tape.push(t)[i] == tape[i]);
        } else {
            assert(tape.push(t)[i] == t);
        }
    }
}

proof fn lemma_push1(pre: Seq<Tape>, a: Tape, t: Seq<Tape>)
    ensures
        pre.push(a) + t == pre + (seq![a] + t),
{
    assert(pre.push(a) + t =~= pre + (seq![a] + t));
}

proof fn lemma_push2(pre: Seq<Tape>, a: Tape, b: Tape, t: Seq<Tape>)
    ensures
        pre.push(a).push(b) + t == pre + (seq![a, b] + t),
{
    assert(pre.push(a).push(b) + t =~= pre + (seq![a, b] + t));
}

pub proof fn lemma_find_nul_some(data: Seq<u8>, from: int, end: int, k: int)
    requires
        0 <= from <= end <= data.len(),
        from <= k < end,
        data[k] == 0,
        forall|j: int| from <= j < k ==> data[j] != 0,
    ensures
        spec_find_nul(data, from, end) == Option::Some(k),
{
    lemma_find_nul(data, from, end);
    match spec_find_nul(data, from, end) {
        Option::None => {
            assert(data[k] != 0);
        },
        Option::Some(k2) => {
            if k2 < k {
                assert(data[k2] != 0);
            } else if k2 > k {
                assert(data[k] != 0);
            }
        },
    }
}

proof fn lemma_find_nul_none(data: Seq<u8>, from: int, end: int)
    requires
        0 <= from <= end <= data.len(),
        forall|j: int| from <= j < end ==> data[j] != 0,
    ensures
        spec_find_nul(data, from, end) is None,
{
    lemma_find_nul(data, from, end);
    match spec_find_nul(data, from, end) {
        Option::None => {},
        Option::Some(k2) => {
            assert(data[k2] != 0);
        },
    }
}

/// One step's worth of the scanner: appends to `tape` the entries scanned
/// from `data[pos..end]`, exactly as `spec_scan` gives them.
#[verifier::rlimit(100)]
#[verifier::spinoff_prover]
fn scan_elems(
    data: &[u8],
    pos: usize,
    end: usize,
    tape: &mut bumpalo::collections::Vec<'_, Tape>,
) -> (r: Result<(), Error>)
    requires
        4 <= pos <= end <= data@.len(),
        tape_in_bounds(bump_tape_view(*old(tape)), data@.len() as int),
    ensures
        tape_in_bounds(bump_tape_view(*final(tape)), data@.len() as int),
        match spec_scan(data@, pos as int, end as int) {
            Result::Ok(t) => r is Ok && bump_tape_view(*final(tape)) == bump_tape_view(
                *old(tape),
            ) + t,
            Result::Err(e) => r == Result::<(), Error>::Err(e),
        },
    decreases end - pos,
{
    let ghost pre = bump_tape_view(*tape);
    if pos >= end {
        proof {
            assert(pre + Seq::<Tape>::empty() =~= pre);
        }
        return Result::Ok(());
    }
    let tag = data[pos];
    if tag == 0x00 {
        tape_vec_push(tape, Tape::DocumentEnd);
        proof {
            lemma_in_bounds_push(pre, Tape::DocumentEnd, data@.len() as int);
        }
        let r = scan_elems(data, pos + 1, end, tape);
        proof {
            if let Result::Ok(t) = spec_scan(data@, pos as int + 1, end as int) {
                lemma_push1(pre, Tape::DocumentEnd, t);
            }
        }
        return r;
    }
    // read the NUL-terminated key and validate it as UTF-8
    let sub = &data[pos + 1..end];
    let kend: usize = match find_byte(0x00, sub) {
        Option::None => {
            proof {
                assert forall|j: int| pos + 1 <= j < end implies data@[j] != 0 by {
                    assert(sub@[j - (pos + 1)] != 0);
                }
                lemma_find_nul_none(data@, pos as int + 1, end as int);
            }
            return Result::Err(Error::MalformedInput);
        },
        Option::Some(i) => pos + 1 + i,
    };
    proof {
        let i = kend - (pos + 1);
        assert(data@[kend as int] == sub@[i as int]);
        assert forall|j: int| pos + 1 <= j < kend implies data@[j] != 0 by {
            assert(sub@[j - (pos + 1)] != 0);
        }
        lemma_find_nul_some(data@, pos as int + 1, end as int, kend as int);
    }
    let kstart = pos + 1;
    let keybytes = &data[kstart..kend];
    if !utf8_check(keybytes) {
        return Result::Err(Error::MalformedInput);
    }
    let key = Tape::Key { start: kstart, len: kend - kstart };
    let ghost keyg = key;
    let ghost n = data@.len() as int;
    let p = kend + 1;
    if tag == 0x01 {
        if end - p < 8 {
            return Result::Err(Error::MalformedInput);
        }
        let bits = read_u64_le(data, p);
        let entry = Tape::Double { bits };
        tape_vec_push(tape, key);
        tape_vec_push(tape, entry);
        proof {
            lemma_in_bounds_push(pre, keyg, n);
            lemma_in_bounds_push(pre.push(keyg), entry, n);
        }
        let r = scan_elems(data, p + 8, end, tape);
        proof {
            if let Result::Ok(t) = spec_scan(data@, p as int + 8, end as int) {
                lemma_push2(pre, keyg, entry, t);
            }
        }
        return r;
    }
    if tag == 0x02 {
        if end - p < 4 {
            return Result::Err(Error::MalformedInput);
        }
        let sl = read_u32_le(data, p) as usize;
        if sl < 1 || sl > end - (p + 4) {
            return Result::Err(Error::MalformedInput);
        }
        let sbytes = &data[p + 4..p + 4 + sl - 1];
        if !utf8_check(sbytes) {
            return Result::Err(Error::MalformedInput);
        }
        let entry = Tape::String { start: p + 4, len: sl - 1 };
        tape_vec_push(tape, key);
        tape_vec_push(tape, entry);
        proof {
            lemma_in_bounds_push(pre, keyg, n);
            lemma_in_bounds_push(pre.push(keyg), entry, n);
        }
        let r = scan_elems(data, p + 4 + sl, end, tape);
        proof {
            if let Result::Ok(t) = spec_scan(data@, p as int + 4 + sl as int, end as int) {
                lemma_push2(pre, keyg, entry, t);
            }
        }
        return r;
    }
    if tag == 0x03 || tag == 0x04 {
        if end - p < 4 {
            return Result::Err(Error::MalformedInput);
        }
        let entry = if tag == 0x03 {
            Tape::DocumentStart
        } else {
            Tape::ArrayStart
        };
        tape_vec_push(tape, key);
        tape_vec_push(tape, entry);
        proof {
            lemma_in_bounds_push(pre, keyg, n);
            lemma_in_bounds_push(pre.push(keyg), entry, n);
        }
        let r = scan_elems(data, p + 4, end, tape);
        proof {
            if let Result::Ok(t) = spec_scan(data@, p as int + 4, end as int) {
                lemma_push2(pre, keyg, entry, t);
            }
        }
        return r;
    }
    if tag == 0x05 {
        if end - p < 4 {
            return Result::Err(Error::MalformedInput);
        }
        let bl = read_u32_le(data, p) as usize;
        if end - (p + 4) < 1 {
            return Result::Err(Error::MalformedInput);
        }
        if bl > end - (p + 5) {
            return Result::Err(Error::MalformedInput);
        }
        let subtype = data[p + 4];
        let entry = Tape::Binary { start: p + 5, len: bl, subtype };
        tape_vec_push(tape, key);
        tape_vec_push(tape, entry);
        proof {
            lemma_in_bounds_push(pre, keyg, n);
            lemma_in_bounds_push(pre.push(keyg), entry, n);
        }
        let r = scan_elems(data, p + 5 + bl, end, tape);
        proof {
            if let Result::Ok(t) = spec_scan(data@, p as int + 5 + bl as int, end as int) {
                lemma_push2(pre, keyg, entry, t);
            }
        }
        return r;
    }
    if tag == 0x08 {
        if end - p < 1 {
            return Result::Err(Error::MalformedInput);
        }
        let entry = Tape::Boolean { value: data[p] == 1 };
        tape_vec_push(tape, key);
        tape_vec_push(tape, entry);
        proof {
            lemma_in_bounds_push(pre, keyg, n);
            lemma_in_bounds_push(pre.push(keyg), entry, n);
        }
        let r = scan_elems(data, p + 1, end, tape);
        proof {
            if let Result::Ok(t) = spec_scan(data@, p as int + 1, end as int) {
                lemma_push2(pre, keyg, entry, t);
            }
        }
        return r;
    }
    if tag == 0x09 || tag == 0x11 || tag == 0x12 {
        if end - p < 8 {
            return Result::Err(Error::MalformedInput);
        }
        let raw = read_u64_le(data, p);
        let entry = if tag == 0x09 {
            Tape::UtcDateTime { value: raw as i64 }
        } else if tag == 0x11 {
            Tape::Timestamp { value: raw }
        } else {
            Tape::I64 { value: raw as i64 }
        };
        tape_vec_push(tape, key);
        tape_vec_push(tape, entry);
        proof {
            lemma_in_bounds_push(pre, keyg, n);
            lemma_in_bounds_push(pre.push(keyg), entry, n);
        }
        let r = scan_elems(data, p + 8, end, tape);
        proof {
            if let Result::Ok(t) = spec_scan(data@, p as int + 8, end as int) {
                lemma_push2(pre, keyg, entry, t);
            }
        }
        return r;
    }
    if tag == 0x0a {
        let entry = Tape::Null;
        tape_vec_push(tape, key);
        tape_vec_push(tape, entry);
        proof {
            lemma_in_bounds_push(pre, keyg, n);
            lemma_in_bounds_push(pre.push(keyg), entry, n);
        }
        let r = scan_elems(data, p, end, tape);
        proof {
            if let Result::Ok(t) = spec_scan(data@, p as int, end as int) {
                lemma_push2(pre, keyg, entry, t);
            }
        }
        return r;
    }
    if tag == 0x10 {
        if end - p < 4 {
            return Result::Err(Error::MalformedInput);
        }
        let raw = read_u32_le(data, p);
        let entry = Tape::I32 { value: raw as i32 };
        tape_vec_push(tape, key);
        tape_vec_push(tape, entry);
        proof {
            lemma_in_bounds_push(pre, keyg, n);
            lemma_in_bounds_push(pre.push(keyg), entry, n);
        }
        let r = scan_elems(data, p + 4, end, tape);
        proof {
            if let Result::Ok(t) = spec_scan(data@, p as int + 4, end as int) {
                lemma_push2(pre, keyg, entry, t);
            }
        }
        return r;
    }
    Result::Err(Error::MalformedInput)
}

/// Single-pass scanner: turns a raw document buffer into the flat tape of
/// tagged entries `spec_to_tape` gives, or fails with `MalformedInput` on
/// the exact inputs `spec_to_tape` refuses.
pub fn to_tape<'a>(bump: &'a bumpalo::Bump, data: &[u8]) -> (r: Result<
    bumpalo::collections::Vec<'a, Tape>,
    Error,
>)
    ensures
        match spec_to_tape(data@) {
            Result::Ok(t) => r is Ok && bump_tape_view(r->Ok_0) == t && tape_in_bounds(
                t,
                data@.len() as int,
            ),
            Result::Err(e) => r matches Result::Err(e2) && e2 == e,
        },
{
    if data.len() < 4 {
        return Result::Err(Error::MalformedInput);
    }
    let length = read_u32_le(data, 0) as usize;
    if length < 5 || length > data.len() {
        return Result::Err(Error::MalformedInput);
    }
    let mut tape = tape_vec_new_in(bump);
    tape_vec_push(&mut tape, Tape::DocumentStart);
    match scan_elems(data, 4, length, &mut tape) {
        Result::Ok(()) => {
            proof {
                if let Result::Ok(t) = spec_scan(data@, 4, length as int) {
                    assert(seq![Tape::DocumentStart] + t =~= Seq::<Tape>::empty().push(
                        Tape::DocumentStart,
                    ) + t);
                }
            }
            Result::Ok(tape)
        },
        Result::Err(e) => Result::Err(e),
    }
}

/// Fuel that always suffices for the pull cursor on this tape: the cursor
/// consumes at least one entry for every two recursion steps.
pub open spec fn sufficient_fuel(tape: Seq<Tape>) -> nat {
    2 * tape.len() + 2
}

/// The value the pull cursor takes from the front of `tape`, with the tape
/// that remains, or the exact error. `fuel` only forces termination; any
/// sufficient amount gives the same answer (`lemma_take_fuel`,
/// `lemma_take_progress`).
pub open spec fn take_value(tape: Seq<Tape>, data: Seq<u8>, fuel: nat) -> Option<
    Result<(ValueV, Seq<Tape>), Error>,
>
    decreases fuel,
{
    if fuel == 0 {
        Option::None
    } else if tape.len() == 0 {
        Option::Some(Result::Err(Error::EndOfFile))
    } else {
        let rest = tape.drop_first();
        match tape[0] {
            Tape::DocumentStart => match take_fields(rest, data, (fuel - 1) as nat) {
                Option::None => Option::None,
                Option::Some(Result::Err(e)) => Option::Some(Result::Err(e)),
                Option::Some(Result::Ok((fs, rest2))) => Option::Some(
                    Result::Ok((ValueV::Document(fs), rest2)),
                ),
            },
            Tape::ArrayStart => match take_items(rest, data, (fuel - 1) as nat) {
                Option::None => Option::None,
                Option::Some(Result::Err(e)) => Option::Some(Result::Err(e)),
                Option::Some(Result::Ok((vs, rest2))) => Option::Some(
                    Result::Ok((ValueV::Array(vs), rest2)),
                ),
            },
            Tape::DocumentEnd => Option::Some(Result::Err(Error::UnexpectedMapEnd)),
            Tape::Key { start: _, len: _ } => Option::Some(Result::Err(Error::UnexpectedKey)),
            Tape::Double { bits } => Option::Some(Result::Ok((ValueV::Double(bits), rest))),
            Tape::String { start, len } => Option::Some(
                Result::Ok(
                    (ValueV::String(data.subrange(start as int, start as int + len as int)), rest),
                ),
            ),
            Tape::Binary { start, len, subtype: _ } => Option::Some(
                Result::Ok(
                    (ValueV::Binary(data.subrange(start as int, start as int + len as int)), rest),
                ),
            ),
            Tape::Boolean { value } => Option::Some(Result::Ok((ValueV::Boolean(value), rest))),
            Tape::UtcDateTime { value } => Option::Some(
                Result::Ok((ValueV::DateTime(value), rest)),
            ),
            Tape::Null => Option::Some(Result::Ok((ValueV::Null, rest))),
            Tape::I32 { value } => Option::Some(Result::Ok((ValueV::Int32(value), rest))),
            Tape::Timestamp { value } => Option::Some(
                Result::Ok((ValueV::Timestamp(value), rest)),
            ),
            Tape::I64 { value } => Option::Some(Result::Ok((ValueV::Int64(value), rest))),
        }
    }
}

/// Map-shape consumption: keys and values alternate until the document's
/// end marker; anything else in a key slot is a malformed map.
pub open spec fn take_fields(tape: Seq<Tape>, data: Seq<u8>, fuel: nat) -> Option<
    Result<(Seq<FieldV>, Seq<Tape>), Error>,
>
    decreases fuel,
{
    if fuel == 0 {
        Option::None
    } else if tape.len() == 0 {
        Option::Some(Result::Err(Error::MalformedMapMissingKey))
    } else {
        match tape[0] {
            Tape::DocumentEnd => Option::Some(
                Result::Ok((Seq::<FieldV>::empty(), tape.drop_first())),
            ),
            Tape::Key { start, len } => match take_value(
                tape.drop_first(),
                data,
                (fuel - 1) as nat,
            ) {
                Option::None => Option::None,
                Option::Some(Result::Err(e)) => Option::Some(Result::Err(e)),
                Option::Some(Result::Ok((v, rest))) => match take_fields(
                    rest,
                    data,
                    (fuel - 1) as nat,
                ) {
                    Option::None => Option::None,
                    Option::Some(Result::Err(e)) => Option::Some(Result::Err(e)),
                    Option::Some(Result::Ok((fs, rest2))) => Option::Some(
                        Result::Ok(
                            (
                                seq![
                                    FieldV {
                                        key: data.subrange(
                                            start as int,
                                            start as int + len as int,
                                        ),
                                        value: v,
                                    },
                                ] + fs,
                                rest2,
                            ),
                        ),
                    ),
                },
            },
            _ => Option::Some(Result::Err(Error::MalformedMapMissingKey)),
        }
    }
}

/// Sequence-shape consumption: like map-shape consumption, but the decimal
/// index keys are discarded.
pub open spec fn take_items(tape: Seq<Tape>, data: Seq<u8>, fuel: nat) -> Option<
    Result<(Seq<ValueV>, Seq<Tape>), Error>,
>
    decreases fuel,
{
    if fuel == 0 {
        Option::None
    } else if tape.len() == 0 {
        Option::Some(Result::Err(Error::MalformedMapMissingKey))
    } else {
        match tape[0] {
            Tape::DocumentEnd => Option::Some(
                Result::Ok((Seq::<ValueV>::empty(), tape.drop_first())),
            ),
            Tape::Key { start: _, len: _ } => match take_value(
                tape.drop_first(),
                data,
                (fuel - 1) as nat,
            ) {
                Option::None => Option::None,
                Option::Some(Result::Err(e)) => Option::Some(Result::Err(e)),
                Option::Some(Result::Ok((v, rest))) => match take_items(
                    rest,
                    data,
                    (fuel - 1) as nat,
                ) {
                    Option::None => Option::None,
                    Option::Some(Result::Err(e)) => Option::Some(Result::Err(e)),
                    Option::Some(Result::Ok((vs, rest2))) => Option::Some(
                        Result::Ok((seq![v] + vs, rest2)),
                    ),
                },
            },
            _ => Option::Some(Result::Err(Error::MalformedMapMissingKey)),
        }
    }
}

/// With fuel of at least `sufficient_fuel`, the cursor always resolves, and
/// on success it consumes at least one tape entry.
pub proof fn lemma_take_progress(tape: Seq<Tape>, data: Seq<u8>, fuel: nat)
    requires
        fuel >= 2 * tape.len() + 2,
    ensures
        take_value(tape, data, fuel) is Some,
        take_value(tape, data, fuel) matches Option::Some(Result::Ok(p)) ==> p.1.len()
            < tape.len(),
        take_fields(tape, data, fuel) is Some,
        take_fields(tape, data, fuel) matches Option::Some(Result::Ok(p)) ==> p.1.len()
            < tape.len(),
        take_items(tape, data, fuel) is Some,
        take_items(tape, data, fuel) matches Option::Some(Result::Ok(p)) ==> p.1.len()
            < tape.len(),
    decreases fuel,
{
    if tape.len() > 0 {
        lemma_take_progress(tape.drop_first(), data, (fuel - 1) as nat);
        match take_value(tape.drop_first(), data, (fuel - 1) as nat) {
            Option::Some(Result::Ok(p)) => {
                lemma_take_progress(p.1, data, (fuel - 1) as nat);
            },
            _ => {},
        }
    }
}

/// The cursor's answer does not depend on the fuel, once the fuel is enough
/// for it to resolve at all.
pub proof fn lemma_take_fuel(tape: Seq<Tape>, data: Seq<u8>, fuel1: nat, fuel2: nat)
    requires
        fuel1 <= fuel2,
    ensures
        take_value(tape, data, fuel1) is Some ==> take_value(tape, data, fuel2) == take_value(
            tape,
            data,
            fuel1,
        ),
        take_fields(tape, data, fuel1) is Some ==> take_fields(tape, data, fuel2) == take_fields(
            tape,
            data,
            fuel1,
        ),
        take_items(tape, data, fuel1) is Some ==> take_items(tape, data, fuel2) == take_items(
            tape,
            data,
            fuel1,
        ),
    decreases fuel1,
{
    if fuel1 > 0 && tape.len() > 0 {
        lemma_take_fuel(tape.drop_first(), data, (fuel1 - 1) as nat, (fuel2 - 1) as nat);
        match take_value(tape.drop_first(), data, (fuel1 - 1) as nat) {
            Option::Some(Result::Ok(p)) => {
                lemma_take_fuel(p.1, data, (fuel1 - 1) as nat, (fuel2 - 1) as nat);
            },
            _ => {},
        }
    }
}

/// The value decoded from a whole input buffer: the tape of the buffer is
/// built, then the cursor takes one value from its front; excess tape after
/// that value is ignored.
pub open spec fn spec_from_bytes(data: Seq<u8>) -> Result<ValueV, Error> {
    match spec_to_tape(data) {
        Result::Err(e) => Result::Err(e),
        Result::Ok(t) => match take_value(t, data, sufficient_fuel(t)) {
            Option::Some(Result::Ok((v, _rest))) => Result::Ok(v),
            Option::Some(Result::Err(e)) => Result::Err(e),
            // never reached: `sufficient_fuel` always resolves
            Option::None => Result::Err(Error::EndOfFile),
        },
    }
}

/// Takes the next value from the tape at `pos`: the consumer side of the
/// value-shape protocol's scalar request, delegating to map- or
/// sequence-shape consumption at a nested document or array start.
pub fn value_from_tape(tape: &[Tape], pos: usize, data: &[u8]) -> (res: Result<
    (Value, usize),
    Error,
>)
    requires
        pos <= tape@.len(),
        tape_in_bounds(tape@, data@.len() as int),
    ensures
        match take_value(tape@.skip(pos as int), data@, sufficient_fuel(tape@.skip(pos as int))) {
            Option::Some(Result::Ok(p)) => res is Ok && model_value(res->Ok_0.0) == p.0 && pos
                < res->Ok_0.1 <= tape@.len() && tape@.skip(res->Ok_0.1 as int) == p.1,
            Option::Some(Result::Err(e)) => res == Result::<(Value, usize), Error>::Err(e),
            Option::None => false,
        },
    decreases tape@.len() - pos, 0int,
{
    let ghost suf = tape@.skip(pos as int);
    let ghost f = sufficient_fuel(suf);
    proof {
        lemma_take_progress(suf, data@, f);
    }
    if pos == tape.len() {
        return Result::Err(Error::EndOfFile);
    }
    proof {
        assert(suf[0] == tape@[pos as int]);
        assert(suf.drop_first() =~= tape@.skip(pos as int + 1));
        assert(tape_entry_in_bounds(tape@[pos as int], data@.len() as int));
    }
    let entry = tape[pos];
    match entry {
        Tape::DocumentStart => {
            let ghost suf1 = tape@.skip(pos as int + 1);
            proof {
                lemma_take_progress(suf1, data@, sufficient_fuel(suf1));
                lemma_take_fuel(suf1, data@, sufficient_fuel(suf1), (f - 1) as nat);
            }
            match fields_from_tape(tape, pos + 1, data) {
                Result::Err(e) => Result::Err(e),
                Result::Ok((fields, np)) => Result::Ok((Value::Document(fields), np)),
            }
        },
        Tape::ArrayStart => {
            let ghost suf1 = tape@.skip(pos as int + 1);
            proof {
                lemma_take_progress(suf1, data@, sufficient_fuel(suf1));
                lemma_take_fuel(suf1, data@, sufficient_fuel(suf1), (f - 1) as nat);
            }
            match items_from_tape(tape, pos + 1, data) {
                Result::Err(e) => Result::Err(e),
                Result::Ok((items, np)) => Result::Ok((Value::Array(items), np)),
            }
        },
        Tape::DocumentEnd => Result::Err(Error::UnexpectedMapEnd),
        Tape::Key { start: _, len: _ } => Result::Err(Error::UnexpectedKey),
        Tape::Double { bits } => Result::Ok((Value::Double(bits), pos + 1)),
        Tape::String { start, len } => {
            let dlen = data.len();
            proof {
                assert(tape@[pos as int] == Tape::String { start, len });
                assert(start + len <= dlen);
            }
            let s = slice_to_vec(&data[start..start + len]);
            Result::Ok((Value::String(s), pos + 1))
        },
        Tape::Binary { start, len, subtype: _ } => {
            let dlen = data.len();
            proof {
                assert(tape@[pos as int] == Tape::Binary { start, len, subtype: entry->Binary_subtype });
                assert(start + len <= dlen);
            }
            let b = slice_to_vec(&data[start..start + len]);
            Result::Ok((Value::Binary(b), pos + 1))
        },
        Tape::Boolean { value } => Result::Ok((Value::Boolean(value), pos + 1)),
        Tape::UtcDateTime { value } => Result::Ok((Value::DateTime(value), pos + 1)),
        Tape::Null => Result::Ok((Value::Null, pos + 1)),
        Tape::I32 { value } => Result::Ok((Value::Int32(value), pos + 1)),
        Tape::Timestamp { value } => Result::Ok((Value::Timestamp(value), pos + 1)),
        Tape::I64 { value } => Result::Ok((Value::Int64(value), pos + 1)),
    }
}

/// Map-shape consumption from `pos`: takes keys and values until the
/// document's end marker, returning the fields and the position after the
/// end marker.
pub fn fields_from_tape(tape: &[Tape], pos: usize, data: &[u8]) -> (res: Result<
    (Vec<Field>, usize),
    Error,
>)
    requires
        pos <= tape@.len(),
        tape_in_bounds(tape@, data@.len() as int),
    ensures
        match take_fields(tape@.skip(pos as int), data@, sufficient_fuel(tape@.skip(pos as int))) {
            Option::Some(Result::Ok(p)) => res is Ok && model_fields(res->Ok_0.0@) == p.0 && pos
                < res->Ok_0.1 <= tape@.len() && tape@.skip(res->Ok_0.1 as int) == p.1,
            Option::Some(Result::Err(e)) => res == Result::<(Vec<Field>, usize), Error>::Err(e),
            Option::None => false,
        },
    decreases tape@.len() - pos, 1int,
{
    let ghost suf = tape@.skip(pos as int);
    let ghost f = sufficient_fuel(suf);
    proof {
        lemma_take_progress(suf, data@, f);
    }
    if pos == tape.len() {
        return Result::Err(Error::MalformedMapMissingKey);
    }
    proof {
        assert(suf[0] == tape@[pos as int]);
        assert(suf.drop_first() =~= tape@.skip(pos as int + 1));
        assert(tape_entry_in_bounds(tape@[pos as int], data@.len() as int));
    }
    let entry = tape[pos];
    match entry {
        Tape::DocumentEnd => {
            let fields: Vec<Field> = Vec::new();
            proof {
                assert(model_fields(fields@) =~= Seq::<FieldV>::empty());
            }
            Result::Ok((fields, pos + 1))
        },
        Tape::Key { start, len } => {
            let ghost suf1 = tape@.skip(pos as int + 1);
            proof {
                lemma_take_progress(suf1, data@, sufficient_fuel(suf1));
                lemma_take_fuel(suf1, data@, sufficient_fuel(suf1), (f - 1) as nat);
            }
            let (v, np) = match value_from_tape(tape, pos + 1, data) {
                Result::Err(e) => {
                    return Result::Err(e);
                },
                Result::Ok(p) => p,
            };
            let ghost suf2 = tape@.skip(np as int);
            proof {
                lemma_take_progress(suf2, data@, sufficient_fuel(suf2));
                lemma_take_fuel(suf2, data@, sufficient_fuel(suf2), (f - 1) as nat);
            }
            let (fields, np2) = match fields_from_tape(tape, np, data) {
                Result::Err(e) => {
                    return Result::Err(e);
                },
                Result::Ok(p) => p,
            };
            let dlen = data.len();
            proof {
                assert(tape@[pos as int] == Tape::Key { start, len });
                assert(start + len <= dlen);
            }
            let key_vec = slice_to_vec(&data[start..start + len]);
            let ghost fields0 = fields@;
            let mut fields = fields;
            fields.insert(0, Field { key: key_vec, value: v });
            proof {
                let fv = FieldV {
                    key: data@.subrange(start as int, start as int + len as int),
                    value: model_value(fields@[0].value),
                };
                assert(fields@ =~= seq![fields@[0]] + fields0);
                assert(fields@.subrange(1, fields@.len() as int) =~= fields0);
            }
            Result::Ok((fields, np2))
        },
        _ => Result::Err(Error::MalformedMapMissingKey),
    }
}

/// Sequence-shape consumption from `pos`: takes index keys and values until
/// the end marker, discarding the keys.
pub fn items_from_tape(tape: &[Tape], pos: usize, data: &[u8]) -> (res: Result<
    (Vec<Value>, usize),
    Error,
>)
    requires
        pos <= tape@.len(),
        tape_in_bounds(tape@, data@.len() as int),
    ensures
        match take_items(tape@.skip(pos as int), data@, sufficient_fuel(tape@.skip(pos as int))) {
            Option::Some(Result::Ok(p)) => res is Ok && model_values(res->Ok_0.0@) == p.0 && pos
                < res->Ok_0.1 <= tape@.len() && tape@.skip(res->Ok_0.1 as int) == p.1,
            Option::Some(Result::Err(e)) => res == Result::<(Vec<Value>, usize), Error>::Err(e),
            Option::None => false,
        },
    decreases tape@.len() - pos, 1int,
{
    let ghost suf = tape@.skip(pos as int);
    let ghost f = sufficient_fuel(suf);
    proof {
        lemma_take_progress(suf, data@, f);
    }
    if pos == tape.len() {
        return Result::Err(Error::MalformedMapMissingKey);
    }
    proof {
        assert(suf[0] == tape@[pos as int]);
        assert(suf.drop_first() =~= tape@.skip(pos as int + 1));
    }
    let entry = tape[pos];
    match entry {
        Tape::DocumentEnd => {
            let items: Vec<Value> = Vec::new();
            proof {
                assert(model_values(items@) =~= Seq::<ValueV>::empty());
            }
            Result::Ok((items, pos + 1))
        },
        Tape::Key { start: _, len: _ } => {
            let ghost suf1 = tape@.skip(pos as int + 1);
            proof {
                lemma_take_progress(suf1, data@, sufficient_fuel(suf1));
                lemma_take_fuel(suf1, data@, sufficient_fuel(suf1), (f - 1) as nat);
            }
            let (v, np) = match value_from_tape(tape, pos + 1, data) {
                Result::Err(e) => {
                    return Result::Err(e);
                },
                Result::Ok(p) => p,
            };
            let ghost suf2 = tape@.skip(np as int);
            proof {
                lemma_take_progress(suf2, data@, sufficient_fuel(suf2));
                lemma_take_fuel(suf2, data@, sufficient_fuel(suf2), (f - 1) as nat);
            }
            let (items, np2) = match items_from_tape(tape, np, data) {
                Result::Err(e) => {
                    return Result::Err(e);
                },
                Result::Ok(p) => p,
            };
            let ghost items0 = items@;
            let mut items = items;
            items.insert(0, v);
            proof {
                assert(items@ =~= seq![items@[0]] + items0);
                assert(items@.subrange(1, items@.len() as int) =~= items0);
            }
            Result::Ok((items, np2))
        },
        _ => Result::Err(Error::MalformedMapMissingKey),
    }
}

/// The form an enum value takes on the tape, as the entry opening it shows.
#[derive(Clone, Copy, Debug, PartialEq, Eq, Structural)]
pub enum VariantForm {
    /// A bare string: a unit variant, the string being the tag name.
    Unit,
    /// A document or array wrapper around one field whose key is the tag
    /// name and whose payload is the variant's contents — a newtype, tuple
    /// or struct variant, as the consumer's declared kind decides.
    Wrapped,
}

/// What `read_variant` answers at a given position: the variant tag name's
/// byte range in the input, the form, and the position of the payload.
pub open spec fn spec_read_variant(tape: Seq<Tape>, pos: int) -> Result<
    (usize, usize, VariantForm, usize),
    Error,
> {
    if pos >= tape.len() {
        Result::Err(Error::EndOfFile)
    } else {
        match tape[pos] {
            Tape::String { start, len } => Result::Ok(
                (start, len, VariantForm::Unit, (pos + 1) as usize),
            ),
            Tape::DocumentStart | Tape::ArrayStart => {
                if pos + 1 >= tape.len() {
                    Result::Err(Error::EndOfFile)
                } else {
                    match tape[pos + 1] {
                        Tape::Key { start, len } => Result::Ok(
                            (start, len, VariantForm::Wrapped, (pos + 2) as usize),
                        ),
                        Tape::DocumentEnd => Result::Err(Error::UnexpectedMapEnd),
                        _ => Result::Err(Error::UnexpectedEnum),
                    }
                }
            },
            _ => Result::Err(Error::UnexpectedEnum),
        }
    }
}

/// Enum-shape consumption, step one: the entry at `pos` selects the form.
/// A bare string is a unit variant and is consumed whole; a document or
/// array start introduces a wrapper whose sole key is the variant tag, and
/// the caller then consumes the payload after the returned position — as a
/// scalar request, sequence-shape or map-shape consumption, depending on the
/// variant kind it declared — and closes the wrapper with `close_variant`.
pub fn read_variant(tape: &[Tape], pos: usize) -> (r: Result<
    (usize, usize, VariantForm, usize),
    Error,
>)
    requires
        pos <= tape@.len(),
    ensures
        r == spec_read_variant(tape@, pos as int),
{
    if pos == tape.len() {
        return Result::Err(Error::EndOfFile);
    }
    match tape[pos] {
        Tape::String { start, len } => Result::Ok((start, len, VariantForm::Unit, pos + 1)),
        Tape::DocumentStart | Tape::ArrayStart => {
            if pos + 1 == tape.len() {
                return Result::Err(Error::EndOfFile);
            }
            match tape[pos + 1] {
                Tape::Key { start, len } => Result::Ok(
                    (start, len, VariantForm::Wrapped, pos + 2),
                ),
                Tape::DocumentEnd => Result::Err(Error::UnexpectedMapEnd),
                _ => Result::Err(Error::UnexpectedEnum),
            }
        },
        _ => Result::Err(Error::UnexpectedEnum),
    }
}

/// Enum-shape consumption, last step: after a wrapped variant's payload, the
/// wrapper's own end marker must follow.
pub fn close_variant(tape: &[Tape], pos: usize) -> (r: Result<usize, Error>)
    requires
        pos <= tape@.len(),
    ensures
        pos < tape@.len() && tape@[pos as int] is DocumentEnd ==> r == Result::<
            usize,
            Error,
        >::Ok((pos + 1) as usize),
        !(pos < tape@.len() && tape@[pos as int] is DocumentEnd) ==> r == Result::<
            usize,
            Error,
        >::Err(Error::UnexpectedMapEnd),
{
    if pos == tape.len() {
        return Result::Err(Error::UnexpectedMapEnd);
    }
    match tape[pos] {
        Tape::DocumentEnd => Result::Ok(pos + 1),
        _ => Result::Err(Error::UnexpectedMapEnd),
    }
}

/// Decodes one complete document from the front of `data` into a value:
/// builds the tape in one pass, then takes one value from the tape's front.
/// Excess bytes beyond the declared length are ignored, as is any tape
/// beyond the first value.
pub fn from_bytes(data: &[u8]) -> (r: Result<Value, Error>)
    ensures
        match spec_from_bytes(data@) {
            Result::Ok(v) => r is Ok && model_value(r->Ok_0) == v,
            Result::Err(e) => r == Result::<Value, Error>::Err(e),
        },
{
    let mut bump = crate::arena::bump_new();
    from_bytes_in(&mut bump, data)
}

/// Decodes as `from_bytes`, drawing the tape's backing storage from the
/// caller's reusable arena. The arena is reset — not merely cleared — at
/// the start of the call, so nothing from a previous decode leaks in; and
/// nothing of the tape outlives the call — only the decoded value escapes.
pub fn from_bytes_in(bump: &mut bumpalo::Bump, data: &[u8]) -> (r: Result<Value, Error>)
    ensures
        match spec_from_bytes(data@) {
            Result::Ok(v) => r is Ok && model_value(r->Ok_0) == v,
            Result::Err(e) => r == Result::<Value, Error>::Err(e),
        },
{
    crate::arena::bump_reset(bump);
    let tape = match to_tape(bump, data) {
        Result::Err(e) => {
            return Result::Err(e);
        },
        Result::Ok(t) => t,
    };
    let entries = crate::arena::tape_vec_as_slice(&tape);
    proof {
        assert(entries@.skip(0) =~= entries@);
        lemma_take_progress(entries@, data@, sufficient_fuel(entries@));
    }
    match value_from_tape(entries, 0, data) {
        Result::Err(e) => Result::Err(e),
        Result::Ok((v, _np)) => Result::Ok(v),
    }
}

} // verus!
