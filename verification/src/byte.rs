//! The buffer capability set every output sink must provide: append
//! primitives, a length query, an indexed byte patch, and ownership-moving
//! split/merge used to build nested documents outward-in.
//!
//! Two sinks implement it: the real growable buffer `bytes::BytesMut`, and
//! [`CountingBytes`], which only counts the bytes it is handed, so one
//! serialization algorithm can run in "measure" or "emit" mode.

use vstd::prelude::*;

use crate::le_bytes::{i32_le_bytes, i64_le_bytes, u64_le_bytes};
use bytes::BufMut;

verus! {

#[verifier::external_type_specification]
#[verifier::external_body]
pub struct ExBytesMut(bytes::BytesMut);

/// The bytes a `bytes::BytesMut` currently holds, in order.
pub uninterp spec fn bytes_mut_contents(b: bytes::BytesMut) -> Seq<u8>;

/// Relies on `BytesMut::len`: the number of bytes the buffer holds.
#[verifier::external_body]
fn bm_len(b: &bytes::BytesMut) -> (r: usize)
    ensures
        r == bytes_mut_contents(*b).len(),
{
    b.len()
}

/// Relies on `BufMut::put_u8` for `BytesMut`: appends one byte.
#[verifier::external_body]
fn bm_put_u8(b: &mut bytes::BytesMut, v: u8)
    ensures
        bytes_mut_contents(*final(b)) == bytes_mut_contents(*old(b)).push(v),
{
    BufMut::put_u8(b, v)
}

/// Relies on `BufMut::put_i32_le` for `BytesMut`: appends the four bytes of
/// `v` in little-endian order.
#[verifier::external_body]
fn bm_put_i32_le(b: &mut bytes::BytesMut, v: i32)
    ensures
        bytes_mut_contents(*final(b)) == bytes_mut_contents(*old(b)) + i32_le_bytes(v),
{
    BufMut::put_i32_le(b, v)
}

/// Relies on `BufMut::put_i64_le` for `BytesMut`: appends the eight bytes of
/// `v` in little-endian order.
#[verifier::external_body]
fn bm_put_i64_le(b: &mut bytes::BytesMut, v: i64)
    ensures
        bytes_mut_contents(*final(b)) == bytes_mut_contents(*old(b)) + i64_le_bytes(v),
{
    BufMut::put_i64_le(b, v)
}

/// Relies on `BufMut::put_u64_le` for `BytesMut`: appends the eight bytes of
/// `v` in little-endian order.
#[verifier::external_body]
fn bm_put_u64_le(b: &mut bytes::BytesMut, v: u64)
    ensures
        bytes_mut_contents(*final(b)) == bytes_mut_contents(*old(b)) + u64_le_bytes(v),
{
    BufMut::put_u64_le(b, v)
}

/// Relies on `BufMut::put_slice` for `BytesMut`: appends a copy of `s`.
#[verifier::external_body]
fn bm_put_slice(b: &mut bytes::BytesMut, s: &[u8])
    ensures
        bytes_mut_contents(*final(b)) == bytes_mut_contents(*old(b)) + s@,
{
    BufMut::put_slice(b, s)
}

/// Relies on `BytesMut::split_off`: called at the buffer's length, it
/// detaches an empty suffix that shares the parent's allocation, leaving the
/// parent's bytes unchanged.
#[verifier::external_body]
fn bm_split_off(b: &mut bytes::BytesMut, at: usize) -> (r: bytes::BytesMut)
    requires
        at == bytes_mut_contents(*old(b)).len(),
    ensures
        bytes_mut_contents(*final(b)) == bytes_mut_contents(*old(b)),
        bytes_mut_contents(r) == Seq::<u8>::empty(),
{
    b.split_off(at)
}

/// Relies on `BytesMut::unsplit`: appends the other buffer's bytes, in
/// amortized O(1) when `other` descends from a `split_off` of this buffer.
#[verifier::external_body]
fn bm_unsplit(b: &mut bytes::BytesMut, other: bytes::BytesMut)
    ensures
        bytes_mut_contents(*final(b)) == bytes_mut_contents(*old(b)) + bytes_mut_contents(other),
{
    b.unsplit(other)
}

/// Relies on `BytesMut`'s `DerefMut` to `[u8]`: overwrites one previously
/// written byte in place.
#[verifier::external_body]
fn bm_set_byte(b: &mut bytes::BytesMut, at: usize, v: u8)
    requires
        at < bytes_mut_contents(*old(b)).len(),
    ensures
        bytes_mut_contents(*final(b)) == bytes_mut_contents(*old(b)).update(at as int, v),
{
    b[at] = v;
}

/// Relies on `BytesMut::reserve`: grows capacity only, the bytes held are
/// unchanged.
#[verifier::external_body]
pub fn bm_reserve(b: &mut bytes::BytesMut, additional: usize)
    ensures
        bytes_mut_contents(*final(b)) == bytes_mut_contents(*old(b)),
{
    b.reserve(additional)
}

/// The capability set the serializer needs from an output sink.
///
/// `contents` is the mathematical value of the sink: the byte sequence it
/// would hold if it stored its input. The real buffer stores exactly that
/// sequence; the counting sink tracks only its length.
pub trait BytesLikeBuf: Sized {
    /// The bytes this sink has accepted, in order.
    spec fn contents(&self) -> Seq<u8>;

    /// The sink's internal well-formedness.
    spec fn inv(&self) -> bool;

    /// Appends one byte.
    fn put_u8(&mut self, v: u8)
        requires
            old(self).inv(),
            old(self).contents().len() + 1 <= usize::MAX,
        ensures
            final(self).inv(),
            final(self).contents() == old(self).contents().push(v),
    ;

    /// Appends the four little-endian bytes of `v`.
    fn put_i32_le(&mut self, v: i32)
        requires
            old(self).inv(),
            old(self).contents().len() + 4 <= usize::MAX,
        ensures
            final(self).inv(),
            final(self).contents() == old(self).contents() + i32_le_bytes(v),
    ;

    /// Appends the eight little-endian bytes of `v`.
    fn put_i64_le(&mut self, v: i64)
        requires
            old(self).inv(),
            old(self).contents().len() + 8 <= usize::MAX,
        ensures
            final(self).inv(),
            final(self).contents() == old(self).contents() + i64_le_bytes(v),
    ;

    /// Appends the eight little-endian bytes of `v`.
    fn put_u64_le(&mut self, v: u64)
        requires
            old(self).inv(),
            old(self).contents().len() + 8 <= usize::MAX,
        ensures
            final(self).inv(),
            final(self).contents() == old(self).contents() + u64_le_bytes(v),
    ;

    /// Appends a copy of `s`.
    fn put_slice(&mut self, s: &[u8])
        requires
            old(self).inv(),
            old(self).contents().len() + s@.len() <= usize::MAX,
        ensures
            final(self).inv(),
            final(self).contents() == old(self).contents() + s@,
    ;

    /// Detaches an empty, independently owned suffix at the buffer's end;
    /// future writes populate it until `unsplit` merges it back.
    fn split_off(&mut self, at: usize) -> (r: Self)
        requires
            old(self).inv(),
            at == old(self).contents().len(),
        ensures
            final(self).inv(),
            final(self).contents() == old(self).contents(),
            r.inv(),
            r.contents() == Seq::<u8>::empty(),
    ;

    /// Merges a previously split-off buffer back onto the tail.
    fn unsplit(&mut self, other: Self)
        requires
            old(self).inv(),
            other.inv(),
            old(self).contents().len() + other.contents().len() <= usize::MAX,
        ensures
            final(self).inv(),
            final(self).contents() == old(self).contents() + other.contents(),
    ;

    /// The number of bytes accepted so far.
    fn len(&self) -> (r: usize)
        requires
            self.inv(),
        ensures
            r == self.contents().len(),
    ;

    /// Patches one previously written byte (used only to fill in reserved
    /// length fields).
    fn set_byte(&mut self, at: usize, v: u8)
        requires
            old(self).inv(),
            at < old(self).contents().len(),
        ensures
            final(self).inv(),
            final(self).contents() == old(self).contents().update(at as int, v),
    ;
}

impl BytesLikeBuf for bytes::BytesMut {
    open spec fn contents(&self) -> Seq<u8> {
        bytes_mut_contents(*self)
    }

    open spec fn inv(&self) -> bool {
        true
    }

    fn put_u8(&mut self, v: u8) {
        bm_put_u8(self, v)
    }

    fn put_i32_le(&mut self, v: i32) {
        bm_put_i32_le(self, v)
    }

    fn put_i64_le(&mut self, v: i64) {
        bm_put_i64_le(self, v)
    }

    fn put_u64_le(&mut self, v: u64) {
        bm_put_u64_le(self, v)
    }

    fn put_slice(&mut self, s: &[u8]) {
        bm_put_slice(self, s)
    }

    fn split_off(&mut self, at: usize) -> (r: Self) {
        bm_split_off(self, at)
    }

    fn unsplit(&mut self, other: Self) {
        bm_unsplit(self, other)
    }

    fn len(&self) -> (r: usize) {
        bm_len(self)
    }

    fn set_byte(&mut self, at: usize, v: u8) {
        bm_set_byte(self, at, v)
    }
}

/// A sink whose every append only increments a counter: running the
/// serializer against it computes the exact encoded size without allocating.
///
/// The `shadow` field is ghost state recording the bytes the sink would hold
/// if it stored its input; it ties the counter to the same contract the real
/// buffer meets, and compiles to nothing.
pub struct CountingBytes {
    pub bytes: usize,
    pub shadow: Ghost<Seq<u8>>,
}

impl CountingBytes {
    /// A fresh counter at zero.
    pub fn new() -> (r: Self)
        ensures
            r.inv(),
            r.contents() == Seq::<u8>::empty(),
            r.bytes == 0,
    {
        CountingBytes { bytes: 0, shadow: Ghost(Seq::empty()) }
    }
}

impl Default for CountingBytes {
    fn default() -> (r: Self)
        ensures
            r.inv(),
            r.contents() == Seq::<u8>::empty(),
            r.bytes == 0,
    {
        CountingBytes::new()
    }
}

impl BytesLikeBuf for CountingBytes {
    open spec fn contents(&self) -> Seq<u8> {
        self.shadow@
    }

    open spec fn inv(&self) -> bool {
        self.bytes == self.shadow@.len()
    }

    fn put_u8(&mut self, v: u8) {
        self.bytes = self.bytes + 1;
        self.shadow = Ghost(self.shadow@.push(v));
    }

    fn put_i32_le(&mut self, v: i32) {
        self.bytes = self.bytes + 4;
        self.shadow = Ghost(self.shadow@ + i32_le_bytes(v));
    }

    fn put_i64_le(&mut self, v: i64) {
        self.bytes = self.bytes + 8;
        self.shadow = Ghost(self.shadow@ + i64_le_bytes(v));
    }

    fn put_u64_le(&mut self, v: u64) {
        self.bytes = self.bytes + 8;
        self.shadow = Ghost(self.shadow@ + u64_le_bytes(v));
    }

    fn put_slice(&mut self, s: &[u8]) {
        self.bytes = self.bytes + s.len();
        self.shadow = Ghost(self.shadow@ + s@);
    }

    fn split_off(&mut self, at: usize) -> (r: Self) {
        CountingBytes { bytes: 0, shadow: Ghost(Seq::empty()) }
    }

    fn unsplit(&mut self, other: Self) {
        self.bytes = self.bytes + other.bytes;
        self.shadow = Ghost(self.shadow@ + other.shadow@);
    }

    fn len(&self) -> (r: usize) {
        self.bytes
    }

    fn set_byte(&mut self, at: usize, v: u8) {
        self.shadow = Ghost(self.shadow@.update(at as int, v));
    }
}

} // verus!
