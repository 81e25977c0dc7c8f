//! Little-endian byte sequences for the fixed-width integers of the document
//! format, and decimal digit strings for array indices.

use vstd::prelude::*;

verus! {

/// The four bytes of `v` in little-endian order.
pub open spec fn u32_le_bytes(v: u32) -> Seq<u8> {
    seq![
        (v % 0x100) as u8,
        ((v / 0x100) % 0x100) as u8,
        ((v / 0x10000) % 0x100) as u8,
        ((v / 0x1000000) % 0x100) as u8,
    ]
}

/// The eight bytes of `v` in little-endian order.
pub open spec fn u64_le_bytes(v: u64) -> Seq<u8> {
    seq![
        (v % 0x100) as u8,
        ((v / 0x100) % 0x100) as u8,
        ((v / 0x10000) % 0x100) as u8,
        ((v / 0x1000000) % 0x100) as u8,
        ((v / 0x100000000) % 0x100) as u8,
        ((v / 0x10000000000) % 0x100) as u8,
        ((v / 0x1000000000000) % 0x100) as u8,
        ((v / 0x100000000000000) % 0x100) as u8,
    ]
}

/// A signed 32-bit integer is written as the little-endian bytes of its
/// two's-complement bit pattern.
pub open spec fn i32_le_bytes(v: i32) -> Seq<u8> {
    u32_le_bytes(v as u32)
}

/// A signed 64-bit integer is written as the little-endian bytes of its
/// two's-complement bit pattern.
pub open spec fn i64_le_bytes(v: i64) -> Seq<u8> {
    u64_le_bytes(v as u64)
}

/// The unsigned value read from four little-endian bytes of `data` starting
/// at `pos`.
pub open spec fn le32_at(data: Seq<u8>, pos: int) -> int
    recommends
        0 <= pos,
        pos + 4 <= data.len(),
{
    data[pos] + data[pos + 1] * 0x100 + data[pos + 2] * 0x10000 + data[pos + 3] * 0x1000000
}

/// The unsigned value read from eight little-endian bytes of `data` starting
/// at `pos`.
pub open spec fn le64_at(data: Seq<u8>, pos: int) -> int
    recommends
        0 <= pos,
        pos + 8 <= data.len(),
{
    data[pos] + data[pos + 1] * 0x100 + data[pos + 2] * 0x10000 + data[pos + 3] * 0x1000000
        + data[pos + 4] * 0x100000000 + data[pos + 5] * 0x10000000000
        + data[pos + 6] * 0x1000000000000 + data[pos + 7] * 0x100000000000000
}

/// Reading back the four little-endian bytes of `v` gives `v`.
pub proof fn lemma_u32_le_round_trip(v: u32)
    ensures
        le32_at(u32_le_bytes(v), 0) == v,
{
    assert(v % 0x100 + (v / 0x100 % 0x100) * 0x100 + (v / 0x10000 % 0x100) * 0x10000
        + (v / 0x1000000 % 0x100) * 0x1000000 == v) by (bit_vector);
}

/// Reading back the eight little-endian bytes of `v` gives `v`.
pub proof fn lemma_u64_le_round_trip(v: u64)
    ensures
        le64_at(u64_le_bytes(v), 0) == v,
{
    assert(v % 0x100 + (v / 0x100 % 0x100) * 0x100 + (v / 0x10000 % 0x100) * 0x10000
        + (v / 0x1000000 % 0x100) * 0x1000000 + (v / 0x100000000 % 0x100) * 0x100000000
        + (v / 0x10000000000 % 0x100) * 0x10000000000
        + (v / 0x1000000000000 % 0x100) * 0x1000000000000
        + (v / 0x100000000000000 % 0x100) * 0x100000000000000 == v) by (bit_vector);
}

/// Reads an unsigned 32-bit little-endian integer from `data` at `pos`.
pub fn read_u32_le(data: &[u8], pos: usize) -> (r: u32)
    requires
        pos + 4 <= data@.len(),
    ensures
        r == le32_at(data@, pos as int),
{
    let b0 = data[pos] as u32;
    let b1 = data[pos + 1] as u32;
    let b2 = data[pos + 2] as u32;
    let b3 = data[pos + 3] as u32;
    b0 + b1 * 0x100 + b2 * 0x10000 + b3 * 0x1000000
}

/// Reads an unsigned 64-bit little-endian integer from `data` at `pos`.
pub fn read_u64_le(data: &[u8], pos: usize) -> (r: u64)
    requires
        pos + 8 <= data@.len(),
    ensures
        r == le64_at(data@, pos as int),
{
    let b0 = data[pos] as u64;
    let b1 = data[pos + 1] as u64;
    let b2 = data[pos + 2] as u64;
    let b3 = data[pos + 3] as u64;
    let b4 = data[pos + 4] as u64;
    let b5 = data[pos + 5] as u64;
    let b6 = data[pos + 6] as u64;
    let b7 = data[pos + 7] as u64;
    b0 + b1 * 0x100 + b2 * 0x10000 + b3 * 0x1000000 + b4 * 0x100000000 + b5 * 0x10000000000
        + b6 * 0x1000000000000 + b7 * 0x100000000000000
}

/// The decimal digit string of `n`, most significant digit first.
pub open spec fn dec_digits(n: nat) -> Seq<u8>
    decreases n,
{
    if n < 10 {
        seq![(0x30 + n) as u8]
    } else {
        dec_digits(n / 10) + seq![(0x30 + n % 10) as u8]
    }
}

/// Powers of ten.
pub open spec fn pow10(k: nat) -> nat
    decreases k,
{
    if k == 0 {
        1
    } else {
        10 * pow10((k - 1) as nat)
    }
}

proof fn lemma_dec_digits_len_bound(n: nat, k: nat)
    requires
        n < pow10(k),
        k >= 1,
    ensures
        dec_digits(n).len() <= k,
    decreases n,
{
    if n >= 10 {
        assert(pow10(k) == 10 * pow10((k - 1) as nat));
        lemma_dec_digits_len_bound(n / 10, (k - 1) as nat);
    }
}

/// A `usize` value has at most 20 decimal digits.
pub proof fn lemma_dec_digits_len(n: nat)
    requires
        n <= u64::MAX,
    ensures
        1 <= dec_digits(n).len() <= 20,
{
    assert(pow10(20) == 0x56bc75e2d63100000) by {
        reveal_with_fuel(pow10, 21);
    }
    lemma_dec_digits_len_bound(n, 20);
}

/// Every decimal digit byte is in `0x30 ..= 0x39`; in particular no digit
/// string contains a NUL byte.
pub proof fn lemma_dec_digits_no_nul(n: nat)
    ensures
        forall|i: int| 0 <= i < dec_digits(n).len() ==> 0x30 <= #[trigger] dec_digits(n)[i] <= 0x39,
    decreases n,
{
    if n >= 10 {
        lemma_dec_digits_no_nul(n / 10);
        assert forall|i: int| 0 <= i < dec_digits(n).len() implies 0x30 <= #[trigger] dec_digits(
            n,
        )[i] <= 0x39 by {
            if i < dec_digits(n / 10).len() {
                assert(dec_digits(n)[i] == dec_digits(n / 10)[i]);
            } else {
                assert(dec_digits(n)[i] == (0x30 + n % 10) as u8);
            }
        }
    }
}

} // verus!
