//! The decode-side scratch arena: the tape's backing storage is drawn from a
//! reusable bump allocator whose lifetime is scoped to one decode call and
//! which is reset — not merely cleared — before each call begins.

use vstd::prelude::*;

use crate::de::Tape;

verus! {

#[verifier::external_type_specification]
#[verifier::external_body]
pub struct ExBump<const MIN_ALIGN: usize>(bumpalo::Bump<MIN_ALIGN>);

#[verifier::external_type_specification]
#[verifier::external_body]
#[verifier::reject_recursive_types(T)]
pub struct ExBumpVec<'a, T>(bumpalo::collections::Vec<'a, T>);

/// The entries an arena-backed tape vector holds, in order.
pub uninterp spec fn bump_tape_view(v: bumpalo::collections::Vec<'_, Tape>) -> Seq<Tape>;

/// Relies on `bumpalo::Bump::new`: a fresh, empty arena.
#[verifier::external_body]
pub fn bump_new() -> bumpalo::Bump {
    bumpalo::Bump::new()
}

/// Relies on `bumpalo::Bump::reset`: returns every allocation to the arena,
/// so no data from a previous decode call leaks into the next.
#[verifier::external_body]
pub fn bump_reset(bump: &mut bumpalo::Bump) {
    bump.reset()
}

/// Relies on `bumpalo::collections::Vec::new_in`: an empty vector backed by
/// the arena.
#[verifier::external_body]
pub(crate) fn tape_vec_new_in<'a>(bump: &'a bumpalo::Bump) -> (r: bumpalo::collections::Vec<
    'a,
    Tape,
>)
    ensures
        bump_tape_view(r) == Seq::<Tape>::empty(),
{
    bumpalo::collections::Vec::new_in(bump)
}

/// Relies on `bumpalo::collections::Vec::push`: appends one entry.
#[verifier::external_body]
pub(crate) fn tape_vec_push<'a>(v: &mut bumpalo::collections::Vec<'a, Tape>, t: Tape)
    ensures
        bump_tape_view(*final(v)) == bump_tape_view(*old(v)).push(t),
{
    v.push(t)
}

/// Relies on `bumpalo::collections::Vec`'s `Deref` to `[Tape]`: the vector's
/// entries as a slice.
#[verifier::external_body]
pub fn tape_vec_as_slice<'a, 'b>(v: &'a bumpalo::collections::Vec<'b, Tape>) -> (r: &'a [Tape])
    ensures
        r@ == bump_tape_view(*v),
{
    &v[..]
}

} // verus!
