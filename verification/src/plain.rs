//! The non-atomic fast path: single-bit mutation of one storage element held
//! through an exclusive borrow.
//!
//! When a container can prove that no other live reference aliases a storage
//! element, it may mutate bits through a plain read-modify-write instead of
//! the synchronized path. Both paths compute the identical mask through the
//! same [`Cursor`] translation and carry the same contracts, so under
//! non-concurrent use they are behaviorally indistinguishable. The element is
//! carried as its value zero-extended to 64 bits and must fit the width of
//! the position handed in.

use vstd::prelude::*;
use crate::cursor::{lemma_and_shrinks, lemma_or_fits, lemma_xor_fits, Cursor};
use crate::index::BitIdx;

verus! {

/// Sets the bit at position `bit` to `0` by a plain read-modify-write.
pub fn plain_clear(e: &mut u64, c: Cursor, bit: BitIdx)
    requires
        bit.wf(),
        *old(e) <= bit.spec_width().spec_max(),
    ensures
        *final(e) == *old(e) & !c.spec_mask(bit.spec_width(), bit.spec_val() as u64),
        *final(e) <= bit.spec_width().spec_max(),
{
    let m = c.mask(bit);
    proof {
        lemma_and_shrinks(*e, !m);
    }
    *e = *e & !m;
}

/// Sets the bit at position `bit` to `1` by a plain read-modify-write.
pub fn plain_set(e: &mut u64, c: Cursor, bit: BitIdx)
    requires
        bit.wf(),
        *old(e) <= bit.spec_width().spec_max(),
    ensures
        *final(e) == *old(e) | c.spec_mask(bit.spec_width(), bit.spec_val() as u64),
        *final(e) <= bit.spec_width().spec_max(),
{
    let m = c.mask(bit);
    proof {
        lemma_or_fits(bit.spec_width(), *e, m);
    }
    *e = *e | m;
}

/// Inverts the bit at position `bit` by a plain read-modify-write.
pub fn plain_invert(e: &mut u64, c: Cursor, bit: BitIdx)
    requires
        bit.wf(),
        *old(e) <= bit.spec_width().spec_max(),
    ensures
        *final(e) == *old(e) ^ c.spec_mask(bit.spec_width(), bit.spec_val() as u64),
        *final(e) <= bit.spec_width().spec_max(),
{
    let m = c.mask(bit);
    proof {
        lemma_xor_fits(bit.spec_width(), *e, m);
    }
    *e = *e ^ m;
}

/// Reads the whole element through the plain path.
pub fn plain_get(e: &u64) -> (r: u64)
    ensures
        r == *e,
{
    *e
}

} // verus!
