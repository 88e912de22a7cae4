//! Bit-ordering policies: the sole authority translating a validated bit
//! position into a concrete single-bit mask.

use vstd::prelude::*;
use crate::index::{BitIdx, BitWidth};

verus! {

/// A bit-ordering policy. `BigEndian` numbers positions from the most
/// significant bit down; `LittleEndian` numbers them from the least
/// significant bit up.
#[derive(Clone, Copy, PartialEq, Eq, Debug)]
pub enum Cursor {
    BigEndian,
    LittleEndian,
}

impl Cursor {
    /// The physical bit (distance from the least significant end) that this
    /// policy assigns to logical position `p` in a `w`-bit element.
    pub open spec fn spec_pos(self, w: BitWidth, p: u64) -> u64
        recommends
            p < w.spec_bits(),
    {
        match self {
            Cursor::LittleEndian => p,
            Cursor::BigEndian => (w.spec_bits() - 1 - p) as u64,
        }
    }

    /// The single-bit mask this policy assigns to logical position `p` in a
    /// `w`-bit element, zero-extended to 64 bits.
    pub open spec fn spec_mask(self, w: BitWidth, p: u64) -> u64
        recommends
            p < w.spec_bits(),
    {
        1u64 << self.spec_pos(w, p)
    }

    /// Computes the mask for a validated position.
    pub fn mask(self, idx: BitIdx) -> (m: u64)
        requires
            idx.wf(),
        ensures
            m == self.spec_mask(idx.spec_width(), idx.spec_val() as u64),
            m != 0,
            m <= idx.spec_width().spec_max(),
    {
        let w = idx.width();
        let p = idx.value();
        let sh: u64 = match self {
            Cursor::LittleEndian => p as u64,
            Cursor::BigEndian => (w.bits() - 1 - p) as u64,
        };
        proof {
            lemma_mask_fits(self, idx.spec_width(), idx.spec_val() as u64);
        }
        1u64 << sh
    }
}

/// True when exactly one bit of `m` is set.
pub open spec fn one_bit(m: u64) -> bool {
    m != 0 && (m & ((m - 1) as u64)) == 0
}

/// The bit of element value `e` at logical position `p` under policy `c`.
pub open spec fn elem_bit(c: Cursor, w: BitWidth, e: u64, p: u64) -> bool {
    e & c.spec_mask(w, p) != 0
}

/// The mask of a valid position is nonzero and fits the element width.
pub proof fn lemma_mask_fits(c: Cursor, w: BitWidth, p: u64)
    requires
        p < w.spec_bits(),
    ensures
        c.spec_mask(w, p) != 0,
        c.spec_mask(w, p) <= w.spec_max(),
{
    let sh = c.spec_pos(w, p);
    assert(sh < w.spec_bits());
    match w {
        BitWidth::W8 => {
            assert(sh < 8 ==> (1u64 << sh != 0 && 1u64 << sh <= 0xff)) by (bit_vector);
        }
        BitWidth::W16 => {
            assert(sh < 16 ==> (1u64 << sh != 0 && 1u64 << sh <= 0xffff)) by (bit_vector);
        }
        BitWidth::W32 => {
            assert(sh < 32 ==> (1u64 << sh != 0 && 1u64 << sh <= 0xffff_ffff)) by (bit_vector);
        }
        BitWidth::W64 => {
            assert(sh < 64 ==> (1u64 << sh != 0 && 1u64 << sh <= 0xffff_ffff_ffff_ffff))
                by (bit_vector);
        }
    }
}

/// Law: each policy assigns distinct physical bits to distinct positions.
pub proof fn lemma_pos_injective(c: Cursor, w: BitWidth, p1: u64, p2: u64)
    requires
        p1 < w.spec_bits(),
        p2 < w.spec_bits(),
        p1 != p2,
    ensures
        c.spec_pos(w, p1) != c.spec_pos(w, p2),
{
}

/// Law: the mask of every valid position has exactly one bit set, under each
/// policy independently.
pub proof fn lemma_mask_one_bit(c: Cursor, w: BitWidth, p: u64)
    requires
        p < w.spec_bits(),
    ensures
        one_bit(c.spec_mask(w, p)),
{
    let sh = c.spec_pos(w, p);
    assert(sh < w.spec_bits());
    assert(sh < 64 ==> (1u64 << sh != 0 && ((1u64 << sh) & (((1u64 << sh) - 1) as u64)) == 0))
        by (bit_vector);
}

/// Law: distinct positions yield distinct masks — together with
/// `lemma_pos_surjective`, the mapping from positions to single-bit masks is
/// a bijection over `[0, W)`, under each policy independently.
pub proof fn lemma_mask_injective(c: Cursor, w: BitWidth, p1: u64, p2: u64)
    requires
        p1 < w.spec_bits(),
        p2 < w.spec_bits(),
        p1 != p2,
    ensures
        c.spec_mask(w, p1) != c.spec_mask(w, p2),
{
    lemma_pos_injective(c, w, p1, p2);
    let s1 = c.spec_pos(w, p1);
    let s2 = c.spec_pos(w, p2);
    assert(s1 < 64 && s2 < 64 && s1 != s2 ==> 1u64 << s1 != 1u64 << s2) by (bit_vector);
}

/// Law: every physical bit of the element is reachable from some position.
pub proof fn lemma_pos_surjective(c: Cursor, w: BitWidth, k: u64)
    requires
        k < w.spec_bits(),
    ensures
        exists|p: u64| p < w.spec_bits() && c.spec_pos(w, p) == k,
{
    let p = match c {
        Cursor::LittleEndian => k,
        Cursor::BigEndian => (w.spec_bits() - 1 - k) as u64,
    };
    assert(p < w.spec_bits() && c.spec_pos(w, p) == k);
}

/// Law: masks of distinct positions select disjoint bits.
pub proof fn lemma_mask_disjoint(c: Cursor, w: BitWidth, p1: u64, p2: u64)
    requires
        p1 < w.spec_bits(),
        p2 < w.spec_bits(),
        p1 != p2,
    ensures
        c.spec_mask(w, p1) & c.spec_mask(w, p2) == 0,
{
    lemma_pos_injective(c, w, p1, p2);
    let s1 = c.spec_pos(w, p1);
    let s2 = c.spec_pos(w, p2);
    assert(s1 < 64 && s2 < 64 && s1 != s2 ==> (1u64 << s1) & (1u64 << s2) == 0) by (bit_vector);
}

/// Law: raising the bit at position `p` shows that bit as set and leaves
/// every other position unchanged.
pub proof fn lemma_set_bit(c: Cursor, w: BitWidth, e: u64, p: u64, q: u64)
    requires
        p < w.spec_bits(),
        q < w.spec_bits(),
    ensures
        elem_bit(c, w, e | c.spec_mask(w, p), p),
        q != p ==> elem_bit(c, w, e | c.spec_mask(w, p), q) == elem_bit(c, w, e, q),
{
    let sp = c.spec_pos(w, p);
    let sq = c.spec_pos(w, q);
    if q != p {
        lemma_pos_injective(c, w, p, q);
    }
    assert(sp < 64 ==> (e | (1u64 << sp)) & (1u64 << sp) != 0) by (bit_vector);
    assert(sp != sq ==> ((e | (1u64 << sp)) & (1u64 << sq) != 0) == (e & (1u64 << sq) != 0))
        by (bit_vector);
}

/// Law: lowering the bit at position `p` shows that bit as cleared and leaves
/// every other position unchanged.
pub proof fn lemma_clear_bit(c: Cursor, w: BitWidth, e: u64, p: u64, q: u64)
    requires
        p < w.spec_bits(),
        q < w.spec_bits(),
    ensures
        !elem_bit(c, w, e & !c.spec_mask(w, p), p),
        q != p ==> elem_bit(c, w, e & !c.spec_mask(w, p), q) == elem_bit(c, w, e, q),
{
    let sp = c.spec_pos(w, p);
    let sq = c.spec_pos(w, q);
    if q != p {
        lemma_pos_injective(c, w, p, q);
    }
    assert((e & !(1u64 << sp)) & (1u64 << sp) == 0) by (bit_vector);
    assert(sp != sq ==> ((e & !(1u64 << sp)) & (1u64 << sq) != 0) == (e & (1u64 << sq) != 0))
        by (bit_vector);
}

/// Law: inverting the bit at position `p` flips that bit and leaves every
/// other position unchanged.
pub proof fn lemma_invert_bit(c: Cursor, w: BitWidth, e: u64, p: u64, q: u64)
    requires
        p < w.spec_bits(),
        q < w.spec_bits(),
    ensures
        elem_bit(c, w, e ^ c.spec_mask(w, p), p) == !elem_bit(c, w, e, p),
        q != p ==> elem_bit(c, w, e ^ c.spec_mask(w, p), q) == elem_bit(c, w, e, q),
{
    let sp = c.spec_pos(w, p);
    let sq = c.spec_pos(w, q);
    if q != p {
        lemma_pos_injective(c, w, p, q);
    }
    assert(sp < 64 ==> ((e ^ (1u64 << sp)) & (1u64 << sp) != 0) == !(e & (1u64 << sp) != 0))
        by (bit_vector);
    assert(sp != sq ==> ((e ^ (1u64 << sp)) & (1u64 << sq) != 0) == (e & (1u64 << sq) != 0))
        by (bit_vector);
}

/// Or-ing two values that fit a width yields a value that fits the width.
pub proof fn lemma_or_fits(w: BitWidth, a: u64, b: u64)
    requires
        a <= w.spec_max(),
        b <= w.spec_max(),
    ensures
        (a | b) <= w.spec_max(),
{
    match w {
        BitWidth::W8 => {
            assert(a <= 0xff && b <= 0xff ==> (a | b) <= 0xff) by (bit_vector);
        }
        BitWidth::W16 => {
            assert(a <= 0xffff && b <= 0xffff ==> (a | b) <= 0xffff) by (bit_vector);
        }
        BitWidth::W32 => {
            assert(a <= 0xffff_ffff && b <= 0xffff_ffff ==> (a | b) <= 0xffff_ffff)
                by (bit_vector);
        }
        BitWidth::W64 => {
        }
    }
}

/// Xor-ing two values that fit a width yields a value that fits the width.
pub proof fn lemma_xor_fits(w: BitWidth, a: u64, b: u64)
    requires
        a <= w.spec_max(),
        b <= w.spec_max(),
    ensures
        (a ^ b) <= w.spec_max(),
{
    match w {
        BitWidth::W8 => {
            assert(a <= 0xff && b <= 0xff ==> (a ^ b) <= 0xff) by (bit_vector);
        }
        BitWidth::W16 => {
            assert(a <= 0xffff && b <= 0xffff ==> (a ^ b) <= 0xffff) by (bit_vector);
        }
        BitWidth::W32 => {
            assert(a <= 0xffff_ffff && b <= 0xffff_ffff ==> (a ^ b) <= 0xffff_ffff)
                by (bit_vector);
        }
        BitWidth::W64 => {
        }
    }
}

/// And-ing anything into a value never makes it larger.
pub proof fn lemma_and_shrinks(a: u64, b: u64)
    ensures
        (a & b) <= a,
{
    assert((a & b) <= a) by (bit_vector);
}

/// Every bit of the zero element reads as unset.
pub proof fn lemma_zero_bit(c: Cursor, w: BitWidth, p: u64)
    ensures
        !elem_bit(c, w, 0, p),
{
    let m = c.spec_mask(w, p);
    assert(0u64 & m == 0) by (bit_vector);
}

/// Law: inverting the same bit twice with no intervening writes restores the
/// original element value.
pub proof fn lemma_invert_twice(e: u64, m: u64)
    ensures
        (e ^ m) ^ m == e,
{
    assert((e ^ m) ^ m == e) by (bit_vector);
}

} // verus!
