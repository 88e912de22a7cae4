//! Synchronized single-bit access to one storage element.
//!
//! Splitting a packed bit sequence can leave two independent ranges sharing
//! one storage element. A plain read-modify-write of a single bit then races
//! with the other range's writers, because hardware writes whole elements.
//! Every mutator here is therefore issued as one hardware atomic
//! fetch-and-modify over the whole element, parameterized by the mask the
//! [`Cursor`] policy derives, under relaxed memory ordering: per-element
//! atomicity only, no ordering across distinct elements.
//!
//! The contracts below describe each operation through an exclusive borrow.
//! What they cannot state — that interleaved mutators of one shared element
//! lose no update — is exactly what the hardware atomics are trusted for, and
//! [`lemma_intents_commute`] shows the complementary fact that intents aimed
//! at disjoint bits compose to the same element value in every serialization
//! order.

use vstd::prelude::*;
use core::sync::atomic::{AtomicU16, AtomicU32, AtomicU64, AtomicU8, Ordering};
use crate::cursor::{lemma_mask_disjoint, Cursor};
use crate::index::{BitIdx, BitWidth};

verus! {

/// Synchronized access to one storage element. Each implementor wraps the
/// atomic counterpart of one fundamental width; every mutation computes its
/// mask through the given [`Cursor`] and applies it in a single atomic
/// read-modify-write.
pub trait Atomic: Sized {
    /// The width of the wrapped storage element.
    spec fn width(&self) -> BitWidth;

    /// The element value currently stored, zero-extended to 64 bits.
    spec fn value(&self) -> u64;

    /// The stored value always fits the element width.
    proof fn lemma_value_fits(&self)
        ensures
            self.value() <= self.width().spec_max(),
    ;

    /// Sets the bit at position `bit` to `0`: an atomic bitwise AND with the
    /// complement of the cursor-derived mask.
    fn clear(&mut self, c: Cursor, bit: BitIdx)
        requires
            bit.wf(),
            bit.spec_width() == old(self).width(),
        ensures
            final(self).width() == old(self).width(),
            final(self).value() == old(self).value() & !c.spec_mask(
                old(self).width(),
                bit.spec_val() as u64,
            ),
    ;

    /// Sets the bit at position `bit` to `1`: an atomic bitwise OR with the
    /// cursor-derived mask.
    fn set(&mut self, c: Cursor, bit: BitIdx)
        requires
            bit.wf(),
            bit.spec_width() == old(self).width(),
        ensures
            final(self).width() == old(self).width(),
            final(self).value() == old(self).value() | c.spec_mask(
                old(self).width(),
                bit.spec_val() as u64,
            ),
    ;

    /// Inverts the bit at position `bit`: an atomic bitwise XOR with the
    /// cursor-derived mask.
    fn invert(&mut self, c: Cursor, bit: BitIdx)
        requires
            bit.wf(),
            bit.spec_width() == old(self).width(),
        ensures
            final(self).width() == old(self).width(),
            final(self).value() == old(self).value() ^ c.spec_mask(
                old(self).width(),
                bit.spec_val() as u64,
            ),
    ;

    /// Atomically loads the whole element, zero-extended to 64 bits.
    fn get(&self) -> (r: u64)
        ensures
            r == self.value(),
    ;
}

/// One 8-bit storage element behind a hardware atomic. Trusted: the wrapped
/// `core::sync::atomic::AtomicU8` is reached only through the operations
/// below, each a single atomic instruction.
#[verifier::external_body]
pub struct AtomicElem8 {
    inner: AtomicU8,
}

/// The element value stored in `a`.
pub uninterp spec fn atomic8_value(a: AtomicElem8) -> u8;

/// Relies on `core::sync::atomic::AtomicU8::new`: the element starts at `v`.
#[verifier::external_body]
fn atomic8_new(v: u8) -> (r: AtomicElem8)
    ensures
        atomic8_value(r) == v,
{
    AtomicElem8 { inner: AtomicU8::new(v) }
}

/// Relies on `core::sync::atomic::AtomicU8::load`: returns the stored value.
/// The shared borrow excludes mutators for its duration, so the value read is
/// the modeled one.
#[verifier::external_body]
fn atomic8_load(a: &AtomicElem8) -> (r: u8)
    ensures
        r == atomic8_value(*a),
{
    a.inner.load(Ordering::Relaxed)
}

/// Relies on `core::sync::atomic::AtomicU8::fetch_and`: one atomic
/// read-modify-write leaving the old value AND `m` in the element.
#[verifier::external_body]
fn atomic8_fetch_and(a: &mut AtomicElem8, m: u8)
    ensures
        atomic8_value(*final(a)) == atomic8_value(*old(a)) & m,
{
    a.inner.fetch_and(m, Ordering::Relaxed);
}

/// Relies on `core::sync::atomic::AtomicU8::fetch_or`: one atomic
/// read-modify-write leaving the old value OR `m` in the element.
#[verifier::external_body]
fn atomic8_fetch_or(a: &mut AtomicElem8, m: u8)
    ensures
        atomic8_value(*final(a)) == atomic8_value(*old(a)) | m,
{
    a.inner.fetch_or(m, Ordering::Relaxed);
}

/// Relies on `core::sync::atomic::AtomicU8::fetch_xor`: one atomic
/// read-modify-write leaving the old value XOR `m` in the element.
#[verifier::external_body]
fn atomic8_fetch_xor(a: &mut AtomicElem8, m: u8)
    ensures
        atomic8_value(*final(a)) == atomic8_value(*old(a)) ^ m,
{
    a.inner.fetch_xor(m, Ordering::Relaxed);
}

impl AtomicElem8 {
    /// A fresh element holding `v`.
    pub fn new(v: u8) -> (r: AtomicElem8)
        ensures
            r.value() == v as u64,
    {
        atomic8_new(v)
    }
}

/// Bitwise operations narrowed to 8 bits agree with the 64-bit model.
proof fn lemma_cast_ops8(x: u8, m: u64)
    requires
        m <= 0xff,
    ensures
        ((x & !(m as u8)) as u64) == (x as u64) & !m,
        ((x | (m as u8)) as u64) == (x as u64) | m,
        ((x ^ (m as u8)) as u64) == (x as u64) ^ m,
{
    assert(m <= 0xff ==> ((x & !(m as u8)) as u64) == (x as u64) & !m
        && ((x | (m as u8)) as u64) == (x as u64) | m
        && ((x ^ (m as u8)) as u64) == (x as u64) ^ m) by (bit_vector);
}

impl Atomic for AtomicElem8 {
    open spec fn width(&self) -> BitWidth {
        BitWidth::W8
    }

    open spec fn value(&self) -> u64 {
        atomic8_value(*self) as u64
    }

    proof fn lemma_value_fits(&self) {
    }

    fn clear(&mut self, c: Cursor, bit: BitIdx) {
        let m = c.mask(bit);
        let ghost x = atomic8_value(*self);
        atomic8_fetch_and(self, !(m as u8));
        proof {
            lemma_cast_ops8(x, m);
        }
    }

    fn set(&mut self, c: Cursor, bit: BitIdx) {
        let m = c.mask(bit);
        let ghost x = atomic8_value(*self);
        atomic8_fetch_or(self, m as u8);
        proof {
            lemma_cast_ops8(x, m);
        }
    }

    fn invert(&mut self, c: Cursor, bit: BitIdx) {
        let m = c.mask(bit);
        let ghost x = atomic8_value(*self);
        atomic8_fetch_xor(self, m as u8);
        proof {
            lemma_cast_ops8(x, m);
        }
    }

    fn get(&self) -> (r: u64) {
        atomic8_load(self) as u64
    }
}

/// One 16-bit storage element behind a hardware atomic. Trusted: the wrapped
/// `core::sync::atomic::AtomicU16` is reached only through the operations
/// below, each a single atomic instruction.
#[verifier::external_body]
pub struct AtomicElem16 {
    inner: AtomicU16,
}

/// The element value stored in `a`.
pub uninterp spec fn atomic16_value(a: AtomicElem16) -> u16;

/// Relies on `core::sync::atomic::AtomicU16::new`: the element starts at `v`.
#[verifier::external_body]
fn atomic16_new(v: u16) -> (r: AtomicElem16)
    ensures
        atomic16_value(r) == v,
{
    AtomicElem16 { inner: AtomicU16::new(v) }
}

/// Relies on `core::sync::atomic::AtomicU16::load`: returns the stored value.
/// The shared borrow excludes mutators for its duration, so the value read is
/// the modeled one.
#[verifier::external_body]
fn atomic16_load(a: &AtomicElem16) -> (r: u16)
    ensures
        r == atomic16_value(*a),
{
    a.inner.load(Ordering::Relaxed)
}

/// Relies on `core::sync::atomic::AtomicU16::fetch_and`: one atomic
/// read-modify-write leaving the old value AND `m` in the element.
#[verifier::external_body]
fn atomic16_fetch_and(a: &mut AtomicElem16, m: u16)
    ensures
        atomic16_value(*final(a)) == atomic16_value(*old(a)) & m,
{
    a.inner.fetch_and(m, Ordering::Relaxed);
}

/// Relies on `core::sync::atomic::AtomicU16::fetch_or`: one atomic
/// read-modify-write leaving the old value OR `m` in the element.
#[verifier::external_body]
fn atomic16_fetch_or(a: &mut AtomicElem16, m: u16)
    ensures
        atomic16_value(*final(a)) == atomic16_value(*old(a)) | m,
{
    a.inner.fetch_or(m, Ordering::Relaxed);
}

/// Relies on `core::sync::atomic::AtomicU16::fetch_xor`: one atomic
/// read-modify-write leaving the old value XOR `m` in the element.
#[verifier::external_body]
fn atomic16_fetch_xor(a: &mut AtomicElem16, m: u16)
    ensures
        atomic16_value(*final(a)) == atomic16_value(*old(a)) ^ m,
{
    a.inner.fetch_xor(m, Ordering::Relaxed);
}

impl AtomicElem16 {
    /// A fresh element holding `v`.
    pub fn new(v: u16) -> (r: AtomicElem16)
        ensures
            r.value() == v as u64,
    {
        atomic16_new(v)
    }
}

/// Bitwise operations narrowed to 16 bits agree with the 64-bit model.
proof fn lemma_cast_ops16(x: u16, m: u64)
    requires
        m <= 0xffff,
    ensures
        ((x & !(m as u16)) as u64) == (x as u64) & !m,
        ((x | (m as u16)) as u64) == (x as u64) | m,
        ((x ^ (m as u16)) as u64) == (x as u64) ^ m,
{
    assert(m <= 0xffff ==> ((x & !(m as u16)) as u64) == (x as u64) & !m
        && ((x | (m as u16)) as u64) == (x as u64) | m
        && ((x ^ (m as u16)) as u64) == (x as u64) ^ m) by (bit_vector);
}

impl Atomic for AtomicElem16 {
    open spec fn width(&self) -> BitWidth {
        BitWidth::W16
    }

    open spec fn value(&self) -> u64 {
        atomic16_value(*self) as u64
    }

    proof fn lemma_value_fits(&self) {
    }

    fn clear(&mut self, c: Cursor, bit: BitIdx) {
        let m = c.mask(bit);
        let ghost x = atomic16_value(*self);
        atomic16_fetch_and(self, !(m as u16));
        proof {
            lemma_cast_ops16(x, m);
        }
    }

    fn set(&mut self, c: Cursor, bit: BitIdx) {
        let m = c.mask(bit);
        let ghost x = atomic16_value(*self);
        atomic16_fetch_or(self, m as u16);
        proof {
            lemma_cast_ops16(x, m);
        }
    }

    fn invert(&mut self, c: Cursor, bit: BitIdx) {
        let m = c.mask(bit);
        let ghost x = atomic16_value(*self);
        atomic16_fetch_xor(self, m as u16);
        proof {
            lemma_cast_ops16(x, m);
        }
    }

    fn get(&self) -> (r: u64) {
        atomic16_load(self) as u64
    }
}

/// One 32-bit storage element behind a hardware atomic. Trusted: the wrapped
/// `core::sync::atomic::AtomicU32` is reached only through the operations
/// below, each a single atomic instruction.
#[verifier::external_body]
pub struct AtomicElem32 {
    inner: AtomicU32,
}

/// The element value stored in `a`.
pub uninterp spec fn atomic32_value(a: AtomicElem32) -> u32;

/// Relies on `core::sync::atomic::AtomicU32::new`: the element starts at `v`.
#[verifier::external_body]
fn atomic32_new(v: u32) -> (r: AtomicElem32)
    ensures
        atomic32_value(r) == v,
{
    AtomicElem32 { inner: AtomicU32::new(v) }
}

/// Relies on `core::sync::atomic::AtomicU32::load`: returns the stored value.
/// The shared borrow excludes mutators for its duration, so the value read is
/// the modeled one.
#[verifier::external_body]
fn atomic32_load(a: &AtomicElem32) -> (r: u32)
    ensures
        r == atomic32_value(*a),
{
    a.inner.load(Ordering::Relaxed)
}

/// Relies on `core::sync::atomic::AtomicU32::fetch_and`: one atomic
/// read-modify-write leaving the old value AND `m` in the element.
#[verifier::external_body]
fn atomic32_fetch_and(a: &mut AtomicElem32, m: u32)
    ensures
        atomic32_value(*final(a)) == atomic32_value(*old(a)) & m,
{
    a.inner.fetch_and(m, Ordering::Relaxed);
}

/// Relies on `core::sync::atomic::AtomicU32::fetch_or`: one atomic
/// read-modify-write leaving the old value OR `m` in the element.
#[verifier::external_body]
fn atomic32_fetch_or(a: &mut AtomicElem32, m: u32)
    ensures
        atomic32_value(*final(a)) == atomic32_value(*old(a)) | m,
{
    a.inner.fetch_or(m, Ordering::Relaxed);
}

/// Relies on `core::sync::atomic::AtomicU32::fetch_xor`: one atomic
/// read-modify-write leaving the old value XOR `m` in the element.
#[verifier::external_body]
fn atomic32_fetch_xor(a: &mut AtomicElem32, m: u32)
    ensures
        atomic32_value(*final(a)) == atomic32_value(*old(a)) ^ m,
{
    a.inner.fetch_xor(m, Ordering::Relaxed);
}

impl AtomicElem32 {
    /// A fresh element holding `v`.
    pub fn new(v: u32) -> (r: AtomicElem32)
        ensures
            r.value() == v as u64,
    {
        atomic32_new(v)
    }
}

/// Bitwise operations narrowed to 32 bits agree with the 64-bit model.
proof fn lemma_cast_ops32(x: u32, m: u64)
    requires
        m <= 0xffff_ffff,
    ensures
        ((x & !(m as u32)) as u64) == (x as u64) & !m,
        ((x | (m as u32)) as u64) == (x as u64) | m,
        ((x ^ (m as u32)) as u64) == (x as u64) ^ m,
{
    assert(m <= 0xffff_ffff ==> ((x & !(m as u32)) as u64) == (x as u64) & !m
        && ((x | (m as u32)) as u64) == (x as u64) | m
        && ((x ^ (m as u32)) as u64) == (x as u64) ^ m) by (bit_vector);
}

impl Atomic for AtomicElem32 {
    open spec fn width(&self) -> BitWidth {
        BitWidth::W32
    }

    open spec fn value(&self) -> u64 {
        atomic32_value(*self) as u64
    }

    proof fn lemma_value_fits(&self) {
    }

    fn clear(&mut self, c: Cursor, bit: BitIdx) {
        let m = c.mask(bit);
        let ghost x = atomic32_value(*self);
        atomic32_fetch_and(self, !(m as u32));
        proof {
            lemma_cast_ops32(x, m);
        }
    }

    fn set(&mut self, c: Cursor, bit: BitIdx) {
        let m = c.mask(bit);
        let ghost x = atomic32_value(*self);
        atomic32_fetch_or(self, m as u32);
        proof {
            lemma_cast_ops32(x, m);
        }
    }

    fn invert(&mut self, c: Cursor, bit: BitIdx) {
        let m = c.mask(bit);
        let ghost x = atomic32_value(*self);
        atomic32_fetch_xor(self, m as u32);
        proof {
            lemma_cast_ops32(x, m);
        }
    }

    fn get(&self) -> (r: u64) {
        atomic32_load(self) as u64
    }
}

/// One 64-bit storage element behind a hardware atomic. Trusted: the wrapped
/// `core::sync::atomic::AtomicU64` is reached only through the operations
/// below, each a single atomic instruction.
#[verifier::external_body]
pub struct AtomicElem64 {
    inner: AtomicU64,
}

/// The element value stored in `a`.
pub uninterp spec fn atomic64_value(a: AtomicElem64) -> u64;

/// Relies on `core::sync::atomic::AtomicU64::new`: the element starts at `v`.
#[verifier::external_body]
fn atomic64_new(v: u64) -> (r: AtomicElem64)
    ensures
        atomic64_value(r) == v,
{
    AtomicElem64 { inner: AtomicU64::new(v) }
}

/// Relies on `core::sync::atomic::AtomicU64::load`: returns the stored value.
/// The shared borrow excludes mutators for its duration, so the value read is
/// the modeled one.
#[verifier::external_body]
fn atomic64_load(a: &AtomicElem64) -> (r: u64)
    ensures
        r == atomic64_value(*a),
{
    a.inner.load(Ordering::Relaxed)
}

/// Relies on `core::sync::atomic::AtomicU64::fetch_and`: one atomic
/// read-modify-write leaving the old value AND `m` in the element.
#[verifier::external_body]
fn atomic64_fetch_and(a: &mut AtomicElem64, m: u64)
    ensures
        atomic64_value(*final(a)) == atomic64_value(*old(a)) & m,
{
    a.inner.fetch_and(m, Ordering::Relaxed);
}

/// Relies on `core::sync::atomic::AtomicU64::fetch_or`: one atomic
/// read-modify-write leaving the old value OR `m` in the element.
#[verifier::external_body]
fn atomic64_fetch_or(a: &mut AtomicElem64, m: u64)
    ensures
        atomic64_value(*final(a)) == atomic64_value(*old(a)) | m,
{
    a.inner.fetch_or(m, Ordering::Relaxed);
}

/// Relies on `core::sync::atomic::AtomicU64::fetch_xor`: one atomic
/// read-modify-write leaving the old value XOR `m` in the element.
#[verifier::external_body]
fn atomic64_fetch_xor(a: &mut AtomicElem64, m: u64)
    ensures
        atomic64_value(*final(a)) == atomic64_value(*old(a)) ^ m,
{
    a.inner.fetch_xor(m, Ordering::Relaxed);
}

impl AtomicElem64 {
    /// A fresh element holding `v`.
    pub fn new(v: u64) -> (r: AtomicElem64)
        ensures
            r.value() == v,
    {
        atomic64_new(v)
    }
}

impl Atomic for AtomicElem64 {
    open spec fn width(&self) -> BitWidth {
        BitWidth::W64
    }

    open spec fn value(&self) -> u64 {
        atomic64_value(*self)
    }

    proof fn lemma_value_fits(&self) {
    }

    fn clear(&mut self, c: Cursor, bit: BitIdx) {
        let m = c.mask(bit);
        atomic64_fetch_and(self, !m);
    }

    fn set(&mut self, c: Cursor, bit: BitIdx) {
        let m = c.mask(bit);
        atomic64_fetch_or(self, m);
    }

    fn invert(&mut self, c: Cursor, bit: BitIdx) {
        let m = c.mask(bit);
        atomic64_fetch_xor(self, m);
    }

    fn get(&self) -> (r: u64) {
        atomic64_load(self)
    }
}

/// One single-bit mutation intent: what one caller asks of one position.
#[derive(Clone, Copy, PartialEq, Eq, Debug)]
pub enum BitOp {
    SetBit,
    ClearBit,
    InvertBit,
}

/// The element value after carrying out one intent at position `p`.
pub open spec fn apply_intent(c: Cursor, w: BitWidth, e: u64, i: BitOp, p: u64) -> u64
    recommends
        p < w.spec_bits(),
{
    match i {
        BitOp::SetBit => e | c.spec_mask(w, p),
        BitOp::ClearBit => e & !c.spec_mask(w, p),
        BitOp::InvertBit => e ^ c.spec_mask(w, p),
    }
}

/// Law: intents aimed at distinct positions of one element commute, so every
/// serialization order of such intents composes to the same element value.
pub proof fn lemma_intents_commute(
    c: Cursor,
    w: BitWidth,
    e: u64,
    i1: BitOp,
    p1: u64,
    i2: BitOp,
    p2: u64,
)
    requires
        p1 < w.spec_bits(),
        p2 < w.spec_bits(),
        p1 != p2,
    ensures
        apply_intent(c, w, apply_intent(c, w, e, i1, p1), i2, p2) == apply_intent(
            c,
            w,
            apply_intent(c, w, e, i2, p2),
            i1,
            p1,
        ),
{
    lemma_mask_disjoint(c, w, p1, p2);
    let m1 = c.spec_mask(w, p1);
    let m2 = c.spec_mask(w, p2);
    assert(m1 & m2 == 0 ==> ((e | m1) | m2) == ((e | m2) | m1) && ((e | m1) & !m2) == ((e & !m2)
        | m1) && ((e | m1) ^ m2) == ((e ^ m2) | m1) && ((e & !m1) | m2) == ((e | m2) & !m1) && ((e
        & !m1) & !m2) == ((e & !m2) & !m1) && ((e & !m1) ^ m2) == ((e ^ m2) & !m1) && ((e ^ m1)
        | m2) == ((e | m2) ^ m1) && ((e ^ m1) & !m2) == ((e & !m2) ^ m1) && ((e ^ m1) ^ m2) == ((e
        ^ m2) ^ m1)) by (bit_vector);
}

/// The element value after carrying out a run of intents, first to last: one
/// serialization of the callers' requests.
pub open spec fn apply_intents(c: Cursor, w: BitWidth, e: u64, ops: Seq<(BitOp, u64)>) -> u64
    decreases ops.len(),
{
    if ops.len() == 0 {
        e
    } else {
        apply_intents(c, w, apply_intent(c, w, e, ops[0].0, ops[0].1), ops.drop_first())
    }
}

/// Law: exchanging two adjacent intents aimed at distinct positions does not
/// change the composed element value. Every permutation is a product of such
/// exchanges, so all serialization orders of intents on pairwise disjoint
/// bits compose to the same final value.
pub proof fn lemma_serialization_swap(
    c: Cursor,
    w: BitWidth,
    e: u64,
    ops: Seq<(BitOp, u64)>,
    k: int,
)
    requires
        0 <= k,
        k + 1 < ops.len(),
        forall|i: int| 0 <= i < ops.len() ==> (#[trigger] ops[i]).1 < w.spec_bits(),
        ops[k].1 != ops[k + 1].1,
    ensures
        apply_intents(c, w, e, ops) == apply_intents(
            c,
            w,
            e,
            ops.update(k, ops[k + 1]).update(k + 1, ops[k]),
        ),
    decreases k,
{
    let swapped = ops.update(k, ops[k + 1]).update(k + 1, ops[k]);
    if k == 0 {
        let o0 = ops[0];
        let o1 = ops[1];
        lemma_intents_commute(c, w, e, o0.0, o0.1, o1.0, o1.1);
        assert(swapped.drop_first().drop_first() =~= ops.drop_first().drop_first());
        let tail = ops.drop_first().drop_first();
        assert(apply_intents(c, w, e, ops) == apply_intents(
            c,
            w,
            apply_intent(c, w, e, o0.0, o0.1),
            ops.drop_first(),
        ));
        assert(ops.drop_first()[0] == o1 && ops.drop_first().drop_first() =~= tail);
        assert(apply_intents(c, w, apply_intent(c, w, e, o0.0, o0.1), ops.drop_first())
            == apply_intents(
            c,
            w,
            apply_intent(c, w, apply_intent(c, w, e, o0.0, o0.1), o1.0, o1.1),
            tail,
        ));
        assert(swapped[0] == o1);
        assert(apply_intents(c, w, e, swapped) == apply_intents(
            c,
            w,
            apply_intent(c, w, e, o1.0, o1.1),
            swapped.drop_first(),
        ));
        assert(swapped.drop_first()[0] == o0);
        assert(apply_intents(c, w, apply_intent(c, w, e, o1.0, o1.1), swapped.drop_first())
            == apply_intents(
            c,
            w,
            apply_intent(c, w, apply_intent(c, w, e, o1.0, o1.1), o0.0, o0.1),
            tail,
        ));
    } else {
        let e1 = apply_intent(c, w, e, ops[0].0, ops[0].1);
        lemma_serialization_swap(c, w, e1, ops.drop_first(), k - 1);
        assert(swapped.drop_first() =~= ops.drop_first().update(k - 1, ops.drop_first()[k]).update(
            k,
            ops.drop_first()[k - 1],
        ));
        assert(swapped[0] == ops[0]);
        assert(apply_intents(c, w, e, ops) == apply_intents(c, w, e1, ops.drop_first()));
        assert(apply_intents(c, w, e, swapped) == apply_intents(c, w, e1, swapped.drop_first()));
    }
}

} // verus!
