//! Wire representation of a packed bit sequence.
//!
//! The external form of a bit sequence is the triple `{head, bits, data}`:
//! `head` is the offset of the first live bit within the first storage
//! element, `bits` the total count of live bits, and `data` the raw element
//! values covering the live range, in the declared [`Cursor`] order. Field
//! names and their order are part of the compatibility surface; the canonical
//! rendered text is given exactly by [`json_bytes`].

use vstd::prelude::*;
use vstd::arithmetic::div_mod::{lemma_fundamental_div_mod, lemma_fundamental_div_mod_converse};
use vstd::arithmetic::mul::lemma_mul_inequality;
use crate::cursor::{elem_bit, lemma_or_fits, lemma_set_bit, lemma_zero_bit, Cursor};
use crate::index::{BitIdx, BitWidth};

verus! {

/// The external representation of a packed bit sequence.
#[derive(Clone, PartialEq, Eq, Debug)]
pub struct BitRepr {
    /// Offset of the first live bit within the first storage element.
    pub head: u8,
    /// Total count of live bits.
    pub bits: usize,
    /// Raw element values covering the live range, first element first, each
    /// zero-extended to 64 bits.
    pub data: Vec<u64>,
}

/// A decode failure, reported to the caller rather than silently truncated.
#[derive(Clone, Copy, PartialEq, Eq, Debug)]
pub enum DecodeError {
    /// `head` was not below the element width.
    HeadOutOfRange,
    /// `data` does not hold exactly the elements the live range occupies.
    LengthMismatch,
}

/// Number of storage elements the live range `[head, head + bits)` occupies.
pub open spec fn needed_elems(w: BitWidth, head: int, bits: int) -> int {
    if bits == 0 {
        0
    } else {
        (head + bits + w.spec_bits() - 1) / (w.spec_bits() as int)
    }
}

/// The bit at logical index `i` of the live range of `(head, data)`.
pub open spec fn repr_bit(c: Cursor, w: BitWidth, head: int, data: Seq<u64>, i: int) -> bool {
    elem_bit(
        c,
        w,
        data[(head + i) / (w.spec_bits() as int)],
        ((head + i) % (w.spec_bits() as int)) as u64,
    )
}

/// Exactly what `encode` promises of its output for input `s`.
pub open spec fn encodes(
    c: Cursor,
    w: BitWidth,
    s: Seq<bool>,
    head: int,
    bits: int,
    data: Seq<u64>,
) -> bool {
    &&& head == 0
    &&& bits == s.len()
    &&& data.len() == needed_elems(w, 0, s.len() as int)
    &&& forall|i: int| 0 <= i < s.len() ==> repr_bit(c, w, 0, data, i) == s[i]
    &&& forall|k: int| 0 <= k < data.len() ==> data[k] <= w.spec_max()
    &&& forall|j: int| s.len() <= j < data.len() * w.spec_bits() ==> !repr_bit(c, w, 0, data, j)
}

/// When `decode` accepts a representation.
pub open spec fn decode_ok(w: BitWidth, head: int, bits: int, data_len: int) -> bool {
    &&& 0 <= head < w.spec_bits()
    &&& data_len == needed_elems(w, head, bits)
}

/// Exactly what `decode` promises of its output for an accepted input.
pub open spec fn decodes_to(
    c: Cursor,
    w: BitWidth,
    head: int,
    bits: int,
    data: Seq<u64>,
    t: Seq<bool>,
) -> bool {
    &&& t.len() == bits
    &&& forall|i: int| 0 <= i < bits ==> t[i] == repr_bit(c, w, head, data, i)
}

/// Packs a bit sequence into its external representation: `head` is zero,
/// `bits` counts the input, and `data` holds the input bit for bit in the
/// declared cursor order.
pub fn encode(c: Cursor, w: BitWidth, s: &Vec<bool>) -> (r: BitRepr)
    ensures
        encodes(c, w, s@, r.head as int, r.bits as int, r.data@),
{
    let wb: u8 = w.bits();
    let ghost wbi: int = w.spec_bits() as int;
    let mut data: Vec<u64> = Vec::new();
    let mut acc: u64 = 0;
    let mut p: u8 = 0;
    let mut i: usize = 0;
    proof {
        assert forall|q: u64| q < wbi implies !elem_bit(c, w, 0u64, q) by {
            lemma_zero_bit(c, w, q);
        }
    }
    while i < s.len()
        invariant
            wb == w.spec_bits(),
            wbi == w.spec_bits() as int,
            i <= s@.len(),
            p < wb,
            i as int == data@.len() * wbi + p,
            acc <= w.spec_max(),
            forall|k: int| 0 <= k < data@.len() ==> data@[k] <= w.spec_max(),
            forall|j: int|
                0 <= j < data@.len() * wbi && j < i ==> repr_bit(c, w, 0, data@, j) == s@[j],
            forall|q: u64| q < p ==> elem_bit(c, w, acc, q) == s@[data@.len() * wbi + q],
            forall|q: u64| p <= q < wb ==> !elem_bit(c, w, acc, q),
        decreases s@.len() - i,
    {
        let b = s[i];
        if b {
            let idx = BitIdx::new(p, w).unwrap();
            let m = c.mask(idx);
            let ghost acc0 = acc;
            acc = acc | m;
            proof {
                lemma_or_fits(w, acc0, m);
                assert forall|q: u64| q < wb implies (if q == p {
                    elem_bit(c, w, acc, q)
                } else {
                    elem_bit(c, w, acc, q) == elem_bit(c, w, acc0, q)
                }) by {
                    lemma_set_bit(c, w, acc0, p as u64, q);
                }
            }
        }
        p = p + 1;
        i = i + 1;
        if p == wb {
            let ghost l: int = data@.len() as int;
            let ghost acc1 = acc;
            data.push(acc);
            acc = 0;
            p = 0;
            proof {
                assert((l + 1) * wbi == l * wbi + wbi) by (nonlinear_arith);
                assert forall|j: int|
                    0 <= j < data@.len() * wbi && j < i implies repr_bit(c, w, 0, data@, j)
                    == s@[j] by {
                    if j < l * wbi {
                        assert(j / wbi < l) by {
                            lemma_fundamental_div_mod(j, wbi);
                            if j / wbi >= l {
                                lemma_mul_inequality(l, j / wbi, wbi);
                            }
                        }
                        assert(data@[j / wbi] == data@.subrange(0, l)[j / wbi]);
                        assert(repr_bit(c, w, 0, data@, j) == repr_bit(
                            c,
                            w,
                            0,
                            data@.subrange(0, l),
                            j,
                        ));
                    } else {
                        let q = j - l * wbi;
                        lemma_fundamental_div_mod_converse(j, wbi, l, q);
                        assert(data@[l] == acc1);
                        assert(elem_bit(c, w, acc1, q as u64) == s@[j]);
                    }
                }
                assert forall|q: u64| q < wbi implies !elem_bit(c, w, 0u64, q) by {
                    lemma_zero_bit(c, w, q);
                }
            }
        }
    }
    if p > 0 {
        let ghost l: int = data@.len() as int;
        let ghost acc1 = acc;
        let ghost pp: int = p as int;
        data.push(acc);
        proof {
            assert((l + 1) * wbi == l * wbi + wbi) by (nonlinear_arith);
            assert(needed_elems(w, 0, i as int) == l + 1) by {
                lemma_fundamental_div_mod_converse(i as int + wbi - 1, wbi, l + 1, pp - 1);
            }
            assert forall|j: int|
                0 <= j < data@.len() * wbi && j < i implies repr_bit(c, w, 0, data@, j)
                == s@[j] by {
                if j < l * wbi {
                    assert(j / wbi < l) by {
                        lemma_fundamental_div_mod(j, wbi);
                        if j / wbi >= l {
                            lemma_mul_inequality(l, j / wbi, wbi);
                        }
                    }
                    assert(data@[j / wbi] == data@.subrange(0, l)[j / wbi]);
                    assert(repr_bit(c, w, 0, data@, j) == repr_bit(
                        c,
                        w,
                        0,
                        data@.subrange(0, l),
                        j,
                    ));
                } else {
                    let q = j - l * wbi;
                    lemma_fundamental_div_mod_converse(j, wbi, l, q);
                    assert(data@[l] == acc1);
                    assert(elem_bit(c, w, acc1, q as u64) == s@[j]);
                }
            }
            assert forall|j: int| i <= j < data@.len() * wbi implies !repr_bit(
                c,
                w,
                0,
                data@,
                j,
            ) by {
                let q = j - l * wbi;
                lemma_fundamental_div_mod_converse(j, wbi, l, q);
                assert(data@[l] == acc1);
                assert(!elem_bit(c, w, acc1, q as u64));
            }
        }
    } else {
        proof {
            let l: int = data@.len() as int;
            if i > 0 {
                assert(needed_elems(w, 0, i as int) == l) by {
                    lemma_fundamental_div_mod_converse(i as int + wbi - 1, wbi, l, wbi - 1);
                }
            }
        }
    }
    BitRepr { head: 0, bits: i, data }
}

/// Copies the raw elements of a representation.
fn copy_elems(v: &Vec<u64>) -> (r: Vec<u64>)
    ensures
        r@ == v@,
{
    let mut r: Vec<u64> = Vec::new();
    let mut i: usize = 0;
    while i < v.len()
        invariant
            i <= v@.len(),
            r@ == v@.subrange(0, i as int),
        decreases v@.len() - i,
    {
        r.push(v[i]);
        proof {
            assert(r@ =~= v@.subrange(0, i as int + 1));
        }
        i = i + 1;
    }
    proof {
        assert(v@.subrange(0, v@.len() as int) =~= v@);
    }
    r
}

/// A decoded bit sequence: the container's read view of the live range
/// `[head, head + bits)` over raw storage elements, in a declared cursor
/// order. It keeps the first-bit offset and the raw elements — pad bits
/// included — so re-encoding reproduces the external representation exactly.
#[derive(Clone, PartialEq, Eq, Debug)]
pub struct BitSeq {
    cursor: Cursor,
    width: BitWidth,
    head: u8,
    bits: usize,
    data: Vec<u64>,
}

impl BitSeq {
    /// The declared cursor order of this sequence.
    pub closed spec fn spec_cursor(self) -> Cursor {
        self.cursor
    }

    /// The width of the storage elements.
    pub closed spec fn spec_width(self) -> BitWidth {
        self.width
    }

    /// Offset of the first live bit within the first element.
    pub closed spec fn spec_head(self) -> u8 {
        self.head
    }

    /// Count of live bits.
    pub closed spec fn spec_len(self) -> usize {
        self.bits
    }

    /// The raw storage elements covering the live range.
    pub closed spec fn spec_data(self) -> Seq<u64> {
        self.data@
    }

    /// Well-formedness: the head is below the width and the elements cover
    /// the live range exactly.
    pub open spec fn wf(self) -> bool {
        decode_ok(
            self.spec_width(),
            self.spec_head() as int,
            self.spec_len() as int,
            self.spec_data().len() as int,
        )
    }

    /// The live bit values, first to last.
    pub open spec fn bit_view(self) -> Seq<bool> {
        Seq::new(
            self.spec_len() as nat,
            |i: int|
                repr_bit(
                    self.spec_cursor(),
                    self.spec_width(),
                    self.spec_head() as int,
                    self.spec_data(),
                    i,
                ),
        )
    }

    /// Builds the view of a bit sequence whose first live bit sits at offset
    /// `head` within its first element: the live bits are `s` in order, every
    /// pad bit is unset, and every element fits the width.
    pub fn new(c: Cursor, w: BitWidth, head: u8, s: &Vec<bool>) -> (r: BitSeq)
        requires
            (head as int) < w.spec_bits(),
            head + s@.len() <= usize::MAX,
        ensures
            r.wf(),
            r.spec_cursor() == c,
            r.spec_width() == w,
            r.spec_head() == head,
            r.spec_len() == s@.len(),
            r.bit_view() == s@,
            forall|k: int| 0 <= k < r.spec_data().len() ==> r.spec_data()[k] <= w.spec_max(),
            forall|j: int|
                0 <= j < r.spec_data().len() * w.spec_bits() && !(head <= j < head + s@.len())
                    ==> !repr_bit(c, w, 0, r.spec_data(), j),
    {
        if s.len() == 0 {
            let r = BitSeq { cursor: c, width: w, head, bits: 0, data: Vec::new() };
            proof {
                assert(r.bit_view() =~= s@);
            }
            return r;
        }
        let mut padded: Vec<bool> = Vec::new();
        let mut k: u8 = 0;
        while k < head
            invariant
                k <= head,
                padded@.len() == k,
                forall|j: int| 0 <= j < k ==> padded@[j] == false,
            decreases head - k,
        {
            padded.push(false);
            k = k + 1;
        }
        let mut i: usize = 0;
        while i < s.len()
            invariant
                i <= s@.len(),
                head + s@.len() <= usize::MAX,
                padded@.len() == head + i,
                forall|j: int| 0 <= j < head ==> padded@[j] == false,
                forall|j: int| head <= j < head + i ==> padded@[j] == s@[j - head],
            decreases s@.len() - i,
        {
            padded.push(s[i]);
            i = i + 1;
        }
        let packed = encode(c, w, &padded);
        let r = BitSeq { cursor: c, width: w, head, bits: s.len(), data: packed.data };
        proof {
            assert(r.spec_data().len() == needed_elems(w, head as int, s@.len() as int));
            assert forall|j: int| 0 <= j < s@.len() implies repr_bit(
                c,
                w,
                head as int,
                r.spec_data(),
                j,
            ) == s@[j] by {
                assert(repr_bit(c, w, 0, r.spec_data(), head + j) == padded@[head + j]);
            }
            assert(r.bit_view() =~= s@);
            assert forall|j: int|
                0 <= j < r.spec_data().len() * w.spec_bits() && !(head <= j < head
                    + s@.len()) implies !repr_bit(c, w, 0, r.spec_data(), j) by {
                if j < head {
                    assert(repr_bit(c, w, 0, r.spec_data(), j) == padded@[j]);
                }
            }
        }
        r
    }

    /// Unpacks the live bit values, first to last.
    pub fn to_bools(&self) -> (out: Vec<bool>)
        requires
            self.wf(),
        ensures
            out@ == self.bit_view(),
    {
        let c = self.cursor;
        let w = self.width;
        let wb: u8 = w.bits();
        let ghost wbi: int = w.spec_bits() as int;
        let ghost headi: int = self.head as int;
        let ghost bitsi: int = self.bits as int;
        proof {
            if bitsi > 0 {
                assert(needed_elems(w, headi, bitsi) * wbi >= headi + bitsi) by {
                    lemma_fundamental_div_mod(headi + bitsi + wbi - 1, wbi);
                }
            }
        }
        let mut out: Vec<bool> = Vec::new();
        let mut e: usize = 0;
        let mut p: u8 = self.head;
        while out.len() < self.bits
            invariant
                wb == w.spec_bits(),
                wbi == w.spec_bits() as int,
                c == self.spec_cursor(),
                w == self.spec_width(),
                headi == self.spec_head() as int,
                bitsi == self.spec_len() as int,
                self.wf(),
                headi < wb,
                p < wb,
                out@.len() <= bitsi,
                headi + out@.len() == e * wbi + p,
                e <= self.spec_data().len(),
                bitsi > 0 ==> needed_elems(w, headi, bitsi) * wbi >= headi + bitsi,
                forall|i: int|
                    0 <= i < out@.len() ==> out@[i] == repr_bit(c, w, headi, self.spec_data(), i),
            decreases bitsi - out@.len(),
        {
            proof {
                assert(e < self.spec_data().len()) by {
                    if e >= self.spec_data().len() {
                        lemma_mul_inequality(self.spec_data().len() as int, e as int, wbi);
                    }
                }
            }
            let idx = BitIdx::new(p, w).unwrap();
            let m = c.mask(idx);
            let b = (self.data[e] & m) != 0;
            let ghost i0: int = out@.len() as int;
            out.push(b);
            proof {
                lemma_fundamental_div_mod_converse(headi + i0, wbi, e as int, p as int);
                assert(out@[i0] == repr_bit(c, w, headi, self.spec_data(), i0));
            }
            p = p + 1;
            if p == wb {
                p = 0;
                e = e + 1;
                proof {
                    assert((e as int) * wbi == (e as int - 1) * wbi + wbi) by (nonlinear_arith);
                }
            }
        }
        proof {
            assert(out@ =~= self.bit_view());
        }
        out
    }

    /// Serializes the view back to its external representation: the head
    /// offset, the live-bit count and the raw elements are reproduced
    /// exactly, pad bits and all.
    pub fn encode(&self) -> (r: BitRepr)
        ensures
            r.head == self.spec_head(),
            r.bits == self.spec_len(),
            r.data@ == self.spec_data(),
    {
        BitRepr { head: self.head, bits: self.bits, data: copy_elems(&self.data) }
    }

    /// Offset of the first live bit within the first element.
    pub fn head(&self) -> (r: u8)
        ensures
            r == self.spec_head(),
    {
        self.head
    }

    /// Count of live bits.
    pub fn len(&self) -> (r: usize)
        ensures
            r == self.spec_len(),
    {
        self.bits
    }

    /// The width of the storage elements.
    pub fn width(&self) -> (r: BitWidth)
        ensures
            r == self.spec_width(),
    {
        self.width
    }

    /// The declared cursor order of this sequence.
    pub fn cursor(&self) -> (r: Cursor)
        ensures
            r == self.spec_cursor(),
    {
        self.cursor
    }
}

/// Validates an external representation against an element width and cursor
/// order and takes it up as a decoded view, head offset and raw elements
/// kept. Fails exactly when `head` is not below the width, or when `data`
/// does not hold exactly the elements the live range occupies — never by
/// silent truncation.
pub fn decode(c: Cursor, w: BitWidth, r: &BitRepr) -> (out: Result<BitSeq, DecodeError>)
    ensures
        out is Ok <==> decode_ok(w, r.head as int, r.bits as int, r.data@.len() as int),
        r.head as int >= w.spec_bits() ==> out == Err::<BitSeq, DecodeError>(
            DecodeError::HeadOutOfRange,
        ),
        (r.head as int) < w.spec_bits() && r.data@.len() != needed_elems(
            w,
            r.head as int,
            r.bits as int,
        ) ==> out == Err::<BitSeq, DecodeError>(DecodeError::LengthMismatch),
        out is Ok ==> out->Ok_0.wf() && out->Ok_0.spec_cursor() == c && out->Ok_0.spec_width()
            == w && out->Ok_0.spec_head() == r.head && out->Ok_0.spec_len() == r.bits
            && out->Ok_0.spec_data() == r.data@,
        out is Ok ==> decodes_to(c, w, r.head as int, r.bits as int, r.data@, out->Ok_0.bit_view()),
{
    let wb: u8 = w.bits();
    if r.head >= wb {
        return Err(DecodeError::HeadOutOfRange);
    }
    let needed: u128 = if r.bits == 0 {
        0
    } else {
        (r.head as u128 + r.bits as u128 + wb as u128 - 1) / (wb as u128)
    };
    if r.data.len() as u128 != needed {
        proof {
            assert(r.data@.len() != needed_elems(w, r.head as int, r.bits as int));
        }
        return Err(DecodeError::LengthMismatch);
    }
    proof {
        assert(r.data@.len() == needed_elems(w, r.head as int, r.bits as int));
    }
    Ok(BitSeq { cursor: c, width: w, head: r.head, bits: r.bits, data: copy_elems(&r.data) })
}

/// Decimal digits of `n`, most significant digit first, as ASCII bytes.
pub open spec fn dec_rep(n: nat) -> Seq<u8>
    decreases n,
{
    if n < 10 {
        seq![(48 + n) as u8]
    } else {
        dec_rep(n / 10).push((48 + n % 10) as u8)
    }
}

/// The values of `d` as a comma-separated list of decimals.
pub open spec fn dec_list(d: Seq<u64>) -> Seq<u8>
    decreases d.len(),
{
    if d.len() == 0 {
        Seq::empty()
    } else if d.len() == 1 {
        dec_rep(d[0] as nat)
    } else {
        dec_list(d.drop_last()) + seq![44u8] + dec_rep(d.last() as nat)
    }
}

/// The eight bytes of `{"head":`.
pub open spec fn head_key() -> Seq<u8> {
    seq![123u8, 34u8, 104u8, 101u8, 97u8, 100u8, 34u8, 58u8]
}

/// The eight bytes of `,"bits":`.
pub open spec fn bits_key() -> Seq<u8> {
    seq![44u8, 34u8, 98u8, 105u8, 116u8, 115u8, 34u8, 58u8]
}

/// The nine bytes of `,"data":[`.
pub open spec fn data_key() -> Seq<u8> {
    seq![44u8, 34u8, 100u8, 97u8, 116u8, 97u8, 34u8, 58u8, 91u8]
}

/// The canonical wire text of a representation: the object
/// `{"head":H,"bits":B,"data":[..]}` with the fields in exactly this order,
/// unpadded decimal values, and no spacing.
pub open spec fn json_bytes(head: nat, bits: nat, data: Seq<u64>) -> Seq<u8> {
    head_key() + dec_rep(head) + bits_key() + dec_rep(bits) + data_key() + dec_list(data) + seq![
        93u8,
        125u8,
    ]
}

/// Pushes the decimal digits of `n`, most significant first.
fn push_dec(out: &mut Vec<u8>, n: u64)
    ensures
        final(out)@ == old(out)@ + dec_rep(n as nat),
    decreases n,
{
    if n >= 10 {
        push_dec(out, n / 10);
    }
    out.push(48 + (n % 10) as u8);
    proof {
        assert(out@ =~= old(out)@ + dec_rep(n as nat));
    }
}

/// Stepping the comma-separated list one value at a time.
proof fn lemma_dec_list_snoc(d: Seq<u64>, j: int)
    requires
        0 <= j < d.len(),
    ensures
        j == 0 ==> dec_list(d.subrange(0, 1)) == dec_rep(d[0] as nat),
        j > 0 ==> dec_list(d.subrange(0, j + 1)) == dec_list(d.subrange(0, j)) + seq![44u8]
            + dec_rep(d[j] as nat),
{
    let a = d.subrange(0, j + 1);
    if j > 0 {
        assert(a.drop_last() =~= d.subrange(0, j));
        assert(a.last() == d[j]);
    }
}

/// Renders a representation as its canonical wire text, exactly the bytes of
/// [`json_bytes`].
pub fn to_json(r: &BitRepr) -> (out: Vec<u8>)
    ensures
        out@ == json_bytes(r.head as nat, r.bits as nat, r.data@),
{
    let mut out: Vec<u8> = Vec::new();
    out.push(123);
    out.push(34);
    out.push(104);
    out.push(101);
    out.push(97);
    out.push(100);
    out.push(34);
    out.push(58);
    proof {
        assert(out@ =~= head_key());
    }
    push_dec(&mut out, r.head as u64);
    out.push(44);
    out.push(34);
    out.push(98);
    out.push(105);
    out.push(116);
    out.push(115);
    out.push(34);
    out.push(58);
    proof {
        assert(out@ =~= head_key() + dec_rep(r.head as nat) + bits_key());
    }
    push_dec(&mut out, r.bits as u64);
    out.push(44);
    out.push(34);
    out.push(100);
    out.push(97);
    out.push(116);
    out.push(97);
    out.push(34);
    out.push(58);
    out.push(91);
    let ghost pre: Seq<u8> = head_key() + dec_rep(r.head as nat) + bits_key() + dec_rep(
        r.bits as nat,
    ) + data_key();
    proof {
        assert(out@ =~= pre);
        assert(r.data@.subrange(0, 0) =~= Seq::<u64>::empty());
    }
    let mut j: usize = 0;
    while j < r.data.len()
        invariant
            j <= r.data@.len(),
            out@ == pre + dec_list(r.data@.subrange(0, j as int)),
        decreases r.data@.len() - j,
    {
        if j > 0 {
            out.push(44);
        }
        push_dec(&mut out, r.data[j]);
        proof {
            lemma_dec_list_snoc(r.data@, j as int);
            assert(out@ =~= pre + dec_list(r.data@.subrange(0, j as int + 1)));
        }
        j = j + 1;
    }
    out.push(93);
    out.push(125);
    proof {
        assert(r.data@.subrange(0, r.data@.len() as int) =~= r.data@);
        assert(out@ =~= json_bytes(r.head as nat, r.bits as nat, r.data@));
    }
    out
}

/// Law: decode of encode is the identity on bit sequences. Any
/// representation `encode` may produce from a bit sequence `s` is accepted by
/// `decode`, and the live bits of the decoded view are bit-for-bit equal to
/// `s`.
pub proof fn lemma_round_trip(
    c: Cursor,
    w: BitWidth,
    s: Seq<bool>,
    head: int,
    bits: int,
    data: Seq<u64>,
    t: Seq<bool>,
)
    requires
        encodes(c, w, s, head, bits, data),
        decodes_to(c, w, head, bits, data, t),
    ensures
        decode_ok(w, head, bits, data.len() as int),
        t =~= s,
{
}

/// Law: encode of decode is the identity. For every representation the
/// decoder accepts — any head below the width, any length-consistent data,
/// pad bits arbitrary — the decoded view carries the head offset and the raw
/// elements through, and re-encoding it reproduces the representation
/// exactly.
pub proof fn lemma_encode_of_decode_identity(
    c: Cursor,
    w: BitWidth,
    x: BitRepr,
    v: BitSeq,
    y: BitRepr,
)
    requires
        decode_ok(w, x.head as int, x.bits as int, x.data@.len() as int),
        // what `decode` promises of the view it accepts `x` into
        v.spec_cursor() == c,
        v.spec_width() == w,
        v.spec_head() == x.head,
        v.spec_len() == x.bits,
        v.spec_data() == x.data@,
        // what `BitSeq::encode` promises of its output
        y.head == v.spec_head(),
        y.bits == v.spec_len(),
        y.data@ == v.spec_data(),
    ensures
        y.head == x.head,
        y.bits == x.bits,
        y.data@ == x.data@,
{
}

} // verus!
