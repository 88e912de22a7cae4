//! Storage-element widths and validated bit positions.

use vstd::prelude::*;

verus! {

/// The closed set of fundamental unsigned-integer widths that may back a
/// storage element.
#[derive(Clone, Copy, PartialEq, Eq, Debug)]
pub enum BitWidth {
    W8,
    W16,
    W32,
    W64,
}

impl BitWidth {
    /// Number of bits in one storage element of this width.
    pub open spec fn spec_bits(self) -> u8 {
        match self {
            BitWidth::W8 => 8,
            BitWidth::W16 => 16,
            BitWidth::W32 => 32,
            BitWidth::W64 => 64,
        }
    }

    /// Number of bits in one storage element of this width.
    #[verifier::when_used_as_spec(spec_bits)]
    pub fn bits(self) -> (r: u8)
        ensures
            r == self.spec_bits(),
    {
        match self {
            BitWidth::W8 => 8,
            BitWidth::W16 => 16,
            BitWidth::W32 => 32,
            BitWidth::W64 => 64,
        }
    }

    /// Largest element value of this width, zero-extended to 64 bits.
    pub open spec fn spec_max(self) -> u64 {
        match self {
            BitWidth::W8 => 0xff,
            BitWidth::W16 => 0xffff,
            BitWidth::W32 => 0xffff_ffff,
            BitWidth::W64 => 0xffff_ffff_ffff_ffff,
        }
    }
}

/// Rejected construction of a bit position: the raw value was not below the
/// element width.
#[derive(Clone, Copy, PartialEq, Eq, Debug)]
pub struct IndexError {
    /// The raw position that was rejected.
    pub raw: u8,
}

/// A validated bit position within one storage element of a known width.
///
/// A value of this type always satisfies `wf()`: the position is strictly
/// below the element width, so an out-of-range index is unrepresentable.
#[derive(Clone, Copy, PartialEq, Eq, Debug)]
pub struct BitIdx {
    width: BitWidth,
    val: u8,
}

impl BitIdx {
    /// The width of the storage element this position points into.
    pub closed spec fn spec_width(self) -> BitWidth {
        self.width
    }

    /// The position as a plain number.
    pub closed spec fn spec_val(self) -> u8 {
        self.val
    }

    /// Well-formedness: the position lies inside the element.
    pub open spec fn wf(self) -> bool {
        self.spec_val() < self.spec_width().spec_bits()
    }

    /// Validates a raw position against an element width. Fails exactly when
    /// `raw` is not below the width, before any mask or memory operation.
    pub fn new(raw: u8, width: BitWidth) -> (r: Result<BitIdx, IndexError>)
        ensures
            r is Ok <==> raw < width.spec_bits(),
            r is Ok ==> r->Ok_0.wf() && r->Ok_0.spec_val() == raw && r->Ok_0.spec_width() == width,
            r is Err ==> r->Err_0 == (IndexError { raw }),
    {
        if raw < width.bits() {
            Ok(BitIdx { width, val: raw })
        } else {
            Err(IndexError { raw })
        }
    }

    /// The position as a plain number.
    pub fn value(self) -> (r: u8)
        ensures
            r == self.spec_val(),
    {
        self.val
    }

    /// The width of the storage element this position points into.
    pub fn width(self) -> (r: BitWidth)
        ensures
            r == self.spec_width(),
    {
        self.width
    }
}

} // verus!
