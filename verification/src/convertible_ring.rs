//! The `ConvertibleRing` capability: lossless conversion between a ring
//! element and wide machine integers, in an unsigned (canonical residue)
//! view and a signed (balanced representative) view.
//!
//! The decomposition and norm engines are written once against this
//! interface; a concrete ring satisfies it without the generic code knowing
//! its representation.

use vstd::prelude::*;

verus! {

/// A ring element type convertible to and from signed and unsigned integers.
///
/// The signed view is the balanced representative used by decomposition and
/// the norms; the unsigned view is the canonical non-negative residue. The
/// integer types are wide enough that no representable element overflows
/// them, so the conversions are total over the stated ranges.
pub trait ConvertibleRing: Sized + Copy {
    /// The concrete ring's compile-time parameters are sound (for a residue
    /// ring: a nonzero modulus). Exec constructors ask for it; a correctly
    /// configured instantiation satisfies it by construction.
    spec fn ring_valid() -> bool;

    /// The balanced signed representative of this element.
    spec fn signed_value(self) -> int;

    /// The canonical unsigned representative of this element.
    spec fn unsigned_value(self) -> int;

    /// Which integers occur as signed representatives.
    spec fn in_signed_range(v: int) -> bool;

    /// Which integers occur as unsigned representatives.
    spec fn in_unsigned_range(v: int) -> bool;

    /// The signed view of every element lies in the signed range.
    proof fn lemma_signed_in_range(self)
        requires
            Self::ring_valid(),
        ensures
            Self::in_signed_range(self.signed_value()),
    ;

    /// The signed range is closed under taking intermediate values, so a
    /// digit squeezed between two representable bounds is representable.
    proof fn lemma_signed_range_interval(lo: int, v: int, hi: int)
        requires
            Self::in_signed_range(lo),
            Self::in_signed_range(hi),
            lo <= v <= hi,
        ensures
            Self::in_signed_range(v),
    ;

    /// Signed representatives fit in a 64-bit signed word, so squares and
    /// digit arithmetic stay inside `i128`.
    proof fn lemma_signed_range_bounded(v: int)
        requires
            Self::in_signed_range(v),
        ensures
            -0x8000_0000_0000_0000 <= v <= 0x8000_0000_0000_0000,
    ;

    /// Converts this element to its balanced signed representative.
    fn to_signed(self) -> (r: i128)
        ensures
            r as int == self.signed_value(),
    ;

    /// Builds the element whose balanced signed representative is `v`.
    fn from_signed(v: i128) -> (r: Self)
        requires
            Self::ring_valid(),
            Self::in_signed_range(v as int),
        ensures
            r.signed_value() == v as int,
    ;

    /// Converts this element to its canonical unsigned representative.
    fn to_unsigned(self) -> (r: u128)
        ensures
            r as int == self.unsigned_value(),
    ;

    /// Builds the element whose canonical unsigned representative is `v`.
    fn from_unsigned(v: u128) -> (r: Self)
        requires
            Self::ring_valid(),
            Self::in_unsigned_range(v as int),
        ensures
            r.unsigned_value() == v as int,
    ;

    /// The additive identity: the element both of whose integer views are
    /// zero.
    fn identity() -> (r: Self)
        requires
            Self::ring_valid(),
        ensures
            r.signed_value() == 0,
            r.unsigned_value() == 0,
    ;
}

} // verus!
