//! The Chinese Remainder Transform capability: conversion from coefficient
//! representation to evaluation (NTT) representation and back.
//!
//! Each concrete ring binds a coefficient-form type to its paired
//! evaluation-form type; the two share their storage layout, and the
//! conversion applies the ring's modulus-specific in-place transform. The
//! batch operations map the scalar conversion over a sequence, preserving
//! order and length.

use vstd::prelude::*;

verus! {

/// Conversion from coefficient representation to evaluation (NTT)
/// representation.
pub trait CRT: Sized {
    /// The paired evaluation-form type.
    type CRTForm;

    /// The transform as a mathematical map.
    spec fn crt_spec(self) -> Self::CRTForm;

    /// Converts this coefficient-form element to evaluation form.
    fn crt(self) -> (r: Self::CRTForm)
        ensures
            r == self.crt_spec(),
    ;

    /// Converts a batch, element by element, preserving order and length.
    fn crt_vec(elems: Vec<Self>) -> (r: Vec<Self::CRTForm>)
        ensures
            r@.len() == elems@.len(),
            forall|i: int| 0 <= i < elems@.len() ==> r@[i] == (#[trigger] elems@[i]).crt_spec(),
    {
        let mut rest = elems;
        let ghost orig = rest@;
        let mut out: Vec<Self::CRTForm> = Vec::new();
        while rest.len() > 0
            invariant
                out@.len() + rest@.len() == orig.len(),
                forall|i: int| 0 <= i < out@.len() ==> out@[i] == (#[trigger] orig[i]).crt_spec(),
                forall|i: int| 0 <= i < rest@.len() ==> #[trigger] rest@[i] == orig[out@.len() + i],
            decreases rest@.len(),
        {
            let x = rest.remove(0);
            out.push(x.crt());
        }
        out
    }
}

/// Conversion from evaluation (NTT) representation back to coefficient
/// representation.
pub trait ICRT: Sized {
    /// The paired coefficient-form type.
    type ICRTForm;

    /// The inverse transform as a mathematical map.
    spec fn icrt_spec(self) -> Self::ICRTForm;

    /// Converts this evaluation-form element back to coefficient form.
    fn icrt(self) -> (r: Self::ICRTForm)
        ensures
            r == self.icrt_spec(),
    ;

    /// Converts a batch, element by element, preserving order and length.
    fn icrt_vec(elems: Vec<Self>) -> (r: Vec<Self::ICRTForm>)
        ensures
            r@.len() == elems@.len(),
            forall|i: int| 0 <= i < elems@.len() ==> r@[i] == (#[trigger] elems@[i]).icrt_spec(),
    {
        let mut rest = elems;
        let ghost orig = rest@;
        let mut out: Vec<Self::ICRTForm> = Vec::new();
        while rest.len() > 0
            invariant
                out@.len() + rest@.len() == orig.len(),
                forall|i: int| 0 <= i < out@.len() ==> out@[i] == (#[trigger] orig[i]).icrt_spec(),
                forall|i: int| 0 <= i < rest@.len() ==> #[trigger] rest@[i] == orig[out@.len() + i],
            decreases rest@.len(),
        {
            let x = rest.remove(0);
            out.push(x.icrt());
        }
        out
    }
}

} // verus!
