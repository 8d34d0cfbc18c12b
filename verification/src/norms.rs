//! The norm engine: squared L2 and L-infinity norms over the balanced
//! signed representatives of ring elements.
//!
//! Both norms are defined once per scalar through the `ConvertibleRing`
//! capability and lifted to coefficient sequences by summation (L2) and by
//! maximum (L-infinity). Results are carried as `BigUint`s so that no
//! modulus or degree can overflow them.

use vstd::prelude::*;
use vstd::math::abs;
use num_bigint::BigUint;
use crate::bigint::biguint_from_u128;
use crate::bigint::biguint_value;
use crate::convertible_ring::ConvertibleRing;

verus! {

/// The squared-L2-norm capability.
pub trait WithL2Norm {
    /// The receiver is well formed enough to take a norm of (for a scalar:
    /// its ring parameters are sound).
    spec fn norm_wf(&self) -> bool;

    /// The squared Euclidean norm, as a mathematical integer.
    spec fn l2_norm_squared_spec(&self) -> int;

    /// The squared Euclidean norm of this value.
    fn l2_norm_squared(&self) -> (r: BigUint)
        requires
            self.norm_wf(),
        ensures
            biguint_value(r) == self.l2_norm_squared_spec(),
    ;
}

/// The L-infinity-norm capability.
pub trait WithLinfNorm {
    /// The receiver is well formed enough to take a norm of.
    spec fn norm_wf(&self) -> bool;

    /// The maximum-magnitude norm, as a mathematical integer.
    spec fn linf_norm_spec(&self) -> int;

    /// The maximum-magnitude norm of this value.
    fn linf_norm(&self) -> (r: BigUint)
        requires
            self.norm_wf(),
        ensures
            biguint_value(r) == self.linf_norm_spec(),
    ;
}

impl<F: ConvertibleRing> WithL2Norm for F {
    open spec fn norm_wf(&self) -> bool {
        F::ring_valid()
    }

    open spec fn l2_norm_squared_spec(&self) -> int {
        self.signed_value() * self.signed_value()
    }

    /// The square of the balanced signed representative, computed in the
    /// unbounded integer domain.
    fn l2_norm_squared(&self) -> (r: BigUint) {
        proof {
            self.lemma_signed_in_range();
            F::lemma_signed_range_bounded(self.signed_value());
        }
        let x: i128 = self.to_signed();
        proof {
            assert(0 <= x as int * x as int
                <= 0x4000_0000_0000_0000_0000_0000_0000_0000) by (nonlinear_arith)
                requires
                    -0x8000_0000_0000_0000 <= x as int <= 0x8000_0000_0000_0000,
            ;
        }
        let sq: i128 = x * x;
        biguint_from_u128(sq as u128)
    }
}

impl<F: ConvertibleRing> WithLinfNorm for F {
    open spec fn norm_wf(&self) -> bool {
        F::ring_valid()
    }

    open spec fn linf_norm_spec(&self) -> int {
        abs(self.signed_value()) as int
    }

    /// The absolute value of the balanced signed representative.
    fn linf_norm(&self) -> (r: BigUint) {
        proof {
            self.lemma_signed_in_range();
            F::lemma_signed_range_bounded(self.signed_value());
        }
        let x: i128 = self.to_signed();
        let a: i128 = if x < 0 {
            -x
        } else {
            x
        };
        biguint_from_u128(a as u128)
    }
}

/// The summed squared L2 norm of a sequence of signed representatives.
pub open spec fn sum_l2_norm_squared(s: Seq<int>) -> int
    decreases s.len(),
{
    if s.len() == 0 {
        0
    } else {
        s[0] * s[0] + sum_l2_norm_squared(s.skip(1))
    }
}

/// The maximum L-infinity norm over a sequence of signed representatives.
pub open spec fn max_linf_norm(s: Seq<int>) -> int
    decreases s.len(),
{
    if s.len() == 0 {
        0
    } else {
        vstd::math::max(abs(s[0]) as int, max_linf_norm(s.skip(1)))
    }
}

/// Appending a value adds its square to the summed norm.
pub proof fn lemma_sum_l2_push(s: Seq<int>, e: int)
    ensures
        sum_l2_norm_squared(s.push(e)) == sum_l2_norm_squared(s) + e * e,
    decreases s.len(),
{
    if s.len() == 0 {
        assert(s.push(e) =~= seq![e]);
        assert(seq![e].skip(1) =~= Seq::<int>::empty());
        assert(sum_l2_norm_squared(s.push(e)) == e * e + sum_l2_norm_squared(
            Seq::<int>::empty(),
        ));
    } else {
        lemma_sum_l2_push(s.skip(1), e);
        assert(s.push(e).skip(1) =~= s.skip(1).push(e));
        assert(s.push(e)[0] == s[0]);
        assert(sum_l2_norm_squared(s.push(e)) == s[0] * s[0] + sum_l2_norm_squared(
            s.skip(1).push(e),
        ));
        assert(sum_l2_norm_squared(s) == s[0] * s[0] + sum_l2_norm_squared(s.skip(1)));
    }
}

/// Appending a value takes the maximum of its magnitude into the norm.
pub proof fn lemma_max_linf_push(s: Seq<int>, e: int)
    ensures
        max_linf_norm(s.push(e)) == vstd::math::max(max_linf_norm(s), abs(e) as int),
    decreases s.len(),
{
    if s.len() == 0 {
        assert(s.push(e) =~= seq![e]);
        assert(seq![e].skip(1) =~= Seq::<int>::empty());
        assert(max_linf_norm(s.push(e)) == vstd::math::max(
            abs(e) as int,
            max_linf_norm(Seq::<int>::empty()),
        ));
    } else {
        lemma_max_linf_push(s.skip(1), e);
        assert(s.push(e).skip(1) =~= s.skip(1).push(e));
        assert(s.push(e)[0] == s[0]);
        assert(max_linf_norm(s.push(e)) == vstd::math::max(
            abs(s[0]) as int,
            max_linf_norm(s.skip(1).push(e)),
        ));
        assert(max_linf_norm(s) == vstd::math::max(abs(s[0]) as int, max_linf_norm(s.skip(1))));
    }
}

/// Norm non-negativity and zero case for a scalar: both norms are
/// non-negative, and each vanishes exactly when the element is the additive
/// identity, i.e. when its signed representative is zero.
pub proof fn lemma_scalar_norms_zero_iff<F: ConvertibleRing>(x: F)
    ensures
        x.l2_norm_squared_spec() >= 0,
        WithLinfNorm::linf_norm_spec(&x) >= 0,
        x.l2_norm_squared_spec() == 0 <==> x.signed_value() == 0,
        WithLinfNorm::linf_norm_spec(&x) == 0 <==> x.signed_value() == 0,
{
    let v = x.signed_value();
    if v != 0 {
        assert(v * v > 0) by (nonlinear_arith)
            requires
                v != 0,
        ;
    }
}

/// Norm non-negativity and zero case for a coefficient sequence: the summed
/// squared L2 norm and the maximum L-infinity norm are non-negative, and
/// each vanishes exactly when every signed representative is zero.
pub proof fn lemma_seq_norms_zero_iff(s: Seq<int>)
    ensures
        sum_l2_norm_squared(s) >= 0,
        max_linf_norm(s) >= 0,
        sum_l2_norm_squared(s) == 0 <==> (forall|i: int| 0 <= i < s.len() ==> s[i] == 0),
        max_linf_norm(s) == 0 <==> (forall|i: int| 0 <= i < s.len() ==> s[i] == 0),
    decreases s.len(),
{
    if s.len() == 0 {
    } else {
        let rest = s.skip(1);
        lemma_seq_norms_zero_iff(rest);
        assert(s[0] * s[0] >= 0) by (nonlinear_arith);
        if s[0] != 0 {
            assert(s[0] * s[0] > 0) by (nonlinear_arith)
                requires
                    s[0] != 0,
            ;
        }
        if forall|i: int| 0 <= i < s.len() ==> s[i] == 0 {
            assert forall|j: int| 0 <= j < rest.len() implies rest[j] == 0 by {
                assert(rest[j] == s[j + 1]);
            }
        }
        if sum_l2_norm_squared(s) == 0 {
            assert forall|i: int| 0 <= i < s.len() implies s[i] == 0 by {
                if i > 0 {
                    assert(s[i] == rest[i - 1]);
                }
            }
        }
        if max_linf_norm(s) == 0 {
            assert forall|i: int| 0 <= i < s.len() implies s[i] == 0 by {
                if i > 0 {
                    assert(s[i] == rest[i - 1]);
                }
            }
        }
    }
}

} // verus!
