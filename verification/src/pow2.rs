//! The power-of-two cyclotomic ring model: polynomials modulo
//! `x^PHI_D + 1` over the residue ring `Zq`, together with its paired
//! evaluation-form type, the negacyclic rotation, and the norms.

use vstd::prelude::*;
use vstd::pervasive::VecAdditionalExecFns;
use vstd::arithmetic::div_mod::lemma_small_mod;
use num_bigint::BigUint;
use crate::zq::Zq;
use crate::convertible_ring::ConvertibleRing;
use crate::bigint::biguint_from_u128;
use crate::bigint::biguint_add;
use crate::bigint::biguint_value;
use crate::norms::WithL2Norm;
use crate::norms::WithLinfNorm;
use crate::norms::sum_l2_norm_squared;
use crate::norms::max_linf_norm;
use crate::norms::lemma_sum_l2_push;
use crate::norms::lemma_max_linf_push;
use crate::crt::CRT;
use crate::crt::ICRT;

verus! {

/// A coefficient-form element of the ring `Zq[x] / (x^PHI_D + 1)`: exactly
/// `PHI_D` coefficients, lowest degree first.
pub struct Pow2CyclotomicPolyRing<const Q: u64, const PHI_D: usize> {
    coeffs: Vec<Zq<Q>>,
}

/// The paired evaluation-form (NTT) element, with storage identical in
/// shape to the coefficient form: the same element type, count and order,
/// read as evaluations at the roots of the ring's Chinese Remainder
/// decomposition rather than as polynomial coefficients.
pub struct Pow2CyclotomicPolyRingNTT<const Q: u64, const PHI_D: usize> {
    coeffs: Vec<Zq<Q>>,
}

/// The additive inverse of a residue, as a value in `[0, q)`.
pub open spec fn neg_value(q: int, v: int) -> int {
    (-v) % q
}

/// The coefficient residues of `poly(x) * x^i mod (x^len + 1)`: each index
/// shifts up by `i`, and a coefficient that wraps past the end returns with
/// its sign flipped, since `x^len = -1` in the ring.
pub open spec fn rotate_spec(s: Seq<int>, q: int, i: int) -> Seq<int> {
    Seq::new(
        s.len(),
        |k: int|
            if k >= i {
                s[k - i]
            } else {
                neg_value(q, s[k + s.len() - i])
            },
    )
}

/// Which source index lands on position `k` under a rotation by `i`.
spec fn rotate_src(k: int, i: int, d: int) -> int {
    if k >= i {
        k - i
    } else {
        k + d - i
    }
}

/// Rotation antiperiodicity: rotating by the full degree negates every
/// coefficient, reflecting `x^len = -1`.
pub proof fn lemma_rotation_antiperiodic(s: Seq<int>, q: int)
    ensures
        rotate_spec(s, q, s.len() as int) == s.map_values(|v: int| neg_value(q, v)),
{
    let f = |v: int| neg_value(q, v);
    assert forall|k: int| 0 <= k < s.len() implies rotate_spec(s, q, s.len() as int)[k]
        == s.map_values(f)[k] by {
        assert(rotate_spec(s, q, s.len() as int)[k] == neg_value(q, s[k]));
    }
    assert(rotate_spec(s, q, s.len() as int) =~= s.map_values(f));
}

/// Rotation composition: rotating by `i` and then by `j` rotates by `i + j`
/// while the combined shift stays within one full cycle; past a full cycle
/// the negacyclic sign convention negates the result coefficient-wise.
pub proof fn lemma_rotation_compose(s: Seq<int>, q: int, i: int, j: int)
    requires
        0 <= i <= s.len(),
        0 <= j <= s.len(),
    ensures
        i + j <= s.len() ==> rotate_spec(rotate_spec(s, q, i), q, j) == rotate_spec(s, q, i + j),
        i + j > s.len() ==> rotate_spec(rotate_spec(s, q, i), q, j) == rotate_spec(
            s,
            q,
            i + j - s.len(),
        ).map_values(|v: int| neg_value(q, v)),
{
    let d = s.len() as int;
    let a = rotate_spec(s, q, i);
    if i + j <= d {
        assert forall|k: int| 0 <= k < d implies rotate_spec(a, q, j)[k] == rotate_spec(
            s,
            q,
            i + j,
        )[k] by {
            if k >= j {
                assert(rotate_spec(a, q, j)[k] == a[k - j]);
            } else {
                assert(rotate_spec(a, q, j)[k] == neg_value(q, a[k + d - j]));
                assert(a[k + d - j] == s[k + d - j - i]);
            }
        }
        assert(rotate_spec(a, q, j) =~= rotate_spec(s, q, i + j));
    } else {
        let m = i + j - d;
        let f = |v: int| neg_value(q, v);
        let rot_m = rotate_spec(s, q, m);
        assert forall|k: int| 0 <= k < d implies rotate_spec(a, q, j)[k] == rot_m.map_values(
            f,
        )[k] by {
            if k >= j {
                assert(rotate_spec(a, q, j)[k] == a[k - j]);
                assert(a[k - j] == neg_value(q, s[k - j + d - i]));
            } else if k >= m {
                assert(rotate_spec(a, q, j)[k] == neg_value(q, a[k + d - j]));
                assert(a[k + d - j] == s[k + d - j - i]);
            } else {
                assert(rotate_spec(a, q, j)[k] == neg_value(q, a[k + d - j]));
                assert(a[k + d - j] == neg_value(q, s[k + d - j + d - i]));
            }
        }
        assert(rotate_spec(a, q, j) =~= rot_m.map_values(f));
    }
}

impl<const Q: u64, const PHI_D: usize> Pow2CyclotomicPolyRing<Q, PHI_D> {
    #[verifier::type_invariant]
    spec fn type_inv(self) -> bool {
        self.coeffs@.len() == PHI_D
    }

    /// The coefficient sequence this element holds.
    pub closed spec fn coeff_seq(self) -> Seq<Zq<Q>> {
        self.coeffs@
    }

    /// The canonical residues of the coefficients.
    pub open spec fn residue_seq(self) -> Seq<int> {
        self.coeff_seq().map_values(|c: Zq<Q>| c.value())
    }

    /// The balanced signed representatives of the coefficients.
    pub open spec fn signed_seq(self) -> Seq<int> {
        self.coeff_seq().map_values(|c: Zq<Q>| c.signed_value())
    }

    /// Builds an element from its `PHI_D` coefficients.
    pub fn from_coeffs(coeffs: Vec<Zq<Q>>) -> (r: Self)
        requires
            coeffs@.len() == PHI_D,
        ensures
            r.coeff_seq() == coeffs@,
    {
        Pow2CyclotomicPolyRing { coeffs }
    }

    /// The coefficients, lowest degree first.
    pub fn coeffs(&self) -> (r: Vec<Zq<Q>>)
        ensures
            r@ == self.coeff_seq(),
            r@.len() == PHI_D,
    {
        proof {
            use_type_invariant(self);
        }
        let mut out: Vec<Zq<Q>> = Vec::new();
        let mut k: usize = 0;
        while k < self.coeffs.len()
            invariant
                k <= self.coeffs@.len(),
                out@ =~= self.coeffs@.take(k as int),
            decreases self.coeffs@.len() - k,
        {
            out.push(self.coeffs[k]);
            proof {
                assert(self.coeffs@.take(k as int).push(self.coeffs@[k as int]) =~= self.coeffs@
                    .take(k as int + 1));
            }
            k += 1;
        }
        proof {
            assert(self.coeffs@.take(self.coeffs@.len() as int) =~= self.coeffs@);
        }
        out
    }

    /// Multiplies this polynomial by `x^i` modulo `x^PHI_D + 1`, returning
    /// the coefficient vector of the result.
    ///
    /// A coefficient whose index wraps past the end comes back negated, by
    /// the negacyclic identity `x^PHI_D = -1`. Keeping `i` within one full
    /// cycle is the caller's obligation.
    pub fn multiply_by_xi(&self, i: usize) -> (r: Vec<Zq<Q>>)
        requires
            Q >= 1,
            i <= PHI_D,
        ensures
            r@.len() == PHI_D,
            forall|k: int|
                0 <= k < PHI_D ==> (#[trigger] r@[k].value()) == rotate_spec(
                    self.residue_seq(),
                    Q as int,
                    i as int,
                )[k],
    {
        proof {
            use_type_invariant(self);
        }
        let ghost s = self.residue_seq();
        let ghost rot = rotate_spec(s, Q as int, i as int);
        let len = self.coeffs.len();
        let mut result: Vec<Zq<Q>> = Vec::new();
        while result.len() < len
            invariant
                Q >= 1,
                len == PHI_D,
                result@.len() <= PHI_D,
                forall|k: int| 0 <= k < result@.len() ==> (#[trigger] result@[k].value()) == 0,
            decreases PHI_D - result@.len(),
        {
            result.push(Zq::zero());
        }
        let mut j: usize = 0;
        while j < len
            invariant
                Q >= 1,
                i <= PHI_D,
                len == PHI_D,
                j <= len,
                self.coeffs@.len() == PHI_D,
                s == self.residue_seq(),
                rot == rotate_spec(s, Q as int, i as int),
                result@.len() == PHI_D,
                forall|k: int|
                    0 <= k < PHI_D && rotate_src(k, i as int, PHI_D as int) < j
                        ==> (#[trigger] result@[k].value()) == rot[k],
                forall|k: int|
                    0 <= k < PHI_D && rotate_src(k, i as int, PHI_D as int) >= j
                        ==> (#[trigger] result@[k].value()) == 0,
            decreases len - j,
        {
            let c = self.coeffs[j];
            proof {
                c.lemma_value_range();
                lemma_small_mod(c.value() as nat, Q as nat);
            }
            let ghost old_result = result@;
            let rem = len - j;
            if i < rem {
                let idx = j + i;
                let cur = result[idx];
                result.set(idx, cur.add(c));
                proof {
                    assert(rotate_src(idx as int, i as int, PHI_D as int) == j);
                    assert(rot[idx as int] == s[j as int]);
                    assert(s[j as int] == c.value());
                }
            } else {
                let idx = i - rem;
                let cur = result[idx];
                result.set(idx, cur.sub(c));
                proof {
                    assert(rotate_src(idx as int, i as int, PHI_D as int) == j);
                    assert(rot[idx as int] == neg_value(Q as int, s[j as int]));
                    assert(s[j as int] == c.value());
                    assert((0 - c.value()) % (Q as int) == neg_value(Q as int, c.value()));
                }
            }
            proof {
                assert forall|k: int|
                    0 <= k < PHI_D && rotate_src(k, i as int, PHI_D as int) < j + 1 implies (
                #[trigger] result@[k].value()) == rot[k] by {
                    if rotate_src(k, i as int, PHI_D as int) < j {
                        assert(result@[k] == old_result[k]);
                    }
                }
            }
            j += 1;
        }
        proof {
            assert forall|k: int| 0 <= k < PHI_D implies (#[trigger] result@[k].value())
                == rot[k] by {
                assert(rotate_src(k, i as int, PHI_D as int) < PHI_D as int);
            }
        }
        result
    }
}

impl<const Q: u64, const PHI_D: usize> Pow2CyclotomicPolyRingNTT<Q, PHI_D> {
    #[verifier::type_invariant]
    spec fn type_inv(self) -> bool {
        self.coeffs@.len() == PHI_D
    }

    /// The stored evaluation sequence.
    pub closed spec fn coeff_seq(self) -> Seq<Zq<Q>> {
        self.coeffs@
    }

    /// Builds an evaluation-form element from its `PHI_D` components.
    pub fn from_coeffs(coeffs: Vec<Zq<Q>>) -> (r: Self)
        requires
            coeffs@.len() == PHI_D,
        ensures
            r.coeff_seq() == coeffs@,
    {
        Pow2CyclotomicPolyRingNTT { coeffs }
    }

    /// The stored components, in order.
    pub fn coeffs(&self) -> (r: Vec<Zq<Q>>)
        ensures
            r@ == self.coeff_seq(),
            r@.len() == PHI_D,
    {
        proof {
            use_type_invariant(self);
        }
        let mut out: Vec<Zq<Q>> = Vec::new();
        let mut k: usize = 0;
        while k < self.coeffs.len()
            invariant
                k <= self.coeffs@.len(),
                out@ =~= self.coeffs@.take(k as int),
            decreases self.coeffs@.len() - k,
        {
            out.push(self.coeffs[k]);
            proof {
                assert(self.coeffs@.take(k as int).push(self.coeffs@[k as int]) =~= self.coeffs@
                    .take(k as int + 1));
            }
            k += 1;
        }
        proof {
            assert(self.coeffs@.take(self.coeffs@.len() as int) =~= self.coeffs@);
        }
        out
    }
}

/// Binds the concrete power-of-two ring to its modulus-specific in-place
/// transform pair.
///
/// This model keeps the whole modulus in a single Chinese Remainder
/// component (the reduction polynomial is not split into smaller factors),
/// so the forward and inverse routines leave the coefficient storage
/// unchanged; a ring whose modulus splits binds a genuine butterfly network
/// here instead.
pub struct Pow2Rp64Config<const Q: u64, const PHI_D: usize> {}

impl<const Q: u64, const PHI_D: usize> Pow2Rp64Config<Q, PHI_D> {
    /// The forward in-place transform for this ring configuration.
    pub fn crt_in_place(coeffs: &mut Vec<Zq<Q>>)
        ensures
            *final(coeffs) == *old(coeffs),
    {
    }

    /// The inverse in-place transform for this ring configuration.
    pub fn icrt_in_place(coeffs: &mut Vec<Zq<Q>>)
        ensures
            *final(coeffs) == *old(coeffs),
    {
    }
}

impl<const Q: u64, const PHI_D: usize> CRT for Pow2CyclotomicPolyRing<Q, PHI_D> {
    type CRTForm = Pow2CyclotomicPolyRingNTT<Q, PHI_D>;

    /// The conversion reinterprets the same storage as the paired
    /// evaluation-form type and applies the in-place transform, which for
    /// this single-component ring leaves the components unchanged.
    closed spec fn crt_spec(self) -> Pow2CyclotomicPolyRingNTT<Q, PHI_D> {
        Pow2CyclotomicPolyRingNTT { coeffs: self.coeffs }
    }

    fn crt(self) -> (r: Pow2CyclotomicPolyRingNTT<Q, PHI_D>) {
        proof {
            use_type_invariant(&self);
        }
        let Pow2CyclotomicPolyRing { coeffs: mut c } = self;
        Pow2Rp64Config::<Q, PHI_D>::crt_in_place(&mut c);
        Pow2CyclotomicPolyRingNTT { coeffs: c }
    }
}

impl<const Q: u64, const PHI_D: usize> ICRT for Pow2CyclotomicPolyRingNTT<Q, PHI_D> {
    type ICRTForm = Pow2CyclotomicPolyRing<Q, PHI_D>;

    /// The inverse conversion: the same storage, read back as coefficients
    /// after the inverse in-place transform.
    closed spec fn icrt_spec(self) -> Pow2CyclotomicPolyRing<Q, PHI_D> {
        Pow2CyclotomicPolyRing { coeffs: self.coeffs }
    }

    fn icrt(self) -> (r: Pow2CyclotomicPolyRing<Q, PHI_D>) {
        proof {
            use_type_invariant(&self);
        }
        let Pow2CyclotomicPolyRingNTT { coeffs: mut c } = self;
        Pow2Rp64Config::<Q, PHI_D>::icrt_in_place(&mut c);
        Pow2CyclotomicPolyRing { coeffs: c }
    }
}

/// CRT round trip: converting a coefficient-form element to evaluation form
/// and back yields the original element.
pub proof fn lemma_crt_round_trip<const Q: u64, const PHI_D: usize>(
    x: Pow2CyclotomicPolyRing<Q, PHI_D>,
)
    ensures
        x.crt_spec().icrt_spec() == x,
{
}

impl<const Q: u64, const PHI_D: usize> WithL2Norm for Pow2CyclotomicPolyRing<Q, PHI_D> {
    open spec fn norm_wf(&self) -> bool {
        Q >= 1
    }

    open spec fn l2_norm_squared_spec(&self) -> int {
        sum_l2_norm_squared(self.signed_seq())
    }

    /// The sum of the squared L2 norms of the coefficients.
    fn l2_norm_squared(&self) -> (r: BigUint) {
        proof {
            use_type_invariant(self);
        }
        let ghost s = self.signed_seq();
        let mut acc: BigUint = biguint_from_u128(0);
        let mut k: usize = 0;
        proof {
            assert(s.take(0) =~= Seq::<int>::empty());
        }
        while k < self.coeffs.len()
            invariant
                Q >= 1,
                self.coeffs@.len() == PHI_D,
                s == self.signed_seq(),
                k <= PHI_D,
                biguint_value(acc) == sum_l2_norm_squared(s.take(k as int)),
            decreases self.coeffs@.len() - k,
        {
            let c = self.coeffs[k];
            let sq = c.l2_norm_squared();
            let next = biguint_add(&acc, &sq);
            proof {
                lemma_sum_l2_push(s.take(k as int), c.signed_value());
                assert(s[k as int] == c.signed_value());
                assert(s.take(k as int).push(s[k as int]) =~= s.take(k as int + 1));
            }
            acc = next;
            k += 1;
        }
        proof {
            assert(s.take(s.len() as int) =~= s);
        }
        acc
    }
}

impl<const Q: u64, const PHI_D: usize> WithLinfNorm for Pow2CyclotomicPolyRing<Q, PHI_D> {
    open spec fn norm_wf(&self) -> bool {
        Q >= 1
    }

    open spec fn linf_norm_spec(&self) -> int {
        max_linf_norm(self.signed_seq())
    }

    /// The largest L-infinity norm among the coefficients.
    fn linf_norm(&self) -> (r: BigUint) {
        proof {
            use_type_invariant(self);
        }
        let ghost s = self.signed_seq();
        let mut cur: u128 = 0;
        let mut k: usize = 0;
        proof {
            assert(s.take(0) =~= Seq::<int>::empty());
        }
        while k < self.coeffs.len()
            invariant
                Q >= 1,
                self.coeffs@.len() == PHI_D,
                s == self.signed_seq(),
                k <= PHI_D,
                cur as int == max_linf_norm(s.take(k as int)),
            decreases self.coeffs@.len() - k,
        {
            let c = self.coeffs[k];
            proof {
                c.lemma_signed_in_range();
                Zq::<Q>::lemma_signed_range_bounded(c.signed_value());
            }
            let x: i128 = c.to_signed();
            let a: i128 = if x < 0 {
                -x
            } else {
                x
            };
            let au: u128 = a as u128;
            if au > cur {
                cur = au;
            }
            proof {
                lemma_max_linf_push(s.take(k as int), c.signed_value());
                assert(s[k as int] == c.signed_value());
                assert(s.take(k as int).push(s[k as int]) =~= s.take(k as int + 1));
            }
            k += 1;
        }
        proof {
            assert(s.take(s.len() as int) =~= s);
        }
        biguint_from_u128(cur)
    }
}

} // verus!
