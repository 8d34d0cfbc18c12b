//! Balanced base-`b` decomposition of ring elements.
//!
//! An element is mapped through its balanced signed representative and
//! split into digits with the centered-remainder convention: each digit
//! lies in `(-b/2, b/2]`, and the digits recompose exactly to the original
//! signed value. Lattice protocols use this to control norm growth.

use vstd::prelude::*;
use vstd::math::abs;
use vstd::arithmetic::div_mod::lemma_fundamental_div_mod;
use vstd::arithmetic::div_mod::lemma_fundamental_div_mod_converse;
use vstd::arithmetic::div_mod::lemma_mod_division_less_than_divisor;
use vstd::arithmetic::div_mod::lemma_div_multiples_vanish;
use crate::convertible_ring::ConvertibleRing;

verus! {

/// The centered remainder of `v` modulo `b`: the Euclidean remainder, with
/// `b` subtracted whenever that remainder exceeds `b/2`, so the result lies
/// in `(-b/2, b/2]`.
pub open spec fn centered_rem(v: int, b: int) -> int {
    if 2 * (v % b) > b {
        v % b - b
    } else {
        v % b
    }
}

/// The running value left after one digit has been extracted.
pub open spec fn centered_quot(v: int, b: int) -> int {
    (v - centered_rem(v, b)) / b
}

/// One extraction step: the digit is balanced, the step divides exactly,
/// and the running value strictly shrinks until it reaches zero.
pub proof fn lemma_centered_step(v: int, b: int)
    requires
        b >= 2,
        b == 2 ==> v >= 0,
    ensures
        -b < 2 * centered_rem(v, b) <= b,
        v == b * centered_quot(v, b) + centered_rem(v, b),
        abs(centered_quot(v, b)) <= abs(v),
        v != 0 ==> abs(centered_quot(v, b)) < abs(v),
        b == 2 ==> centered_quot(v, b) >= 0,
{
    let r0 = v % b;
    let q0 = v / b;
    lemma_fundamental_div_mod(v, b);
    lemma_mod_division_less_than_divisor(v, b);
    let d = centered_rem(v, b);
    let q = if 2 * r0 > b { q0 + 1 } else { q0 };
    assert(v - d == b * q) by {
        assert(b * (q0 + 1) == b * q0 + b) by (nonlinear_arith);
    };
    lemma_div_multiples_vanish(q, b);
    assert(centered_quot(v, b) == q);
    if v > 0 {
        assert(0 <= q && q < v) by (nonlinear_arith)
            requires
                v == b * q + d,
                -b < 2 * d <= b,
                b >= 2,
                v > 0,
        ;
    } else if v < 0 {
        assert(v < q && q <= 0) by (nonlinear_arith)
            requires
                v == b * q + d,
                -b < 2 * d <= b,
                b >= 3,
                v < 0,
        ;
    } else {
        assert(q == 0) by (nonlinear_arith)
            requires
                0 == b * q + d,
                -b < 2 * d <= b,
                b >= 2,
        ;
    }
}

/// The balanced base-`b` digit string of `v`: empty for zero, otherwise the
/// centered remainder followed by the digits of the reduced value.
pub open spec fn balanced_digits(v: int, b: int) -> Seq<int>
    decreases abs(v)
        when b >= 2 && (b == 2 ==> v >= 0)
        via balanced_digits_decreases
{
    if v == 0 {
        Seq::empty()
    } else {
        seq![centered_rem(v, b)] + balanced_digits(centered_quot(v, b), b)
    }
}

#[via_fn]
proof fn balanced_digits_decreases(v: int, b: int) {
    lemma_centered_step(v, b);
}

/// The value that a digit string denotes: `sum digit_i * b^i`.
pub open spec fn recompose(digits: Seq<int>, b: int) -> int
    decreases digits.len(),
{
    if digits.len() == 0 {
        0
    } else {
        digits[0] + b * recompose(digits.skip(1), b)
    }
}

/// Decomposition balance: every digit of the balanced digit string lies in
/// `(-b/2, b/2]`.
pub proof fn lemma_digits_balanced(v: int, b: int)
    requires
        b >= 2,
        b == 2 ==> v >= 0,
    ensures
        forall|i: int|
            0 <= i < balanced_digits(v, b).len() ==> -b < 2 * #[trigger] balanced_digits(
                v,
                b,
            )[i] <= b,
    decreases abs(v),
{
    if v != 0 {
        lemma_centered_step(v, b);
        lemma_digits_balanced(centered_quot(v, b), b);
        let s = balanced_digits(v, b);
        let rest = balanced_digits(centered_quot(v, b), b);
        assert forall|i: int| 0 <= i < s.len() implies -b < 2 * #[trigger] s[i] <= b by {
            if i > 0 {
                assert(s[i] == rest[i - 1]);
            }
        }
    }
}

/// Decomposition recomposition: the balanced digits of `v` reassemble to
/// exactly `v`.
pub proof fn lemma_digits_recompose(v: int, b: int)
    requires
        b >= 2,
        b == 2 ==> v >= 0,
    ensures
        recompose(balanced_digits(v, b), b) == v,
    decreases abs(v),
{
    if v != 0 {
        lemma_centered_step(v, b);
        lemma_digits_recompose(centered_quot(v, b), b);
        let q = centered_quot(v, b);
        let s = balanced_digits(v, b);
        assert(s.skip(1) =~= balanced_digits(q, b));
        assert(recompose(s, b) == centered_rem(v, b) + b * recompose(balanced_digits(q, b), b));
    }
}

/// Zero decomposition: the additive identity has the empty digit string.
pub proof fn lemma_zero_digits(b: int)
    requires
        b >= 2,
    ensures
        balanced_digits(0, b) == Seq::<int>::empty(),
{
}

/// Appending a zero digit never changes the value a digit string denotes,
/// so right-padding preserves recomposition.
pub proof fn lemma_recompose_padding(digits: Seq<int>, b: int)
    ensures
        recompose(digits.push(0), b) == recompose(digits, b),
    decreases digits.len(),
{
    if digits.len() == 0 {
        assert(digits.push(0) =~= seq![0]);
        assert(recompose(seq![0int], b) == 0 + b * recompose(seq![0int].skip(1), b));
        assert(seq![0int].skip(1) =~= Seq::<int>::empty());
    } else {
        lemma_recompose_padding(digits.skip(1), b);
        assert(digits.push(0).skip(1) =~= digits.skip(1).push(0));
        assert(digits.push(0)[0] == digits[0]);
    }
}

/// The decomposition capability. Every convertible ring decomposes by the
/// balanced algorithm; the blanket implementation below is the only one.
pub trait Decompose: ConvertibleRing {
    /// Balanced base-`b` decomposition; see [`decompose_balanced`].
    fn decompose(&self, b: u128, padding_size: Option<usize>) -> (digits: Vec<Self>)
        requires
            Self::ring_valid(),
            2 <= b <= 0x7fff_ffff_ffff_ffff_ffff_ffff_ffff_ffff,
            b == 2 ==> self.signed_value() >= 0,
            Self::in_signed_range(b as int / 2),
            Self::in_signed_range(-((b as int - 1) / 2)),
        ensures
            ({
                let nat_digits = balanced_digits(self.signed_value(), b as int);
                let target = match padding_size {
                    Some(n) => vstd::math::max(n as int, nat_digits.len() as int),
                    None => nat_digits.len() as int,
                };
                &&& digits@.len() == target
                &&& forall|i: int|
                    0 <= i < nat_digits.len() ==> #[trigger] digits@[i].signed_value()
                        == nat_digits[i]
                &&& forall|i: int|
                    nat_digits.len() <= i < digits@.len() ==> #[trigger] digits@[i].signed_value()
                        == 0
            }),
    ;
}

impl<R: ConvertibleRing> Decompose for R {
    fn decompose(&self, b: u128, padding_size: Option<usize>) -> (digits: Vec<Self>) {
        decompose_balanced(self, b, padding_size)
    }
}

/// Balanced base-`b` decomposition of a ring element.
///
/// The element's balanced signed representative is split into centered
/// digits, each mapped back into the ring. When `padding_size` asks for
/// more digits than the value needs, the string is right-padded with the
/// additive identity; it is never truncated. Base 2 is the one degenerate
/// base: its balanced digits are only 0 and 1, so negative representatives
/// have no finite digit string and stay outside the domain.
pub fn decompose_balanced<R: ConvertibleRing>(
    x: &R,
    b: u128,
    padding_size: Option<usize>,
) -> (digits: Vec<R>)
    requires
        R::ring_valid(),
        2 <= b <= 0x7fff_ffff_ffff_ffff_ffff_ffff_ffff_ffff,
        b == 2 ==> x.signed_value() >= 0,
        R::in_signed_range(b as int / 2),
        R::in_signed_range(-((b as int - 1) / 2)),
    ensures
        ({
            let nat_digits = balanced_digits(x.signed_value(), b as int);
            let target = match padding_size {
                Some(n) => vstd::math::max(n as int, nat_digits.len() as int),
                None => nat_digits.len() as int,
            };
            &&& digits@.len() == target
            &&& forall|i: int|
                0 <= i < nat_digits.len() ==> #[trigger] digits@[i].signed_value() == nat_digits[i]
            &&& forall|i: int|
                nat_digits.len() <= i < digits@.len() ==> #[trigger] digits@[i].signed_value()
                    == 0
        }),
{
    let ghost v0 = x.signed_value();
    let ghost bb = b as int;
    let ghost nat_digits = balanced_digits(v0, bb);
    let bi: i128 = b as i128;
    let mut v: i128 = x.to_signed();
    let mut digits: Vec<R> = Vec::new();
    proof {
        x.lemma_signed_in_range();
        R::lemma_signed_range_bounded(v0);
        assert(nat_digits.skip(0) =~= nat_digits);
    }
    while v != 0
        invariant
            R::ring_valid(),
            2 <= bb <= 0x7fff_ffff_ffff_ffff_ffff_ffff_ffff_ffff,
            bi == bb,
            bb == b,
            bb == 2 ==> v >= 0,
            -0x8000_0000_0000_0000 <= v <= 0x8000_0000_0000_0000,
            R::in_signed_range(bb / 2),
            R::in_signed_range(-((bb - 1) / 2)),
            nat_digits == balanced_digits(v0, bb),
            digits@.len() <= nat_digits.len(),
            balanced_digits(v as int, bb) == nat_digits.skip(digits@.len() as int),
            forall|i: int|
                0 <= i < digits@.len() ==> #[trigger] digits@[i].signed_value() == nat_digits[i],
        decreases abs(v as int),
    {
        let ghost old_v = v as int;
        let ghost cr = centered_rem(old_v, bb);
        let ghost q = centered_quot(old_v, bb);
        let ghost k = digits@.len() as int;
        proof {
            lemma_centered_step(old_v, bb);
        }
        let r0: i128 = if v >= 0 {
            v % bi
        } else {
            let m: i128 = (-v) % bi;
            proof {
                lemma_fundamental_div_mod(-old_v, bb);
                lemma_mod_division_less_than_divisor(-old_v, bb);
                let q1 = (-old_v) / bb;
                assert(m == (-old_v) % bb);
                if m == 0 {
                    assert(old_v == (-q1) * bb + 0) by (nonlinear_arith)
                        requires
                            -old_v == bb * q1 + 0,
                    ;
                    lemma_fundamental_div_mod_converse(old_v, bb, -q1, 0);
                } else {
                    assert(old_v == (-q1 - 1) * bb + (bb - m as int)) by (nonlinear_arith)
                        requires
                            -old_v == bb * q1 + m as int,
                    ;
                    lemma_fundamental_div_mod_converse(old_v, bb, -q1 - 1, bb - m as int);
                }
            }
            if m == 0 {
                0
            } else {
                bi - m
            }
        };
        proof {
            assert(r0 as int == old_v % bb);
            lemma_fundamental_div_mod(bb, 2);
            lemma_mod_division_less_than_divisor(bb, 2);
        }
        let half: i128 = bi / 2;
        let d: i128 = if r0 > half {
            r0 - bi
        } else {
            r0
        };
        proof {
            assert(d as int == cr);
            assert(-((bb - 1) / 2) <= d as int && d as int <= bb / 2) by {
                lemma_fundamental_div_mod(bb - 1, 2);
                lemma_mod_division_less_than_divisor(bb - 1, 2);
            };
            R::lemma_signed_range_interval(-((bb - 1) / 2), d as int, bb / 2);
        }
        let elem: R = R::from_signed(d);
        let ghost old_digits = digits@;
        digits.push(elem);
        let vnext: i128 = if v >= 0 {
            proof {
                if old_v < bi as int {
                    vstd::arithmetic::div_mod::lemma_small_mod(old_v as nat, bb as nat);
                }
                assert(0 <= old_v - d as int);
                assert(old_v - d as int == bb * q);
                lemma_div_multiples_vanish(q, bb);
            }
            (v - d) / bi
        } else {
            proof {
                assert(d as int - old_v == bb * (-q)) by (nonlinear_arith)
                    requires
                        old_v == bb * q + d as int,
                ;
                assert(bb * (-q) >= 0) by (nonlinear_arith)
                    requires
                        bb >= 2,
                        q <= 0,
                ;
                lemma_div_multiples_vanish(-q, bb);
            }
            -((d - v) / bi)
        };
        proof {
            assert(vnext as int == q);
            assert(balanced_digits(old_v, bb) == seq![cr] + balanced_digits(q, bb));
            assert(nat_digits.skip(k) == seq![cr] + balanced_digits(q, bb));
            assert(0 <= k && k < nat_digits.len());
            assert(nat_digits.skip(k)[0] == nat_digits[k]);
            assert(elem.signed_value() == nat_digits[k]);
            assert(balanced_digits(vnext as int, bb) =~= nat_digits.skip(k + 1)) by {
                assert forall|j: int| 0 <= j < nat_digits.len() - (k + 1) implies nat_digits.skip(
                    k + 1,
                )[j] == balanced_digits(q, bb)[j] by {
                    assert(nat_digits.skip(k + 1)[j] == nat_digits[k + 1 + j]);
                    assert(nat_digits.skip(k)[j + 1] == nat_digits[k + j + 1]);
                    assert((seq![cr] + balanced_digits(q, bb))[j + 1] == balanced_digits(q, bb)[j]);
                }
            };
        }
        v = vnext;
    }
    proof {
        assert(balanced_digits(v as int, bb) == Seq::<int>::empty());
        assert(nat_digits.skip(digits@.len() as int).len() == 0);
        assert(digits@.len() == nat_digits.len());
    }
    match padding_size {
        Some(n) => {
            while digits.len() < n
                invariant
                    R::ring_valid(),
                    nat_digits.len() <= digits@.len(),
                    digits@.len() <= vstd::math::max(n as int, nat_digits.len() as int),
                    forall|i: int|
                        0 <= i < nat_digits.len() ==> #[trigger] digits@[i].signed_value()
                            == nat_digits[i],
                    forall|i: int|
                        nat_digits.len() <= i < digits@.len()
                            ==> #[trigger] digits@[i].signed_value() == 0,
                decreases n as int - digits@.len() as int,
            {
                digits.push(R::identity());
            }
            digits
        },
        None => digits,
    }
}

} // verus!
