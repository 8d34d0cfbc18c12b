//! The concrete base ring: integers modulo a 64-bit modulus `Q`.
//!
//! Higher layers (decomposition, norms, the cyclotomic ring model) treat the
//! base ring through the `ConvertibleRing` capability; this module supplies
//! the one concrete realization used by the power-of-two cyclotomic model.

use vstd::prelude::*;
use crate::convertible_ring::ConvertibleRing;
use vstd::arithmetic::div_mod::lemma_fundamental_div_mod;
use vstd::arithmetic::div_mod::lemma_mod_division_less_than_divisor;
use vstd::arithmetic::div_mod::lemma_mod_add_multiples_vanish;
use vstd::arithmetic::div_mod::lemma_mod_twice;
use vstd::arithmetic::div_mod::lemma_small_mod;

verus! {

/// An element of Z/QZ, held as its canonical representative in `[0, Q)`.
#[derive(Clone, Copy, PartialEq, Eq, Debug)]
pub struct Zq<const Q: u64> {
    v: u64,
}

impl<const Q: u64> Zq<Q> {
    /// The canonical residue in `[0, Q)` that this element stands for.
    pub closed spec fn value(self) -> int {
        self.v as int % Q as int
    }

    #[verifier::type_invariant]
    spec fn type_inv(self) -> bool {
        self.v < Q
    }

    /// Every element's residue lies in `[0, Q)`.
    pub proof fn lemma_value_range(self)
        requires
            Q >= 1,
        ensures
            0 <= self.value() < Q as int,
    {
        lemma_mod_division_less_than_divisor(self.v as int, Q as int);
    }

    /// The additive identity.
    pub fn zero() -> (r: Self)
        requires
            Q >= 1,
        ensures
            r.value() == 0,
    {
        Zq { v: 0 }
    }

    /// The multiplicative identity (reduced, so it coincides with zero in
    /// the trivial ring).
    pub fn one() -> (r: Self)
        requires
            Q >= 1,
        ensures
            r.value() == 1int % (Q as int),
    {
        let r = Zq { v: 1 % Q };
        proof {
            lemma_mod_twice(1, Q as int);
        }
        r
    }

    /// Builds an element from an arbitrary machine integer, reducing mod `Q`.
    pub fn from_u64(v: u64) -> (r: Self)
        requires
            Q >= 1,
        ensures
            r.value() == v as int % (Q as int),
    {
        let r = Zq { v: v % Q };
        proof {
            lemma_mod_twice(v as int, Q as int);
        }
        r
    }

    /// Ring addition.
    pub fn add(self, other: Self) -> (r: Self)
        ensures
            r.value() == (self.value() + other.value()) % (Q as int),
    {
        proof {
            use_type_invariant(&self);
            use_type_invariant(&other);
            lemma_small_mod(self.v as nat, Q as nat);
            lemma_small_mod(other.v as nat, Q as nat);
        }
        let s: u128 = self.v as u128 + other.v as u128;
        let m: u128 = s % (Q as u128);
        let r = Zq { v: m as u64 };
        proof {
            lemma_mod_twice(s as int, Q as int);
        }
        r
    }

    /// Ring subtraction.
    pub fn sub(self, other: Self) -> (r: Self)
        ensures
            r.value() == (self.value() - other.value()) % (Q as int),
    {
        proof {
            use_type_invariant(&self);
            use_type_invariant(&other);
            lemma_small_mod(self.v as nat, Q as nat);
            lemma_small_mod(other.v as nat, Q as nat);
        }
        let s: u128 = self.v as u128 + (Q - other.v) as u128;
        let m: u128 = s % (Q as u128);
        let r = Zq { v: m as u64 };
        proof {
            lemma_mod_twice(s as int, Q as int);
            lemma_mod_add_multiples_vanish(self.v as int - other.v as int, Q as int);
        }
        r
    }

    /// Additive inverse.
    pub fn neg(self) -> (r: Self)
        ensures
            r.value() == (-self.value()) % (Q as int),
    {
        proof {
            use_type_invariant(&self);
            lemma_small_mod(self.v as nat, Q as nat);
        }
        let s: u128 = (Q - self.v) as u128;
        let m: u128 = s % (Q as u128);
        let r = Zq { v: m as u64 };
        proof {
            lemma_mod_twice(s as int, Q as int);
            lemma_mod_add_multiples_vanish(-(self.v as int), Q as int);
        }
        r
    }

    /// Ring multiplication.
    pub fn mul(self, other: Self) -> (r: Self)
        ensures
            r.value() == (self.value() * other.value()) % (Q as int),
    {
        proof {
            use_type_invariant(&self);
            use_type_invariant(&other);
            lemma_small_mod(self.v as nat, Q as nat);
            lemma_small_mod(other.v as nat, Q as nat);
        }
        proof {
            vstd::arithmetic::mul::lemma_mul_upper_bound(
                self.v as int,
                0xffff_ffff_ffff_ffff,
                other.v as int,
                0xffff_ffff_ffff_ffff,
            );
        }
        let p: u128 = self.v as u128 * other.v as u128;
        let m: u128 = p % (Q as u128);
        let r = Zq { v: m as u64 };
        proof {
            lemma_mod_twice(p as int, Q as int);
        }
        r
    }
}

impl<const Q: u64> ConvertibleRing for Zq<Q> {
    open spec fn ring_valid() -> bool {
        Q >= 1
    }

    /// The balanced representative: the residue itself up to `Q/2`, and the
    /// residue minus `Q` above that, so the result lies in `(-Q/2, Q/2]`.
    open spec fn signed_value(self) -> int {
        if 2 * self.value() > Q as int {
            self.value() - Q as int
        } else {
            self.value()
        }
    }

    open spec fn unsigned_value(self) -> int {
        self.value()
    }

    open spec fn in_signed_range(v: int) -> bool {
        -(Q as int) < 2 * v <= Q as int
    }

    open spec fn in_unsigned_range(v: int) -> bool {
        0 <= v < Q as int
    }

    proof fn lemma_signed_in_range(self) {
        self.lemma_value_range();
    }

    proof fn lemma_signed_range_interval(lo: int, v: int, hi: int) {
    }

    proof fn lemma_signed_range_bounded(v: int) {
    }

    fn to_signed(self) -> (r: i128) {
        proof {
            use_type_invariant(&self);
            lemma_small_mod(self.v as nat, Q as nat);
            lemma_fundamental_div_mod(Q as int, 2);
        }
        if self.v > Q / 2 {
            self.v as i128 - Q as i128
        } else {
            self.v as i128
        }
    }

    fn from_signed(v: i128) -> (r: Self) {
        proof {
            lemma_fundamental_div_mod(Q as int, 2);
        }
        if v < 0 {
            let w: u64 = (v + Q as i128) as u64;
            let r = Zq { v: w };
            proof {
                lemma_small_mod(w as nat, Q as nat);
            }
            r
        } else {
            let w: u64 = v as u64;
            let r = Zq { v: w };
            proof {
                lemma_small_mod(w as nat, Q as nat);
            }
            r
        }
    }

    fn to_unsigned(self) -> (r: u128) {
        proof {
            use_type_invariant(&self);
            lemma_small_mod(self.v as nat, Q as nat);
        }
        self.v as u128
    }

    fn from_unsigned(v: u128) -> (r: Self) {
        let w: u64 = v as u64;
        let r = Zq { v: w };
        proof {
            lemma_small_mod(w as nat, Q as nat);
        }
        r
    }

    fn identity() -> (r: Self) {
        Zq { v: 0 }
    }
}

} // verus!
