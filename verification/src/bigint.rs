//! Integers of any size.

use crate::bignat::{int_rank, BigNat, Rank};
use crate::bits::bit_length;
use crate::modular::{
    divides, is_inverse, lemma_bezout_inverse, lemma_divides_mod, lemma_divides_multiple,
    lemma_divides_sum, lemma_mod_inverse, lemma_no_inverse, magnitude, mod_inverse, trunc_div,
    trunc_rem,
};
use vstd::arithmetic::div_mod::{
    lemma_fundamental_div_mod, lemma_fundamental_div_mod_converse, lemma_mod_bound, lemma_small_mod,
};
use vstd::arithmetic::mul::{lemma_mul_is_distributive_add_other_way, lemma_mul_is_distributive_sub};
use vstd::arithmetic::mul::lemma_mul_is_commutative;
use vstd::prelude::*;

verus! {

/// An integer: a sign and a magnitude.
#[derive(Debug)]
pub struct BigInt {
    negative: bool,
    abs: BigNat,
}

impl View for BigInt {
    type V = int;

    closed spec fn view(&self) -> int {
        if self.negative {
            -(self.abs@ as int)
        } else {
            self.abs@ as int
        }
    }
}

impl Clone for BigInt {
    fn clone(&self) -> (r: Self)
        ensures
            r@ == self@,
    {
        BigInt { negative: self.negative, abs: self.abs.clone() }
    }
}

impl BigInt {
    /// A natural number as an integer.
    pub fn from_nat(n: BigNat) -> (r: BigInt)
        ensures
            r@ == n@,
    {
        BigInt { negative: false, abs: n }
    }

    /// A machine integer as an integer.
    pub fn from_i128(x: i128) -> (r: BigInt)
        ensures
            r@ == x,
    {
        if x < 0 {
            BigInt {
                negative: true,
                abs: BigNat::from_u128((-(x + 1)) as u128).plus(&BigNat::from_u128(1)),
            }
        } else {
            BigInt { negative: false, abs: BigNat::from_u128(x as u128) }
        }
    }

    /// The absolute value.
    pub fn abs(&self) -> (r: &BigNat)
        ensures
            r@ == magnitude(self@),
    {
        &self.abs
    }

    /// Whether the integer is below zero.
    pub fn is_negative(&self) -> (r: bool)
        ensures
            r == (self@ < 0),
    {
        self.negative && !self.abs.is_zero()
    }

    /// Whether the integer is zero.
    pub fn is_zero(&self) -> (r: bool)
        ensures
            r == (self@ == 0),
    {
        self.abs.is_zero()
    }

    /// How two integers compare.
    pub fn compare(&self, other: &BigInt) -> (r: Rank)
        ensures
            r == int_rank(self@, other@),
    {
        let a: bool = self.is_negative();
        let b: bool = other.is_negative();
        if a && !b {
            Rank::Below
        } else if !a && b {
            Rank::Above
        } else if a {
            other.abs.compare(&self.abs)
        } else {
            self.abs.compare(&other.abs)
        }
    }

    /// The integer with the opposite sign.
    pub fn negate(&self) -> (r: BigInt)
        ensures
            r@ == -self@,
    {
        BigInt { negative: !self.negative, abs: self.abs.clone() }
    }

    /// The sum.
    pub fn plus(&self, other: &BigInt) -> (r: BigInt)
        ensures
            r@ == self@ + other@,
    {
        if self.negative == other.negative {
            return BigInt { negative: self.negative, abs: self.abs.plus(&other.abs) };
        }
        match self.abs.compare(&other.abs) {
            Rank::Below => BigInt {
                negative: other.negative,
                abs: other.abs.minus(&self.abs),
            },
            _ => BigInt { negative: self.negative, abs: self.abs.minus(&other.abs) },
        }
    }

    /// The difference.
    pub fn minus(&self, other: &BigInt) -> (r: BigInt)
        ensures
            r@ == self@ - other@,
    {
        self.plus(&other.negate())
    }

    /// The product.
    pub fn times(&self, other: &BigInt) -> (r: BigInt)
        ensures
            r@ == self@ * other@,
    {
        proof {
            let (x, y) = (self.abs@ as int, other.abs@ as int);
            assert((-x) * y == -(x * y)) by (nonlinear_arith);
            assert(x * (-y) == -(x * y)) by (nonlinear_arith);
            assert((-x) * (-y) == x * y) by (nonlinear_arith);
        }
        BigInt { negative: self.negative != other.negative, abs: self.abs.times(&other.abs) }
    }

    /// The quotient, rounded towards zero.
    pub fn quotient(&self, other: &BigInt) -> (r: BigInt)
        requires
            other@ != 0,
        ensures
            r@ == trunc_div(self@, other@),
    {
        let q: BigNat = self.abs.div_rem(&other.abs).0;
        BigInt { negative: self.is_negative() != other.is_negative(), abs: q }
    }

    /// The remainder of the quotient rounded towards zero.
    pub fn remainder(&self, other: &BigInt) -> (r: BigInt)
        requires
            other@ != 0,
        ensures
            r@ == trunc_rem(self@, other@),
    {
        let m: BigNat = self.abs.div_rem(&other.abs).1;
        BigInt { negative: self.is_negative(), abs: m }
    }

    /// The residue modulo `m`: between zero and `m`, whatever the sign.
    pub fn residue(&self, m: &BigNat) -> (r: BigNat)
        requires
            m@ > 0,
        ensures
            r@ == self@ % (m@ as int),
            r@ < m@,
    {
        let low: BigNat = self.abs.div_rem(m).1;
        let ghost d = m@ as int;
        let ghost a = self.abs@ as int;
        proof {
            lemma_mod_bound(a, d);
            lemma_fundamental_div_mod(a, d);
            lemma_mod_bound(self@, d);
        }
        if self.negative && !low.is_zero() {
            proof {
                let q = a / d;
                assert(-a == d * (-q - 1) + (d - low@)) by (nonlinear_arith)
                    requires
                        a == d * q + low@,
                ;
                lemma_mul_is_commutative(d, -q - 1);
                lemma_fundamental_div_mod_converse(-a, d, -q - 1, d - low@);
            }
            m.minus(&low)
        } else {
            proof {
                if self.negative {
                    let q = a / d;
                    assert(-a == d * (-q)) by (nonlinear_arith)
                        requires
                            a == d * q,
                    ;
                    lemma_mul_is_commutative(d, -q);
                    lemma_fundamental_div_mod_converse(-a, d, -q, 0);
                }
            }
            low
        }
    }

    /// How many digits the absolute value has.
    pub fn significant_bits(&self) -> (r: u128)
        ensures
            r == bit_length(magnitude(self@)),
    {
        self.abs.significant_bits()
    }

    /// The inverse modulo `m`, where there is one.
    pub fn invert(&self, m: &BigNat) -> (r: Option<BigNat>)
        ensures
            match r {
                Some(w) => mod_inverse(self@, m@ as int) == Some(w@ as int),
                None => mod_inverse(self@, m@ as int) is None,
            },
    {
        if m.is_zero() {
            proof {
                assert forall|w: int| !is_inverse(self@, 0, w) by {}
            }
            return None;
        }
        let ghost a = self@;
        let ghost d = m@ as int;
        let mut r0: BigNat = m.clone();
        let mut r1: BigNat = self.residue(m);
        let mut s0: BigInt = BigInt::from_i128(0);
        let mut s1: BigInt = BigInt::from_i128(1);
        let ghost mut k0: int = 1;
        let ghost mut k1: int = -(a / d);
        proof {
            lemma_fundamental_div_mod(a, d);
            assert(a * 0 + d * 1 == d);
            assert(a * 1 + d * (-(a / d)) == a - d * (a / d)) by (nonlinear_arith);
        }
        while !r1.is_zero()
            invariant
                d > 0,
                r0@ > 0,
                a * s0@ + d * k0 == r0@,
                a * s1@ + d * k1 == r1@,
                forall|g: int|
                    #[trigger] divides(g, r0@ as int) && divides(g, r1@ as int) ==> divides(
                        g,
                        d,
                    ) && divides(g, a % d),
            decreases r1@,
        {
            let (q, rem): (BigNat, BigNat) = r0.div_rem(&r1);
            let q_int: BigInt = BigInt::from_nat(q);
            let s2: BigInt = s0.minus(&q_int.times(&s1));
            proof {
                lemma_fundamental_div_mod(r0@ as int, r1@ as int);
                lemma_mod_bound(r0@ as int, r1@ as int);
                let k2 = k0 - q_int@ * k1;
                let (qq, x0, x1, t0, t1) = (q_int@, s0@, s1@, r0@ as int, r1@ as int);
                lemma_combination(a, d, x0, x1, k0, k1, qq);
                assert forall|g: int| #[trigger]
                    divides(g, r1@ as int) && divides(g, rem@ as int) implies divides(g, d)
                    && divides(g, a % d) by {
                    lemma_divides_sum(g, r1@ as int, rem@ as int, qq, 1);
                    assert(divides(g, r0@ as int));
                }
                k0 = k1;
                k1 = k2;
            }
            r0 = r1;
            r1 = rem;
            s0 = s1;
            s1 = s2;
        }
        proof {
            lemma_divides_multiple(r0@ as int, 1);
            lemma_small_mod(0, r0@);
            assert(divides(r0@ as int, r0@ as int));
        }
        match r0.compare(&BigNat::from_u128(1)) {
            Rank::Same => {
                let w: BigNat = s0.residue(m);
                proof {
                    lemma_bezout_inverse(a, d, s0@, k0);
                    lemma_mod_inverse(a, d, w@ as int);
                }
                Some(w)
            },
            _ => {
                proof {
                    lemma_divides_mod(r0@ as int, a, d);
                    lemma_no_inverse(a, d, r0@ as int);
                }
                None
            },
        }
    }
}

/// A combination of two combinations of `a` and `d`.
proof fn lemma_combination(a: int, d: int, x0: int, x1: int, k0: int, k1: int, q: int)
    ensures
        a * (x0 - q * x1) + d * (k0 - q * k1) == (a * x0 + d * k0) - (a * x1 + d * k1) * q,
{
    lemma_mul_is_distributive_sub(a, x0, q * x1);
    lemma_mul_is_distributive_sub(d, k0, q * k1);
    assert(a * (q * x1) == (a * x1) * q) by (nonlinear_arith);
    assert(d * (q * k1) == (d * k1) * q) by (nonlinear_arith);
    lemma_mul_is_distributive_add_other_way(q, a * x1, d * k1);
}

} // verus!
