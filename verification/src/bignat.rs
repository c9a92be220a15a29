//! Natural numbers of any size.

use crate::bits::{
    bit, bit_length, bitwise, lemma_bit_length, lemma_bit_length_le, lemma_bit_length_unique,
    lemma_bit_step, lemma_bitwise_split, lemma_bitwise_u32, BitOp,
};
use crate::bytes::{be_value, le_bytes, le_value, lemma_le_skip};
use crate::limbs::{
    lemma_div_mod_parts, lemma_div_pow2_twice, lemma_padded, lemma_padded_step, lemma_pow2_32,
    lemma_pow2_monotone, lemma_skip_ends, lemma_value_append, lemma_value_bound, lemma_value_lower,
    lemma_value_push, lemma_value_skip, lemma_value_skip_div, lemma_value_split, lemma_value_zeros,
    limbs_value, padded, trimmed,
};
use vstd::arithmetic::div_mod::{lemma_fundamental_div_mod, lemma_fundamental_div_mod_converse};
use vstd::arithmetic::mul::{lemma_mul_is_associative, lemma_mul_is_commutative};
use vstd::arithmetic::power2::{
    lemma_pow2_adds, lemma_pow2_pos, lemma_pow2_strictly_increases, lemma_pow2_unfold, pow2,
};
use vstd::bits::{lemma_u32_shl_is_mul, lemma_u32_shr_is_div};
use vstd::prelude::*;

verus! {

/// How one thing compares with another.
#[derive(Clone, Copy, Debug, PartialEq, Eq, Structural)]
pub enum Rank {
    Below,
    Same,
    Above,
}

/// The order of the integers.
pub open spec fn int_rank(a: int, b: int) -> Rank {
    if a < b {
        Rank::Below
    } else if a == b {
        Rank::Same
    } else {
        Rank::Above
    }
}

/// The comparison the other way round.
pub open spec fn flip(r: Rank) -> Rank {
    match r {
        Rank::Below => Rank::Above,
        Rank::Same => Rank::Same,
        Rank::Above => Rank::Below,
    }
}

/// A natural number, held as little-endian limbs without a zero limb at the top.
#[derive(Debug)]
pub struct BigNat {
    limbs: Vec<u32>,
}

impl View for BigNat {
    type V = nat;

    closed spec fn view(&self) -> nat {
        limbs_value(self.limbs@)
    }
}

/// The limbs of `v` with the zero limbs at the top taken off.
fn trim(v: Vec<u32>) -> (r: BigNat)
    ensures
        r@ == limbs_value(v@),
{
    let mut limbs = v;
    while limbs.len() > 0 && limbs[limbs.len() - 1] == 0
        invariant
            limbs_value(limbs@) == limbs_value(v@),
        decreases limbs.len(),
    {
        proof {
            let init = limbs@.drop_last();
            assert(limbs@ =~= init.push(0));
            lemma_value_push(init, 0);
        }
        limbs.pop();
    }
    BigNat { limbs }
}

impl BigNat {
    #[verifier::type_invariant]
    spec fn inv(self) -> bool {
        trimmed(self.limbs@)
    }

    /// Zero.
    pub fn zero() -> (r: BigNat)
        ensures
            r@ == 0,
    {
        BigNat { limbs: Vec::new() }
    }

    /// A machine integer as a natural number.
    pub fn from_u128(x: u128) -> (r: BigNat)
        ensures
            r@ == x,
    {
        let mut limbs: Vec<u32> = Vec::new();
        let mut rest: u128 = x;
        proof {
            lemma_pow2_32();
            assert(limbs@ =~= Seq::empty());
            assert(rest * pow2(0) == rest);
        }
        while rest > 0
            invariant
                limbs_value(limbs@) + rest * pow2(32 * limbs@.len()) == x,
            decreases rest,
        {
            let low: u32 = (rest % 0x1_0000_0000) as u32;
            let high: u128 = rest / 0x1_0000_0000;
            proof {
                lemma_value_push(limbs@, low);
                lemma_pow2_32();
                lemma_pow2_adds(32 * limbs@.len(), 32);
                let p = pow2(32 * limbs@.len()) as int;
                assert(32 * limbs@.len() + 32 == 32 * (limbs@.len() + 1));
                assert(rest * p == low * p + high * (p * 0x1_0000_0000)) by (nonlinear_arith)
                    requires
                        rest == low + 0x1_0000_0000 * high,
                ;
            }
            limbs.push(low);
            rest = high;
        }
        assert(0 * pow2(32 * limbs@.len()) == 0);
        trim(limbs)
    }

    /// A machine integer as a natural number.
    pub fn from_usize(x: usize) -> (r: BigNat)
        ensures
            r@ == x,
    {
        Self::from_u128(x as u128)
    }

    /// Whether the number is zero.
    pub fn is_zero(&self) -> (r: bool)
        ensures
            r == (self@ == 0),
    {
        proof {
            use_type_invariant(self);
            if self.limbs@.len() > 0 {
                lemma_value_lower(self.limbs@);
                lemma_pow2_pos((32 * (self.limbs@.len() - 1)) as nat);
            }
        }
        self.limbs.len() == 0
    }

    /// The number as a `usize`, where it fits.
    pub fn to_usize(&self) -> (r: Option<usize>)
        ensures
            r == (if self@ <= usize::MAX {
                Some(self@ as usize)
            } else {
                None
            }),
    {
        proof {
            use_type_invariant(self);
            lemma_pow2_32();
        }
        if self.limbs.len() > 2 {
            proof {
                lemma_value_lower(self.limbs@);
                lemma_pow2_monotone(64, (32 * (self.limbs@.len() - 1)) as nat);
                lemma_pow2_adds(32, 32);
            }
            return None;
        }
        let low: u32 = if self.limbs.len() > 0 {
            self.limbs[0]
        } else {
            0
        };
        let high: u32 = if self.limbs.len() > 1 {
            self.limbs[1]
        } else {
            0
        };
        proof {
            reveal_with_fuel(limbs_value, 3);
        }
        let wide: u64 = (high as u64) * 0x1_0000_0000u64 + low as u64;
        if wide <= usize::MAX as u64 {
            Some(wide as usize)
        } else {
            None
        }
    }

    /// How two numbers compare.
    pub fn compare(&self, other: &BigNat) -> (r: Rank)
        ensures
            r == int_rank(self@ as int, other@ as int),
    {
        let n: usize = self.limbs.len();
        let m: usize = other.limbs.len();
        proof {
            use_type_invariant(self);
            use_type_invariant(other);
            lemma_value_bound(self.limbs@);
            lemma_value_bound(other.limbs@);
        }
        if n < m {
            proof {
                lemma_value_lower(other.limbs@);
                lemma_pow2_monotone(32 * n as nat, (32 * (m - 1)) as nat);
            }
            return Rank::Below;
        }
        if m < n {
            proof {
                lemma_value_lower(self.limbs@);
                lemma_pow2_monotone(32 * m as nat, (32 * (n - 1)) as nat);
            }
            return Rank::Above;
        }
        let mut i: usize = n;
        assert(self.limbs@.skip(n as int) =~= other.limbs@.skip(n as int));
        while i > 0
            invariant
                i <= n,
                n == self.limbs@.len(),
                n == other.limbs@.len(),
                self.limbs@.skip(i as int) =~= other.limbs@.skip(i as int),
            decreases i,
        {
            let a: u32 = self.limbs[i - 1];
            let b: u32 = other.limbs[i - 1];
            if a != b {
                proof {
                    lemma_rank_at(self.limbs@, other.limbs@, i as int);
                }
                if a < b {
                    return Rank::Below;
                } else {
                    return Rank::Above;
                }
            }
            assert(self.limbs@.skip(i - 1) =~= other.limbs@.skip(i - 1)) by {
                assert forall|j: int| 0 <= j < n - (i - 1) implies #[trigger] self.limbs@.skip(
                    i - 1,
                )[j]
                    == other.limbs@.skip(i - 1)[j] by {
                    if j > 0 {
                        assert(self.limbs@.skip(i as int)[j - 1] == self.limbs@[i - 1 + j]);
                        assert(other.limbs@.skip(i as int)[j - 1] == other.limbs@[i - 1 + j]);
                    }
                }
            }
            i = i - 1;
        }
        assert(self.limbs@.skip(0) =~= self.limbs@);
        assert(other.limbs@.skip(0) =~= other.limbs@);
        Rank::Same
    }

    /// The sum.
    pub fn plus(&self, other: &BigNat) -> (r: BigNat)
        ensures
            r@ == self@ + other@,
    {
        let n: usize = if self.limbs.len() < other.limbs.len() {
            other.limbs.len()
        } else {
            self.limbs.len()
        };
        let mut limbs: Vec<u32> = Vec::new();
        let mut carry: u32 = 0;
        let mut i: usize = 0;
        proof {
            lemma_pow2_32();
            assert(padded(self.limbs@, 0) =~= Seq::empty());
            assert(padded(other.limbs@, 0) =~= Seq::empty());
            assert(limbs@ =~= Seq::empty());
        }
        while i < n
            invariant
                i <= n,
                limbs@.len() == i,
                carry <= 1,
                limbs_value(limbs@) + carry * pow2(32 * i as nat) == limbs_value(
                    padded(self.limbs@, i as nat),
                ) + limbs_value(padded(other.limbs@, i as nat)),
            decreases n - i,
        {
            let a: u32 = if i < self.limbs.len() {
                self.limbs[i]
            } else {
                0
            };
            let b: u32 = if i < other.limbs.len() {
                other.limbs[i]
            } else {
                0
            };
            let t: u64 = a as u64 + b as u64 + carry as u64;
            let low: u32 = (t % 0x1_0000_0000) as u32;
            let high: u32 = (t / 0x1_0000_0000) as u32;
            proof {
                lemma_padded_step(self.limbs@, i as nat);
                lemma_padded_step(other.limbs@, i as nat);
                lemma_value_push(limbs@, low);
                lemma_carry(i as nat, a + b + carry, low as int, high as int);
                let p = pow2(32 * i as nat) as int;
                assert((a + b + carry) * p == a * p + b * p + carry * p) by (nonlinear_arith);
            }
            limbs.push(low);
            carry = high;
            i = i + 1;
        }
        proof {
            lemma_padded(self.limbs@, n as nat);
            lemma_padded(other.limbs@, n as nat);
            lemma_value_push(limbs@, carry);
        }
        limbs.push(carry);
        trim(limbs)
    }

    /// The difference.
    pub fn minus(&self, other: &BigNat) -> (r: BigNat)
        requires
            self@ >= other@,
        ensures
            r@ == self@ - other@,
    {
        let n: usize = if self.limbs.len() < other.limbs.len() {
            other.limbs.len()
        } else {
            self.limbs.len()
        };
        let mut limbs: Vec<u32> = Vec::new();
        let mut borrow: u32 = 0;
        let mut i: usize = 0;
        proof {
            lemma_pow2_32();
            assert(padded(self.limbs@, 0) =~= Seq::empty());
            assert(padded(other.limbs@, 0) =~= Seq::empty());
            assert(limbs@ =~= Seq::empty());
        }
        while i < n
            invariant
                i <= n,
                limbs@.len() == i,
                borrow <= 1,
                limbs_value(limbs@) + limbs_value(padded(other.limbs@, i as nat)) == limbs_value(
                    padded(self.limbs@, i as nat),
                ) + borrow * pow2(32 * i as nat),
            decreases n - i,
        {
            let a: u32 = if i < self.limbs.len() {
                self.limbs[i]
            } else {
                0
            };
            let b: u32 = if i < other.limbs.len() {
                other.limbs[i]
            } else {
                0
            };
            let t: u64 = 0x1_0000_0000u64 + a as u64 - b as u64 - borrow as u64;
            let low: u32 = (t % 0x1_0000_0000) as u32;
            let next: u32 = if t >= 0x1_0000_0000 {
                0
            } else {
                1
            };
            proof {
                lemma_padded_step(self.limbs@, i as nat);
                lemma_padded_step(other.limbs@, i as nat);
                lemma_value_push(limbs@, low);
                assert(low == a - b - borrow + 0x1_0000_0000 * next);
                lemma_carry(i as nat, a - b - borrow, low as int, -(next as int));
                let p = pow2(32 * i as nat) as int;
                assert((a - b - borrow) * p == a * p - b * p - borrow * p) by (nonlinear_arith);
                assert((-(next as int)) * pow2(32 * (i + 1) as nat) == -(next * pow2(
                    32 * (i + 1) as nat,
                ))) by (nonlinear_arith);
            }
            limbs.push(low);
            borrow = next;
            i = i + 1;
        }
        proof {
            lemma_padded(self.limbs@, n as nat);
            lemma_padded(other.limbs@, n as nat);
            lemma_value_bound(limbs@);
            let p = pow2(32 * n as nat) as int;
            if borrow == 1 {
                assert(1 * p == p);
                assert(false);
            }
            assert(0 * p == 0);
        }
        trim(limbs)
    }

    /// The product with one limb.
    fn times_limb(&self, m: u32) -> (r: BigNat)
        ensures
            r@ == self@ * m,
    {
        let n: usize = self.limbs.len();
        let mut limbs: Vec<u32> = Vec::new();
        let mut carry: u32 = 0;
        let mut i: usize = 0;
        proof {
            lemma_pow2_32();
            assert(self.limbs@.take(0) =~= Seq::empty());
            assert(limbs@ =~= Seq::empty());
            assert(limbs_value(self.limbs@.take(0)) == 0);
            assert(0 * m == 0);
        }
        while i < n
            invariant
                i <= n,
                n == self.limbs@.len(),
                limbs@.len() == i,
                limbs_value(limbs@) + carry * pow2(32 * i as nat) == limbs_value(
                    self.limbs@.take(i as int),
                ) * m,
            decreases n - i,
        {
            let a: u32 = self.limbs[i];
            assert(0 <= a * m <= 0xffff_ffff * 0xffff_ffff) by (nonlinear_arith)
                requires
                    0 <= a <= 0xffff_ffff,
                    0 <= m <= 0xffff_ffff,
            ;
            let t: u64 = (a as u64) * (m as u64) + carry as u64;
            let low: u32 = (t % 0x1_0000_0000) as u32;
            let high: u32 = (t / 0x1_0000_0000) as u32;
            proof {
                let p = pow2(32 * i as nat) as int;
                let v = limbs_value(self.limbs@.take(i as int)) as int;
                assert(self.limbs@.take(i + 1) =~= self.limbs@.take(i as int).push(a));
                lemma_value_push(self.limbs@.take(i as int), a);
                lemma_value_push(limbs@, low);
                lemma_carry(i as nat, a * m + carry, low as int, high as int);
                assert((a * m + carry) * p + v * m == (v + a * p) * m + carry * p)
                    by (nonlinear_arith);
            }
            limbs.push(low);
            carry = high;
            i = i + 1;
        }
        proof {
            assert(self.limbs@.take(n as int) =~= self.limbs@);
            lemma_value_push(limbs@, carry);
        }
        limbs.push(carry);
        trim(limbs)
    }

    /// The number shifted left by `k` limbs.
    fn shift_limbs_left(&self, k: usize) -> (r: BigNat)
        ensures
            r@ == self@ * pow2(32 * k as nat),
    {
        let n: usize = self.limbs.len();
        let mut limbs: Vec<u32> = Vec::new();
        if n == 0 {
            assert(0 * pow2(32 * k as nat) == 0);
            return BigNat { limbs };
        }
        let mut i: usize = 0;
        while i < k
            invariant
                i <= k,
                limbs@.len() == i,
                forall|j: int| 0 <= j < i ==> limbs@[j] == 0,
            decreases k - i,
        {
            limbs.push(0);
            i = i + 1;
        }
        let ghost zeros = limbs@;
        i = 0;
        while i < n
            invariant
                i <= n,
                n == self.limbs@.len(),
                limbs@ =~= zeros + self.limbs@.take(i as int),
            decreases n - i,
        {
            limbs.push(self.limbs[i]);
            i = i + 1;
        }
        proof {
            assert(self.limbs@.take(n as int) =~= self.limbs@);
            lemma_value_zeros(zeros);
            lemma_value_append(zeros, self.limbs@);
            lemma_mul_is_commutative(self@ as int, pow2(32 * k as nat) as int);
        }
        trim(limbs)
    }

    /// The product.
    pub fn times(&self, other: &BigNat) -> (r: BigNat)
        ensures
            r@ == self@ * other@,
    {
        let mut acc: BigNat = BigNat::zero();
        let mut i: usize = other.limbs.len();
        proof {
            lemma_skip_ends(other.limbs@);
            lemma_pow2_32();
            assert(self@ * 0 == 0);
        }
        while i > 0
            invariant
                i <= other.limbs@.len(),
                acc@ == self@ * limbs_value(other.limbs@.skip(i as int)),
                pow2(32) == 0x1_0000_0000,
            decreases i,
        {
            let m: u32 = other.limbs[i - 1];
            let shifted: BigNat = acc.shift_limbs_left(1);
            let part: BigNat = self.times_limb(m);
            proof {
                lemma_value_skip(other.limbs@, i - 1);
                let v = limbs_value(other.limbs@.skip(i as int)) as int;
                let s = self@ as int;
                assert((s * v) * 0x1_0000_0000 + s * m == s * (m + 0x1_0000_0000 * v))
                    by (nonlinear_arith);
            }
            acc = shifted.plus(&part);
            i = i - 1;
        }
        acc
    }
}

impl Clone for BigNat {
    fn clone(&self) -> (r: Self)
        ensures
            r@ == self@,
    {
        proof {
            use_type_invariant(self);
        }
        let limbs: Vec<u32> = self.limbs.clone();
        assert(limbs@ =~= self.limbs@);
        BigNat { limbs }
    }
}

impl BigNat {
    /// The quotient and the remainder by one limb.
    fn div_rem_limb(&self, d: u32) -> (r: (BigNat, u32))
        requires
            d > 0,
        ensures
            r.0@ == self@ / (d as nat),
            r.1 == self@ % (d as nat),
    {
        let n: usize = self.limbs.len();
        let mut limbs: Vec<u32> = Vec::new();
        let mut i: usize = 0;
        while i < n
            invariant
                i <= n,
                limbs@.len() == i,
            decreases n - i,
        {
            limbs.push(0);
            i = i + 1;
        }
        let mut rem: u32 = 0;
        proof {
            lemma_skip_ends(self.limbs@);
            lemma_skip_ends(limbs@);
            assert(0 * d == 0);
        }
        while i > 0
            invariant
                i <= n,
                n == self.limbs@.len(),
                n == limbs@.len(),
                d > 0,
                rem < d,
                limbs_value(self.limbs@.skip(i as int)) == limbs_value(limbs@.skip(i as int)) * d
                    + rem,
            decreases i,
        {
            let a: u32 = self.limbs[i - 1];
            let t: u64 = (rem as u64) * 0x1_0000_0000u64 + a as u64;
            let q: u64 = t / (d as u64);
            let ghost t_int = t as int;
            let ghost q_int = q as int;
            let ghost d_int = d as int;
            proof {
                lemma_fundamental_div_mod(t_int, d_int);
                assert(q_int < 0x1_0000_0000) by (nonlinear_arith)
                    requires
                        t_int == d_int * q_int + t_int % d_int,
                        t_int % d_int >= 0,
                        t_int < d_int * 0x1_0000_0000,
                        d_int > 0,
                ;
            }
            let ghost before = limbs@;
            limbs.set(i - 1, q as u32);
            proof {
                lemma_value_skip(self.limbs@, i - 1);
                lemma_value_skip(limbs@, i - 1);
                assert(limbs@.skip(i as int) =~= before.skip(i as int));
                let v = limbs_value(before.skip(i as int)) as int;
                let m = t_int % d_int;
                assert(a + 0x1_0000_0000 * (v * d_int + rem) == (q_int + 0x1_0000_0000 * v) * d_int
                    + m) by (nonlinear_arith)
                    requires
                        rem * 0x1_0000_0000 + a == d_int * q_int + m,
                ;
            }
            rem = (t % (d as u64)) as u32;
            i = i - 1;
        }
        proof {
            lemma_skip_ends(self.limbs@);
            lemma_skip_ends(limbs@);
            lemma_fundamental_div_mod_converse(
                self@ as int,
                d as int,
                limbs_value(limbs@) as int,
                rem as int,
            );
        }
        (trim(limbs), rem)
    }

    /// The number shifted left by `n` digits.
    pub fn shift_left(&self, n: usize) -> (r: BigNat)
        ensures
            r@ == self@ * pow2(n as nat),
    {
        let k: usize = n / 32;
        let j: u32 = (n % 32) as u32;
        let m: u32 = 1u32 << j;
        proof {
            lemma_one_shifted(j);
            lemma_pow2_adds(j as nat, 32 * k as nat);
            lemma_mul_is_associative(
                self@ as int,
                pow2(j as nat) as int,
                pow2(32 * k as nat) as int,
            );
        }
        self.times_limb(m).shift_limbs_left(k)
    }

    /// The number without its low `n` digits.
    pub fn shift_right(&self, n: usize) -> (r: BigNat)
        ensures
            r@ == self@ / pow2(n as nat),
    {
        let k: usize = n / 32;
        let j: u32 = (n % 32) as u32;
        let len: usize = self.limbs.len();
        proof {
            use_type_invariant(self);
            lemma_pow2_pos(n as nat);
        }
        if k >= len {
            proof {
                lemma_value_bound(self.limbs@);
                lemma_pow2_monotone(32 * len as nat, n as nat);
                lemma_fundamental_div_mod_converse(
                    self@ as int,
                    pow2(n as nat) as int,
                    0,
                    self@ as int,
                );
            }
            return BigNat::zero();
        }
        let mut limbs: Vec<u32> = Vec::new();
        let mut i: usize = k;
        while i < len
            invariant
                k <= i <= len,
                len == self.limbs@.len(),
                limbs@ =~= self.limbs@.subrange(k as int, i as int),
            decreases len - i,
        {
            limbs.push(self.limbs[i]);
            i = i + 1;
        }
        proof {
            assert(limbs@ =~= self.limbs@.skip(k as int));
            lemma_value_skip_div(self.limbs@, k as int);
            lemma_one_shifted(j);
            lemma_div_pow2_twice(self@, 32 * k as nat, j as nat);
        }
        trim(limbs).div_rem_limb(1u32 << j).0
    }

    /// The low `n` digits.
    pub fn low_bits(&self, n: usize) -> (r: BigNat)
        ensures
            r@ == self@ % pow2(n as nat),
    {
        let high: BigNat = self.shift_right(n).shift_left(n);
        proof {
            lemma_pow2_pos(n as nat);
            lemma_div_mod_parts(self@, pow2(n as nat));
        }
        self.minus(&high)
    }

    /// The digit with weight `2^i`.
    pub fn get_bit(&self, i: u128) -> (r: bool)
        ensures
            r == bit(self@, i as nat),
    {
        let len: usize = self.limbs.len();
        let k: u128 = i / 32;
        let j: u32 = (i % 32) as u32;
        proof {
            lemma_pow2_pos(i as nat);
        }
        if k >= len as u128 {
            proof {
                lemma_value_bound(self.limbs@);
                lemma_pow2_monotone(32 * len as nat, i as nat);
                lemma_fundamental_div_mod_converse(
                    self@ as int,
                    pow2(i as nat) as int,
                    0,
                    self@ as int,
                );
            }
            return false;
        }
        let x: u32 = self.limbs[k as usize];
        let shifted: u32 = x >> j;
        proof {
            lemma_value_skip_div(self.limbs@, k as int);
            lemma_value_skip(self.limbs@, k as int);
            lemma_div_pow2_twice(self@, 32 * k as nat, j as nat);
            assert(32 * k as nat + j as nat == i as nat);
            let rest = limbs_value(self.limbs@.skip(k + 1));
            lemma_u32_shr_is_div(x, j);
            lemma_low_digit(x as nat, rest, j as nat);
        }
        shifted % 2 == 1
    }

    /// How many digits the number has.
    pub fn significant_bits(&self) -> (r: u128)
        ensures
            r == bit_length(self@),
    {
        let len: usize = self.limbs.len();
        if len == 0 {
            return 0;
        }
        let top: u32 = self.limbs[len - 1];
        let mut t: u32 = top;
        let mut c: u32 = 0;
        proof {
            lemma_bit_length_le(top as nat, 32);
            lemma_pow2_32();
        }
        while t > 0
            invariant
                c + bit_length(t as nat) == bit_length(top as nat),
                bit_length(top as nat) <= 32,
            decreases t,
        {
            t = t / 2;
            c = c + 1;
        }
        proof {
            use_type_invariant(self);
            let init = self.limbs@.drop_last();
            assert(self.limbs@ =~= init.push(top));
            lemma_value_push(init, top);
            lemma_value_bound(init);
            lemma_top_digits(limbs_value(init), top as nat, (32 * (len - 1)) as nat);
        }
        32 * (len as u128 - 1) + c as u128
    }

    /// A digit-wise operation.
    pub fn bitwise(&self, op: BitOp, other: &BigNat) -> (r: BigNat)
        ensures
            r@ == bitwise(op, self@, other@),
    {
        let n: usize = if self.limbs.len() < other.limbs.len() {
            other.limbs.len()
        } else {
            self.limbs.len()
        };
        let mut limbs: Vec<u32> = Vec::new();
        let mut i: usize = 0;
        proof {
            assert(padded(self.limbs@, 0) =~= Seq::empty());
            assert(padded(other.limbs@, 0) =~= Seq::empty());
            assert(limbs@ =~= Seq::empty());
        }
        while i < n
            invariant
                i <= n,
                limbs@.len() == i,
                limbs_value(limbs@) == bitwise(
                    op,
                    limbs_value(padded(self.limbs@, i as nat)),
                    limbs_value(padded(other.limbs@, i as nat)),
                ),
            decreases n - i,
        {
            let a: u32 = if i < self.limbs.len() {
                self.limbs[i]
            } else {
                0
            };
            let b: u32 = if i < other.limbs.len() {
                other.limbs[i]
            } else {
                0
            };
            let x: u32 = match op {
                BitOp::And => a & b,
                BitOp::Or => a | b,
                BitOp::Xor => a ^ b,
            };
            proof {
                lemma_padded_step(self.limbs@, i as nat);
                lemma_padded_step(other.limbs@, i as nat);
                lemma_value_push(limbs@, x);
                let p = pow2(32 * i as nat);
                lemma_value_bound(padded(self.limbs@, i as nat));
                lemma_value_bound(padded(other.limbs@, i as nat));
                lemma_bitwise_split(
                    op,
                    32 * i as nat,
                    limbs_value(padded(self.limbs@, i as nat)),
                    a as nat,
                    limbs_value(padded(other.limbs@, i as nat)),
                    b as nat,
                );
                lemma_bitwise_u32(op, a, b);
                lemma_mul_is_commutative(p as int, a as int);
                lemma_mul_is_commutative(p as int, b as int);
                lemma_mul_is_commutative(p as int, x as int);
            }
            limbs.push(x);
            i = i + 1;
        }
        proof {
            lemma_padded(self.limbs@, n as nat);
            lemma_padded(other.limbs@, n as nat);
        }
        trim(limbs)
    }

    /// The quotient and the remainder.
    pub fn div_rem(&self, d: &BigNat) -> (r: (BigNat, BigNat))
        requires
            d@ > 0,
        ensures
            r.0@ == self@ / d@,
            r.1@ == self@ % d@,
    {
        let mut i: u128 = self.significant_bits();
        let mut q: BigNat = BigNat::zero();
        let mut rem: BigNat = BigNat::zero();
        proof {
            lemma_bit_length(self@);
            lemma_pow2_pos(i as nat);
            lemma_fundamental_div_mod_converse(
                self@ as int,
                pow2(i as nat) as int,
                0,
                self@ as int,
            );
            assert(0 * d@ == 0);
        }
        while i > 0
            invariant
                d@ > 0,
                rem@ < d@,
                self@ / pow2(i as nat) == q@ * d@ + rem@,
            decreases i,
        {
            i = i - 1;
            let digit: u32 = if self.get_bit(i) {
                1
            } else {
                0
            };
            let twice: BigNat = rem.times_limb(2).plus(&BigNat::from_u128(digit as u128));
            let twice_q: BigNat = q.times_limb(2);
            proof {
                lemma_bit_step(self@, i as nat);
                let (x, y, z) = (q@ as int, d@ as int, rem@ as int);
                assert(2 * (x * y + z) == (x * 2) * y + z * 2) by (nonlinear_arith);
            }
            match twice.compare(d) {
                Rank::Below => {
                    rem = twice;
                    q = twice_q;
                },
                _ => {
                    proof {
                        let (x, y) = (twice_q@ as int, d@ as int);
                        assert((x + 1) * y == x * y + y) by (nonlinear_arith);
                    }
                    rem = twice.minus(d);
                    q = twice_q.plus(&BigNat::from_u128(1));
                },
            }
        }
        proof {
            lemma_pow2_32();
            assert(self@ / 1 == self@);
            lemma_fundamental_div_mod_converse(self@ as int, d@ as int, q@ as int, rem@ as int);
        }
        (q, rem)
    }

    /// The number that a byte string stands for, least significant byte first.
    pub fn from_le_bytes(bytes: &[u8]) -> (r: BigNat)
        ensures
            r@ == le_value(bytes@),
    {
        let mut acc: BigNat = BigNat::zero();
        let mut i: usize = bytes.len();
        assert(bytes@.skip(i as int).len() == 0);
        while i > 0
            invariant
                i <= bytes@.len(),
                acc@ == le_value(bytes@.skip(i as int)),
            decreases i,
        {
            proof {
                lemma_le_skip(bytes@, i - 1);
            }
            acc = acc.times_limb(256).plus(&BigNat::from_u128(bytes[i - 1] as u128));
            i = i - 1;
        }
        assert(bytes@.skip(0) =~= bytes@);
        acc
    }

    /// The number that a byte string stands for, most significant byte first.
    pub fn from_be_bytes(bytes: &[u8]) -> (r: BigNat)
        ensures
            r@ == be_value(bytes@),
    {
        let mut acc: BigNat = BigNat::zero();
        let mut i: usize = 0;
        assert(bytes@.take(0).len() == 0);
        while i < bytes.len()
            invariant
                i <= bytes@.len(),
                acc@ == be_value(bytes@.take(i as int)),
            decreases bytes@.len() - i,
        {
            proof {
                assert(bytes@.take(i + 1).drop_last() =~= bytes@.take(i as int));
            }
            acc = acc.times_limb(256).plus(&BigNat::from_u128(bytes[i] as u128));
            i = i + 1;
        }
        assert(bytes@.take(i as int) =~= bytes@);
        acc
    }

    /// The lowest `n` bytes of the number, least significant byte first.
    pub fn to_le_bytes(&self, n: usize) -> (r: Vec<u8>)
        ensures
            r@ == le_bytes(self@, n as nat),
            r@.len() == n,
    {
        let mut bytes: Vec<u8> = Vec::new();
        let mut rest: BigNat = self.clone();
        let mut i: usize = 0;
        assert(bytes@ + le_bytes(rest@, n as nat) =~= le_bytes(self@, n as nat));
        while i < n
            invariant
                i <= n,
                bytes@.len() == i,
                bytes@ + le_bytes(rest@, (n - i) as nat) == le_bytes(self@, n as nat),
            decreases n - i,
        {
            let (q, x): (BigNat, u32) = rest.div_rem_limb(256);
            let ghost before = bytes@;
            bytes.push(x as u8);
            assert(bytes@ + le_bytes(q@, (n - i - 1) as nat) =~= before + le_bytes(
                rest@,
                (n - i) as nat,
            ));
            rest = q;
            i = i + 1;
        }
        assert(bytes@ + le_bytes(rest@, 0) =~= bytes@);
        bytes
    }
}

/// `1 << j` is `2^j`.
proof fn lemma_one_shifted(j: u32)
    requires
        j < 32,
    ensures
        (1u32 << j) == pow2(j as nat),
        (1u32 << j) > 0,
{
    lemma_pow2_32();
    lemma_pow2_pos(j as nat);
    lemma_pow2_strictly_increases(j as nat, 32);
    lemma_u32_shl_is_mul(1, j);
}

/// The digits of one limb do not depend on the limbs above it.
proof fn lemma_low_digit(x: nat, rest: nat, j: nat)
    requires
        j < 32,
    ensures
        ((x + 0x1_0000_0000 * rest) / pow2(j)) % 2 == (x / pow2(j)) % 2,
{
    lemma_pow2_32();
    lemma_pow2_pos(j);
    lemma_pow2_adds(j, (32 - j) as nat);
    lemma_pow2_unfold((32 - j) as nat);
    let p = pow2(j) as int;
    let h = pow2((31 - j) as nat) as int;
    lemma_div_mod_parts(x, pow2(j));
    let q = x as int / p;
    let m = x as int % p;
    assert(x + 0x1_0000_0000 * rest == (q + 2 * (h * rest)) * p + m) by (nonlinear_arith)
        requires
            x == q * p + m,
            0x1_0000_0000 == p * (2 * h),
    ;
    lemma_fundamental_div_mod_converse((x + 0x1_0000_0000 * rest) as int, p, q + 2 * (h * rest), m);
}

/// The number of digits is decided by the top limb.
proof fn lemma_top_digits(low: nat, top: nat, k: nat)
    requires
        low < pow2(k),
        top > 0,
    ensures
        bit_length(low + top * pow2(k)) == k + bit_length(top),
{
    lemma_bit_length(top);
    let l = bit_length(top);
    lemma_pow2_adds(l, k);
    lemma_pow2_adds((l - 1) as nat, k);
    let p = pow2(k) as int;
    let (a, b, t) = (pow2(l) as int, pow2((l - 1) as nat) as int, top as int);
    assert(low + t * p < a * p) by (nonlinear_arith)
        requires
            t + 1 <= a,
            low < p,
    ;
    assert(b * p <= t * p) by (nonlinear_arith)
        requires
            b <= t,
            p >= 0,
    ;
    lemma_bit_length_unique(low + top * pow2(k), k + l);
}

/// A digit `t` at limb position `i`, split into the limb `low` and the carry `high`.
proof fn lemma_carry(i: nat, t: int, low: int, high: int)
    requires
        t == low + 0x1_0000_0000 * high,
    ensures
        t * pow2(32 * i) == low * pow2(32 * i) + high * pow2(32 * (i + 1)),
{
    lemma_pow2_32();
    lemma_pow2_adds(32 * i, 32);
    let p = pow2(32 * i) as int;
    assert(32 * i + 32 == 32 * (i + 1));
    assert(t * p == low * p + high * (p * 0x1_0000_0000)) by (nonlinear_arith)
        requires
            t == low + 0x1_0000_0000 * high,
    ;
}

/// The highest limb in which two sequences of one length differ decides.
proof fn lemma_rank_at(a: Seq<u32>, b: Seq<u32>, i: int)
    requires
        0 < i <= a.len(),
        a.len() == b.len(),
        a.skip(i) =~= b.skip(i),
        a[i - 1] != b[i - 1],
    ensures
        a[i - 1] < b[i - 1] ==> limbs_value(a) < limbs_value(b),
        a[i - 1] > b[i - 1] ==> limbs_value(a) > limbs_value(b),
{
    lemma_value_split(a, i);
    lemma_value_split(b, i);
    let x = a.take(i);
    let y = b.take(i);
    let x0 = a.take(i - 1);
    let y0 = b.take(i - 1);
    assert(x =~= x0.push(a[i - 1]));
    assert(y =~= y0.push(b[i - 1]));
    lemma_value_push(x0, a[i - 1]);
    lemma_value_push(y0, b[i - 1]);
    lemma_value_bound(x0);
    lemma_value_bound(y0);
    let p = pow2((32 * (i - 1)) as nat) as int;
    let u = a[i - 1] as int;
    let v = b[i - 1] as int;
    if u < v {
        assert(u * p + p <= v * p) by (nonlinear_arith)
            requires
                u + 1 <= v,
                p >= 0,
        ;
    } else {
        assert(v * p + p <= u * p) by (nonlinear_arith)
            requires
                v + 1 <= u,
                p >= 0,
        ;
    }
}

} // verus!
