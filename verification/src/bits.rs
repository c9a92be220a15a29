//! The binary digits of natural numbers.

use crate::limbs::{lemma_div_pow2_twice, lemma_pow2_32, lemma_pow2_monotone};
use vstd::arithmetic::div_mod::lemma_fundamental_div_mod;
use vstd::arithmetic::power2::{lemma_pow2_pos, lemma_pow2_unfold, pow2};
use vstd::prelude::*;

verus! {

/// The binary digit of `n` with weight `2^i`.
pub open spec fn bit(n: nat, i: nat) -> bool {
    (n / pow2(i)) % 2 == 1
}

/// How many binary digits `n` has; zero has none.
pub open spec fn bit_length(n: nat) -> nat
    decreases n,
{
    if n == 0 {
        0
    } else {
        1 + bit_length(n / 2)
    }
}

/// The operations that work digit by digit.
#[derive(Clone, Copy, Debug, PartialEq, Eq, Structural)]
pub enum BitOp {
    And,
    Or,
    Xor,
}

/// A digit-wise operation on single digits.
pub open spec fn digit_op(op: BitOp, x: bool, y: bool) -> bool {
    match op {
        BitOp::And => x && y,
        BitOp::Or => x || y,
        BitOp::Xor => x != y,
    }
}

/// A digit-wise operation on natural numbers.
pub open spec fn bitwise(op: BitOp, a: nat, b: nat) -> nat
    decreases a + b,
{
    if a == 0 && b == 0 {
        0
    } else {
        (if digit_op(op, a % 2 == 1, b % 2 == 1) {
            1nat
        } else {
            0nat
        }) + 2 * bitwise(op, a / 2, b / 2)
    }
}

/// `n` lies between the powers of two that its number of digits names.
pub proof fn lemma_bit_length(n: nat)
    ensures
        n < pow2(bit_length(n)),
        n > 0 ==> bit_length(n) > 0 && pow2((bit_length(n) - 1) as nat) <= n,
    decreases n,
{
    lemma_pow2_32();
    if n > 0 {
        lemma_bit_length(n / 2);
        let k = bit_length(n / 2);
        lemma_pow2_unfold(k + 1);
        if n / 2 > 0 {
            lemma_pow2_unfold(k);
        }
    }
}

/// Only one number of digits fits.
pub proof fn lemma_bit_length_unique(n: nat, k: nat)
    requires
        n < pow2(k),
        k > 0 ==> pow2((k - 1) as nat) <= n,
    ensures
        bit_length(n) == k,
{
    lemma_pow2_32();
    lemma_bit_length(n);
    let l = bit_length(n);
    if k > 0 {
        lemma_pow2_pos((k - 1) as nat);
    }
    if l < k {
        lemma_pow2_monotone(l, (k - 1) as nat);
    }
    if k < l {
        lemma_pow2_monotone(k, (l - 1) as nat);
    }
}

/// A number has at most `k` digits exactly if it is below `2^k`.
pub proof fn lemma_bit_length_le(n: nat, k: nat)
    ensures
        bit_length(n) <= k <==> n < pow2(k),
{
    lemma_bit_length(n);
    if bit_length(n) <= k {
        lemma_pow2_monotone(bit_length(n), k);
    } else {
        lemma_pow2_monotone(k, (bit_length(n) - 1) as nat);
    }
}

/// Taking the lowest digit off.
pub proof fn lemma_bit_step(n: nat, i: nat)
    ensures
        n / pow2(i) == 2 * (n / pow2(i + 1)) + (if bit(n, i) {
            1int
        } else {
            0int
        }),
{
    lemma_pow2_32();
    lemma_pow2_pos(i);
    lemma_div_pow2_twice(n, i, 1);
    let m: nat = n / pow2(i);
    lemma_fundamental_div_mod(m as int, 2);
}

/// Digits of a number whose low `k` digits are set apart.
pub proof fn lemma_bitwise_split(op: BitOp, k: nat, x: nat, hx: nat, y: nat, hy: nat)
    requires
        x < pow2(k),
        y < pow2(k),
    ensures
        bitwise(op, x + pow2(k) * hx, y + pow2(k) * hy) == bitwise(op, x, y) + pow2(k) * bitwise(
            op,
            hx,
            hy,
        ),
    decreases k,
{
    lemma_pow2_32();
    if k == 0 {
        assert(x == 0 && y == 0);
        assert(bitwise(op, 0, 0) == 0);
        assert(pow2(0) * hx == hx);
        assert(pow2(0) * hy == hy);
        assert(pow2(0) * bitwise(op, hx, hy) == bitwise(op, hx, hy));
    } else {
        let j = (k - 1) as nat;
        let p = pow2(j);
        lemma_pow2_unfold(k);
        let a = x + pow2(k) * hx;
        let b = y + pow2(k) * hy;
        lemma_bitwise_split(op, j, x / 2, hx, y / 2, hy);
        lemma_halves(x, hx, p);
        lemma_halves(y, hy, p);
        let lo = bitwise(op, x / 2, y / 2) as int;
        let hi = bitwise(op, hx, hy) as int;
        assert(2 * (lo + p * hi) == 2 * lo + (2 * p) * hi) by (nonlinear_arith);
        if a == 0 && b == 0 {
            assert(x == 0 && y == 0);
            lemma_pow2_pos(k);
            assert(hx == 0) by (nonlinear_arith)
                requires
                    pow2(k) * hx == 0,
                    pow2(k) > 0,
            ;
            assert(hy == 0) by (nonlinear_arith)
                requires
                    pow2(k) * hy == 0,
                    pow2(k) > 0,
            ;
            assert(bitwise(op, 0, 0) == 0);
            assert(pow2(k) * 0 == 0);
        } else if x == 0 && y == 0 {
            assert(bitwise(op, 0, 0) == 0);
        }
    }
}

/// Halving a number whose low part lies below `2 p`.
proof fn lemma_halves(x: nat, h: nat, p: nat)
    requires
        x < 2 * p,
    ensures
        (x + (2 * p) * h) / 2 == x / 2 + p * h,
        (x + (2 * p) * h) % 2 == x % 2,
        x / 2 < p,
{
    assert((2 * p) * h == 2 * (p * h)) by (nonlinear_arith);
}

/// The digit-wise operations of the machine.
pub open spec fn u32_op(op: BitOp, x: u32, y: u32) -> u32 {
    match op {
        BitOp::And => x & y,
        BitOp::Or => x | y,
        BitOp::Xor => x ^ y,
    }
}

/// On one limb the machine's operations are the digit-wise ones.
pub proof fn lemma_bitwise_u32(op: BitOp, x: u32, y: u32)
    ensures
        bitwise(op, x as nat, y as nat) == u32_op(op, x, y),
    decreases x + y,
{
    if x == 0 && y == 0 {
        assert(0u32 & 0u32 == 0u32) by (bit_vector);
        assert(0u32 | 0u32 == 0u32) by (bit_vector);
        assert(0u32 ^ 0u32 == 0u32) by (bit_vector);
    } else {
        lemma_bitwise_u32(op, x / 2, y / 2);
        assert((x & y) == 2 * ((x / 2) & (y / 2)) + (if x % 2 == 1 && y % 2 == 1 {
            1int
        } else {
            0int
        })) by (bit_vector);
        assert((x | y) == 2 * ((x / 2) | (y / 2)) + (if x % 2 == 1 || y % 2 == 1 {
            1int
        } else {
            0int
        })) by (bit_vector);
        assert((x ^ y) == 2 * ((x / 2) ^ (y / 2)) + (if x % 2 != y % 2 {
            1int
        } else {
            0int
        })) by (bit_vector);
    }
}

/// Every digit of the result comes from the two digits in its place.
pub proof fn lemma_bitwise_digits(op: BitOp, a: nat, b: nat, i: nat)
    ensures
        bit(bitwise(op, a, b), i) == digit_op(op, bit(a, i), bit(b, i)),
    decreases i,
{
    lemma_pow2_32();
    let r = bitwise(op, a, b);
    assert(bitwise(op, a, b) % 2 == 1 <==> digit_op(op, a % 2 == 1, b % 2 == 1));
    assert(r / 2 == bitwise(op, a / 2, b / 2)) by {
        if a == 0 && b == 0 {
            assert(bitwise(op, 0, 0) == 0);
        }
    }
    if i == 0 {
        assert(a / 1 == a && b / 1 == b && r / 1 == r);
    } else {
        let j = (i - 1) as nat;
        lemma_bitwise_digits(op, a / 2, b / 2, j);
        lemma_div_pow2_twice(a, 1, j);
        lemma_div_pow2_twice(b, 1, j);
        lemma_div_pow2_twice(r, 1, j);
    }
}

/// The result has no more digits than the longer operand.
pub proof fn lemma_bitwise_bound(op: BitOp, a: nat, b: nat, k: nat)
    requires
        a < pow2(k),
        b < pow2(k),
    ensures
        bitwise(op, a, b) < pow2(k),
    decreases k,
{
    lemma_pow2_32();
    if k > 0 {
        lemma_pow2_unfold(k);
        lemma_bitwise_bound(op, a / 2, b / 2, (k - 1) as nat);
    }
}

} // verus!
