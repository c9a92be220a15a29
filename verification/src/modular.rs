//! Division of integers, and inverses modulo a number.

use vstd::arithmetic::div_mod::{
    lemma_fundamental_div_mod, lemma_mod_bound, lemma_mod_multiples_basic,
    lemma_mod_multiples_vanish, lemma_mul_mod_noop_left, lemma_mul_mod_noop_right, lemma_small_mod,
};
use vstd::arithmetic::mul::lemma_mul_is_commutative;
use vstd::prelude::*;

verus! {

/// The absolute value.
pub open spec fn magnitude(a: int) -> nat {
    if a < 0 {
        (-a) as nat
    } else {
        a as nat
    }
}

/// The quotient rounded towards zero.
pub open spec fn trunc_div(a: int, b: int) -> int {
    if (a < 0) == (b < 0) {
        (magnitude(a) / magnitude(b)) as int
    } else {
        -((magnitude(a) / magnitude(b)) as int)
    }
}

/// The remainder of the quotient rounded towards zero: it has the sign of `a`.
pub open spec fn trunc_rem(a: int, b: int) -> int {
    if a < 0 {
        -((magnitude(a) % magnitude(b)) as int)
    } else {
        (magnitude(a) % magnitude(b)) as int
    }
}

/// Whether `w` is the inverse of `a` modulo `m`.
pub open spec fn is_inverse(a: int, m: int, w: int) -> bool {
    0 <= w < m && (a * w) % m == 1int % m
}

/// The inverse of `a` modulo `m`, where there is one.
pub open spec fn mod_inverse(a: int, m: int) -> Option<int> {
    if exists|w: int| is_inverse(a, m, w) {
        Some(choose|w: int| is_inverse(a, m, w))
    } else {
        None
    }
}

/// Whether `d` divides `n`.
pub open spec fn divides(d: int, n: int) -> bool {
    d > 0 && n % d == 0
}

/// Whether `p` is a prime number.
pub open spec fn is_prime(p: int) -> bool {
    p > 1 && forall|d: int| 1 < d < p ==> !#[trigger] divides(d, p)
}

/// A number and its multiples: `n == k d`.
pub proof fn lemma_divides_witness(d: int, n: int)
    requires
        divides(d, n),
    ensures
        n == d * (n / d),
{
    lemma_fundamental_div_mod(n, d);
}

/// `d` divides each of its multiples.
pub proof fn lemma_divides_multiple(d: int, k: int)
    requires
        d > 0,
    ensures
        divides(d, d * k),
{
    lemma_mul_is_commutative(d, k);
    lemma_mod_multiples_basic(k, d);
}

/// A divisor of two numbers divides what is composed of them.
pub proof fn lemma_divides_sum(d: int, x: int, y: int, p: int, q: int)
    requires
        divides(d, x),
        divides(d, y),
    ensures
        divides(d, x * p + y * q),
{
    lemma_divides_witness(d, x);
    lemma_divides_witness(d, y);
    let (u, v) = (x / d, y / d);
    assert(x * p + y * q == d * (u * p + v * q)) by (nonlinear_arith)
        requires
            x == d * u,
            y == d * v,
    ;
    lemma_divides_multiple(d, u * p + v * q);
}

/// There is at most one inverse.
pub proof fn lemma_inverse_unique(a: int, m: int, v: int, w: int)
    requires
        is_inverse(a, m, v),
        is_inverse(a, m, w),
    ensures
        v == w,
{
    // v == v (a w) == (v a) w == w, all modulo m
    lemma_mul_mod_noop_right(v, a * w, m);
    lemma_mul_mod_noop_right(v, 1, m);
    lemma_mul_mod_noop_left(a * v, w, m);
    lemma_mul_mod_noop_left(1, w, m);
    assert(v * (a * w) == (a * v) * w) by (nonlinear_arith);
    assert(v * 1 == v);
    assert(1 * w == w);
    lemma_small_mod(v as nat, m as nat);
    lemma_small_mod(w as nat, m as nat);
}

/// A number that is an inverse is the one that `mod_inverse` gives.
pub proof fn lemma_mod_inverse(a: int, m: int, w: int)
    requires
        is_inverse(a, m, w),
    ensures
        mod_inverse(a, m) == Some(w),
{
    lemma_inverse_unique(a, m, w, choose|v: int| is_inverse(a, m, v));
}

/// `a s + m k == 1` makes `s` an inverse of `a` modulo `m`.
pub proof fn lemma_bezout_inverse(a: int, m: int, s: int, k: int)
    requires
        m > 0,
        a * s + m * k == 1,
    ensures
        is_inverse(a, m, s % m),
{
    lemma_mod_bound(s, m);
    lemma_mul_mod_noop_right(a, s, m);
    lemma_mod_multiples_vanish(k, a * s, m);
    assert(m * k + a * s == 1);
}

/// A common divisor other than one rules an inverse out.
pub proof fn lemma_no_inverse(a: int, m: int, g: int)
    requires
        m > 0,
        g > 1,
        divides(g, a),
        divides(g, m),
    ensures
        mod_inverse(a, m) is None,
{
    if exists|w: int| is_inverse(a, m, w) {
        let w = choose|w: int| is_inverse(a, m, w);
        lemma_divides_witness(g, m);
        if m == 1 {
            assert(false) by (nonlinear_arith)
                requires
                    1 == g * (m / g),
                    g > 1,
            ;
        }
        lemma_small_mod(1, m as nat);
        lemma_fundamental_div_mod(a * w, m);
        let t = (a * w) / m;
        lemma_divides_sum(g, a, m, w, -t);
        assert(a * w + m * (-t) == 1) by (nonlinear_arith)
            requires
                a * w == m * t + 1,
        ;
        lemma_small_mod(1, g as nat);
    }
}

/// Whatever the divisor, `a` and its remainder have the same common divisors with it.
pub proof fn lemma_divides_mod(d: int, a: int, m: int)
    requires
        m > 0,
        divides(d, m),
        divides(d, a % m),
    ensures
        divides(d, a),
{
    lemma_fundamental_div_mod(a, m);
    lemma_divides_sum(d, m, a % m, a / m, 1);
}

/// Combinations `a x + b y` with the greatest common divisor of `a` and `b`.
pub proof fn lemma_bezout(a: int, b: int) -> (r: (int, int, int))
    requires
        a >= 0,
        b >= 0,
        a > 0 || b > 0,
    ensures
        r.0 > 0,
        divides(r.0, a),
        divides(r.0, b),
        a * r.1 + b * r.2 == r.0,
    decreases b,
{
    if b == 0 {
        assert(a * 1 + b * 0 == a);
        lemma_divides_multiple(a, 1);
        lemma_small_mod(0, a as nat);
        (a, 1, 0)
    } else {
        lemma_mod_bound(a, b);
        let (g, x, y) = lemma_bezout(b, a % b);
        lemma_divides_mod(g, a, b);
        lemma_fundamental_div_mod(a, b);
        let (q, m) = (a / b, a % b);
        assert(a * y + b * (x - q * y) == g) by (nonlinear_arith)
            requires
                a == b * q + m,
                b * x + m * y == g,
        ;
        (g, y, x - q * y)
    }
}

/// Modulo a prime, every number but the multiples of the prime has an inverse.
pub proof fn lemma_prime_inverse(a: int, p: int)
    requires
        is_prime(p),
        a % p != 0,
    ensures
        mod_inverse(a, p) is Some,
{
    let a0 = a % p;
    lemma_mod_bound(a, p);
    let (g, x, y) = lemma_bezout(a0, p);
    lemma_divides_witness(g, p);
    lemma_divides_witness(g, a0);
    let (u, v) = (p / g, a0 / g);
    if g != 1 {
        assert(g <= a0) by (nonlinear_arith)
            requires
                a0 == g * v,
                a0 > 0,
                g > 0,
        ;
        assert(false);
    }
    lemma_bezout_inverse(a0, p, x, y);
    let w = x % p;
    lemma_mul_mod_noop_left(a, w, p);
    assert(is_inverse(a, p, w));
}

/// The quotient and the remainder give the number back.
pub proof fn lemma_trunc_parts(a: int, b: int)
    requires
        b != 0,
    ensures
        a == b * trunc_div(a, b) + trunc_rem(a, b),
        magnitude(trunc_rem(a, b)) < magnitude(b),
{
    let (x, y) = (magnitude(a) as int, magnitude(b) as int);
    lemma_fundamental_div_mod(x, y);
    lemma_mod_bound(x, y);
    let q = x / y;
    assert((-y) * q == -(y * q)) by (nonlinear_arith);
    assert((-y) * (-q) == y * q) by (nonlinear_arith);
    assert(y * (-q) == -(y * q)) by (nonlinear_arith);
}

} // verus!
