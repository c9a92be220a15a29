//! Proofs of primality: trial division, and elements of large order.

use crate::modular::{
    divides, is_prime, lemma_bezout, lemma_divides_multiple, lemma_divides_sum,
    lemma_divides_witness,
};
use vstd::arithmetic::div_mod::{
    lemma_fundamental_div_mod, lemma_fundamental_div_mod_converse, lemma_mod_bound,
    lemma_mul_mod_noop, lemma_small_mod,
};
use vstd::arithmetic::mul::{lemma_mul_is_associative, lemma_mul_is_commutative};
use vstd::arithmetic::power::{lemma_pow0, lemma_pow1, lemma_pow_adds, pow};
use vstd::prelude::*;
use vstd::set_lib::{lemma_int_range, lemma_len_subset, lemma_map_size, set_int_range};

verus! {

/// Whether no number from 2 up to `k` divides `n`.
pub open spec fn no_divisor_up_to(n: int, k: nat) -> bool
    decreases k,
{
    k < 2 || (n % (k as int) != 0 && no_divisor_up_to(n, (k - 1) as nat))
}

/// A number without a divisor up to `k` is not divided by a number up to `k`.
proof fn lemma_no_divisor(n: int, k: nat, d: int)
    requires
        no_divisor_up_to(n, k),
        1 < d <= k,
    ensures
        !divides(d, n),
    decreases k,
{
    if d < k {
        lemma_no_divisor(n, (k - 1) as nat, d);
    }
}

/// The other factor: a divisor of `n` other than `n` leaves one above one.
proof fn lemma_cofactor(d: int, n: int)
    requires
        1 < d < n,
        divides(d, n),
    ensures
        divides(n / d, n),
        1 < n / d < n,
        n == d * (n / d),
{
    lemma_divides_witness(d, n);
    let e = n / d;
    assert(1 < e < n) by (nonlinear_arith)
        requires
            n == d * e,
            1 < d < n,
    ;
    lemma_mul_is_commutative(d, e);
    lemma_divides_multiple(e, d);
}

/// Where every divisor of `n` above one is above `k`, and `n` is below the square of `k + 1`,
/// then `n` is prime.
proof fn lemma_large_divisors(n: int, k: int)
    requires
        n > 1,
        k >= 0,
        n <= k * k + 2 * k,
        forall|d: int| 1 < d < n && #[trigger] divides(d, n) ==> d > k,
    ensures
        is_prime(n),
{
    assert forall|d: int| 1 < d < n implies !#[trigger] divides(d, n) by {
        if divides(d, n) {
            lemma_cofactor(d, n);
            let e = n / d;
            assert(divides(e, n));
            assert(d * e > k * k + 2 * k) by (nonlinear_arith)
                requires
                    d >= k + 1,
                    e >= k + 1,
                    k >= 0,
            ;
        }
    }
}

/// Trial division: a number below the square of `k + 1` without a divisor up to `k` is prime.
pub proof fn lemma_trial_division(n: int, k: nat)
    requires
        n > 1,
        n <= k * k + 2 * k,
        no_divisor_up_to(n, k),
    ensures
        is_prime(n),
{
    assert forall|d: int| 1 < d < n && #[trigger] divides(d, n) implies d > k by {
        if d <= k {
            lemma_no_divisor(n, k, d);
        }
    }
    lemma_large_divisors(n, k as int);
}

/// Whether each divisor of `f` above one is a multiple of one of the numbers `qs`.
pub open spec fn covers(f: int, qs: Seq<int>) -> bool {
    forall|c: int| c > 1 && #[trigger] divides(c, f) ==> some_divides(qs, c)
}

/// Whether one of the numbers `qs` divides `c`.
pub open spec fn some_divides(qs: Seq<int>, c: int) -> bool {
    exists|i: int| 0 <= i < qs.len() && divides(#[trigger] qs[i], c)
}

/// One has no divisor above one.
pub proof fn lemma_covers_one(qs: Seq<int>)
    ensures
        covers(1, qs),
{
    assert forall|c: int| c > 1 && #[trigger] divides(c, 1) implies some_divides(qs, c) by {
        lemma_small_mod(1, c as nat);
    }
}

/// One more prime factor that is among the numbers.
pub proof fn lemma_covers_times(f: int, qs: Seq<int>, i: int)
    requires
        f > 0,
        covers(f, qs),
        0 <= i < qs.len(),
        is_prime(qs[i]),
    ensures
        covers(f * qs[i], qs),
{
    let q = qs[i];
    assert forall|c: int| c > 1 && #[trigger] divides(c, f * q) implies some_divides(qs, c) by {
        let (g, x, y) = lemma_bezout(c, q);
        lemma_divides_witness(g, q);
        let t = q / g;
        if g > q {
            assert(t >= 1) by (nonlinear_arith)
                requires
                    q == g * t,
                    q > 1,
                    g > 1,
            ;
            assert(q >= g) by (nonlinear_arith)
                requires
                    q == g * t,
                    t >= 1,
                    g > 1,
            ;
        }
        if g == q {
            assert(divides(qs[i], c));
        } else if g > 1 {
            assert(1 < g < q && divides(g, q));
        } else {
            // f == c (x f) + (f q) y
            assert((c * x + q * y) * f == c * (x * f) + (f * q) * y) by (nonlinear_arith);
            lemma_divides_multiple(c, 1);
            assert(c * 1 == c);
            lemma_divides_sum(c, c, f * q, x * f, y);
            assert(1 * f == f);
            assert(divides(c, f));
        }
    }
}

/// Several more factors of one prime that is among the numbers.
pub proof fn lemma_covers_power(f: int, qs: Seq<int>, i: int, e: nat)
    requires
        f > 0,
        covers(f, qs),
        0 <= i < qs.len(),
        is_prime(qs[i]),
    ensures
        f * pow(qs[i], e) > 0,
        covers(f * pow(qs[i], e), qs),
    decreases e,
{
    let q = qs[i];
    if e == 0 {
        lemma_pow0(q);
        assert(f * 1 == f);
    } else {
        lemma_covers_power(f, qs, i, (e - 1) as nat);
        let p = pow(q, (e - 1) as nat);
        lemma_covers_times(f * p, qs, i);
        lemma_pow1(q);
        lemma_pow_adds(q, (e - 1) as nat, 1);
        lemma_mul_is_associative(f, p, q);
        assert((f * p) * q > 0) by (nonlinear_arith)
            requires
                f * p > 0,
                q > 1,
        ;
    }
}

/// Whether the `k`-th power of `g` is one modulo `d`.
pub open spec fn power_is_one(d: int, g: int, k: nat) -> bool {
    divides(d, pow(g, k) - 1)
}

/// If two powers are one, so is the one with the sum of the exponents.
proof fn lemma_one_adds(d: int, g: int, j: nat, k: nat)
    requires
        power_is_one(d, g, j),
        power_is_one(d, g, k),
    ensures
        power_is_one(d, g, j + k),
{
    lemma_pow_adds(g, j, k);
    let (x, y) = (pow(g, j), pow(g, k));
    lemma_divides_sum(d, y - 1, x - 1, x, 1);
    assert((y - 1) * x + (x - 1) * 1 == x * y - 1) by (nonlinear_arith);
}

/// If a power is one, and so is the one with a larger exponent, so is the one with the
/// difference of the exponents.
proof fn lemma_one_cancels(d: int, g: int, j: nat, k: nat)
    requires
        power_is_one(d, g, j),
        power_is_one(d, g, j + k),
    ensures
        power_is_one(d, g, k),
{
    lemma_pow_adds(g, j, k);
    let (x, y) = (pow(g, j), pow(g, k));
    lemma_divides_sum(d, x * y - 1, x - 1, 1, -y);
    assert((x * y - 1) * 1 + (x - 1) * (-y) == y - 1) by (nonlinear_arith);
}

/// If a power is one, so are those with multiples of the exponent.
proof fn lemma_one_multiplies(d: int, g: int, m: nat, t: nat)
    requires
        power_is_one(d, g, m),
    ensures
        power_is_one(d, g, m * t),
    decreases t,
{
    if t == 0 {
        lemma_pow0(g);
        assert(m * t == 0);
        lemma_small_mod(0, d as nat);
    } else {
        lemma_one_multiplies(d, g, m, (t - 1) as nat);
        lemma_one_adds(d, g, m * (t - 1) as nat, m);
        assert(m * (t - 1) as nat + m == m * t) by (nonlinear_arith)
            requires
                t >= 1,
        ;
    }
}

/// The least exponent from `k` on, up to `f`, for which the power is one.
proof fn lemma_least_order(d: int, g: int, f: nat, k: nat) -> (m: nat)
    requires
        1 <= k <= f,
        power_is_one(d, g, f),
        forall|i: nat| 1 <= i < k ==> !#[trigger] power_is_one(d, g, i),
    ensures
        1 <= m <= f,
        power_is_one(d, g, m),
        forall|i: nat| 1 <= i < m ==> !#[trigger] power_is_one(d, g, i),
    decreases f - k,
{
    if power_is_one(d, g, k) {
        k
    } else {
        lemma_least_order(d, g, f, k + 1)
    }
}

/// What an element `g` shows of the prime factors `qs` of `f`, modulo `n`: its `f`-th power is
/// one, and the powers for `f / q`, less one, have inverses `ws`.
pub open spec fn has_order(n: int, g: int, f: nat, qs: Seq<int>, ws: Seq<int>) -> bool {
    &&& pow(g, f) % n == 1
    &&& qs.len() == ws.len()
    &&& forall|i: int|
        0 <= i < qs.len() ==> (#[trigger] qs[i]) > 0 && ((pow(g, f / qs[i] as nat) - 1) * ws[i])
            % n == 1
}

/// Modulo a divisor `d` of `n` no smaller power of the element is one.
proof fn lemma_exact_order(n: int, g: int, f: nat, qs: Seq<int>, ws: Seq<int>, d: int, k: nat)
    requires
        n > 1,
        f > 0,
        covers(f as int, qs),
        has_order(n, g, f, qs, ws),
        d > 1,
        divides(d, n),
        1 <= k < f,
    ensures
        power_is_one(d, g, f),
        !power_is_one(d, g, k),
{
    lemma_order_divides(n, d, pow(g, f));
    let m = lemma_least_order(d, g, f, 1);
    // m divides f
    let (c, r) = (f / m, f % m);
    lemma_fundamental_div_mod(f as int, m as int);
    lemma_mod_bound(f as int, m as int);
    lemma_one_multiplies(d, g, m, c);
    lemma_one_cancels(d, g, m * c, r);
    assert(r == 0);
    assert(f == m * c);
    if c > 1 {
        lemma_mul_is_commutative(m as int, c as int);
        lemma_divides_multiple(c as int, m as int);
        assert(divides(c as int, f as int));
        let i = choose|i: int| 0 <= i < qs.len() && divides(#[trigger] qs[i], c as int);
        let q = qs[i];
        lemma_divides_witness(q, c as int);
        let t = (c as int / q) as nat;
        assert(c as int / q >= 0) by (nonlinear_arith)
            requires
                c as int == q * (c as int / q),
                c > 0,
                q > 0,
        ;
        assert(f == q * (m * t)) by (nonlinear_arith)
            requires
                f == m * c,
                c == q * t,
        ;
        lemma_mul_is_commutative(q, (m * t) as int);
        lemma_fundamental_div_mod_converse(f as int, q, (m * t) as int, 0);
        assert(f / q as nat == m * t);
        lemma_one_multiplies(d, g, m, t);
        // one less the power is zero modulo d, and has an inverse
        let p = pow(g, m * t) - 1;
        lemma_divides_sum(d, p, p, ws[i], 0);
        lemma_order_divides(n, d, p * ws[i]);
        lemma_divides_sum(d, p * ws[i], p * ws[i] - 1, 1, -1);
        assert((p * ws[i]) * 1 + (p * ws[i] - 1) * (-1) == 1);
        lemma_small_mod(1, d as nat);
    }
    assert(c >= 1) by (nonlinear_arith)
        requires
            f == m * c,
            f > 0,
    ;
    assert(m * 1 == m);
}

/// What leaves one modulo `n` leaves one modulo a divisor of `n`.
proof fn lemma_order_divides(n: int, d: int, x: int)
    requires
        n > 1,
        d > 1,
        divides(d, n),
        x % n == 1,
    ensures
        divides(d, x - 1),
{
    lemma_fundamental_div_mod(x, n);
    lemma_divides_sum(d, n, n, x / n, 0);
    assert(n * (x / n) + n * 0 == x - 1);
}

/// Two powers below the order are different modulo `d`, and none is zero.
proof fn lemma_powers_differ(d: int, g: int, f: nat, i: nat, j: nat)
    requires
        d > 1,
        power_is_one(d, g, f),
        i < j < f,
        !power_is_one(d, g, (j - i) as nat),
    ensures
        pow(g, i) % d != pow(g, j) % d,
{
    if pow(g, i) % d == pow(g, j) % d {
        let (x, y) = (pow(g, i), pow(g, j));
        let k = (j - i) as nat;
        let h = (f - i) as nat;
        lemma_fundamental_div_mod(x, d);
        lemma_fundamental_div_mod(y, d);
        let s = y / d - x / d;
        assert(y - x == d * s) by (nonlinear_arith)
            requires
                x == d * (x / d) + x % d,
                y == d * (y / d) + x % d,
                s == y / d - x / d,
        ;
        lemma_divides_multiple(d, s);
        // (y - x) g^h == g^f (g^k - 1)
        lemma_pow_adds(g, i, k);
        lemma_pow_adds(g, i, h);
        let (u, v, w) = (pow(g, k), pow(g, h), pow(g, f));
        assert((y - x) * v - (w - 1) * (u - 1) == u - 1) by (nonlinear_arith)
            requires
                y == x * u,
                w == x * v,
        ;
        lemma_divides_sum(d, y - x, w - 1, v, -(u - 1));
        assert((w - 1) * (-(u - 1)) == -((w - 1) * (u - 1))) by (nonlinear_arith);
    }
}

/// A power of an element one of whose powers is one is not zero modulo `d`.
proof fn lemma_power_not_zero(d: int, g: int, f: nat, i: nat)
    requires
        d > 1,
        power_is_one(d, g, f),
        i < f,
    ensures
        pow(g, i) % d != 0,
{
    if pow(g, i) % d == 0 {
        let h = (f - i) as nat;
        lemma_pow_adds(g, i, h);
        let (x, v, w) = (pow(g, i), pow(g, h), pow(g, f));
        assert(divides(d, x));
        lemma_divides_sum(d, x, w - 1, v, -1);
        assert(x * v + (w - 1) * (-1) == 1);
        lemma_small_mod(1, d as nat);
    }
}

/// An element of order `f` modulo `d` has `f` powers, none of them zero, so `d` is above `f`.
proof fn lemma_order_bound(d: int, g: int, f: nat)
    requires
        d > 1,
        power_is_one(d, g, f),
        forall|k: nat| 1 <= k < f ==> !#[trigger] power_is_one(d, g, k),
    ensures
        f < d,
{
    let xs = set_int_range(0, f as int);
    let h = |i: int| pow(g, i as nat) % d;
    let ys = xs.map(h);
    let range = set_int_range(1, d);
    lemma_int_range(0, f as int);
    lemma_int_range(1, d);
    assert forall|a: int, b: int|
        xs.contains(a) && xs.contains(b) && #[trigger] h(a) == #[trigger] h(b) implies a == b by {
        if a < b {
            assert(!power_is_one(d, g, (b - a) as nat));
            lemma_powers_differ(d, g, f, a as nat, b as nat);
        } else if b < a {
            assert(!power_is_one(d, g, (a - b) as nat));
            lemma_powers_differ(d, g, f, b as nat, a as nat);
        }
    }
    lemma_map_size(xs, ys, h);
    assert forall|y: int| ys.contains(y) implies range.contains(y) by {
        let a = choose|a: int| xs.contains(a) && h(a) == y;
        lemma_power_not_zero(d, g, f, a as nat);
        lemma_mod_bound(pow(g, a as nat), d);
    }
    lemma_len_subset(ys, range);
}

/// Primality by an element of large order: a number `n` below the square of `f + 1` is prime
/// where some element has the order `f` modulo every divisor of it.
pub proof fn lemma_order_certificate(n: int, g: int, f: nat, qs: Seq<int>, ws: Seq<int>)
    requires
        n > 1,
        f > 0,
        n <= f * f + 2 * f,
        covers(f as int, qs),
        has_order(n, g, f, qs, ws),
    ensures
        is_prime(n),
{
    assert forall|d: int| 1 < d < n && #[trigger] divides(d, n) implies d > f by {
        assert forall|k: nat| 1 <= k < f implies !#[trigger] power_is_one(d, g, k) by {
            lemma_exact_order(n, g, f, qs, ws, d, k);
        }
        lemma_order_divides(n, d, pow(g, f));
        lemma_order_bound(d, g, f);
    }
    lemma_large_divisors(n, f as int);
}

/// One step of a power by squaring.
pub proof fn lemma_square(n: int, g: int, e: nat, y: int, z: int)
    requires
        n > 0,
        pow(g, e) % n == y,
        (y * y) % n == z,
    ensures
        pow(g, 2 * e) % n == z,
{
    lemma_pow_adds(g, e, e);
    lemma_mul_mod_noop(pow(g, e), pow(g, e), n);
}

/// The product of two powers.
pub proof fn lemma_product(n: int, g: int, e: nat, y: int, d: nat, x: int, z: int)
    requires
        n > 0,
        pow(g, e) % n == y,
        pow(g, d) % n == x,
        (y * x) % n == z,
    ensures
        pow(g, e + d) % n == z,
{
    lemma_pow_adds(g, e, d);
    lemma_mul_mod_noop(pow(g, e), pow(g, d), n);
}

} // verus!
