//! The value of a little-endian sequence of 32-bit limbs, and facts about it.

use vstd::arithmetic::div_mod::{
    lemma_div_denominator, lemma_fundamental_div_mod, lemma_fundamental_div_mod_converse,
};
use vstd::arithmetic::mul::{
    lemma_mul_is_associative, lemma_mul_is_commutative, lemma_mul_is_distributive_add,
};
use vstd::arithmetic::power2::{
    lemma2_to64, lemma_pow2_adds, lemma_pow2_pos, lemma_pow2_strictly_increases, pow2,
};
use vstd::prelude::*;

verus! {

/// The natural number that the limbs `s` stand for, least significant limb first.
pub open spec fn limbs_value(s: Seq<u32>) -> nat
    decreases s.len(),
{
    if s.len() == 0 {
        0
    } else {
        s[0] as nat + 0x1_0000_0000 * limbs_value(s.drop_first())
    }
}

/// The limb of `s` at position `i`, zero past the end.
pub open spec fn limb_at(s: Seq<u32>, i: int) -> u32 {
    if 0 <= i < s.len() {
        s[i]
    } else {
        0
    }
}

/// The first `n` limbs of `s`, filled up with zeros.
pub open spec fn padded(s: Seq<u32>, n: nat) -> Seq<u32> {
    Seq::new(n, |i: int| limb_at(s, i))
}

/// A number has a single sequence of limbs that does not end in a zero limb.
pub open spec fn trimmed(s: Seq<u32>) -> bool {
    s.len() > 0 ==> s.last() != 0
}

/// `pow2(32)` as a literal.
pub proof fn lemma_pow2_32()
    ensures
        pow2(32) == 0x1_0000_0000,
        pow2(0) == 1,
        pow2(1) == 2,
{
    lemma2_to64();
}

/// Appending limbs adds their value, shifted past the limbs before them.
pub proof fn lemma_value_append(s: Seq<u32>, t: Seq<u32>)
    ensures
        limbs_value(s + t) == limbs_value(s) + pow2(32 * s.len()) * limbs_value(t),
    decreases s.len(),
{
    lemma_pow2_32();
    if s.len() == 0 {
        assert(s + t =~= t);
        assert(32 * s.len() == 0);
        assert(1 * limbs_value(t) == limbs_value(t));
    } else {
        let rest = s.drop_first();
        lemma_value_append(rest, t);
        assert((s + t).drop_first() =~= rest + t);
        assert((s + t)[0] == s[0]);
        let p = pow2(32 * rest.len()) as int;
        let v = limbs_value(t) as int;
        lemma_pow2_adds(32, 32 * rest.len());
        assert(32 * s.len() == 32 + 32 * rest.len());
        assert(pow2(32 * s.len()) == 0x1_0000_0000 * p);
        lemma_mul_is_associative(0x1_0000_0000, p, v);
        assert(limbs_value(rest + t) == limbs_value(rest) + p * v);
        assert(limbs_value(s) == s[0] + 0x1_0000_0000 * limbs_value(rest));
        assert(limbs_value(s + t) == s[0] + 0x1_0000_0000 * (limbs_value(rest) + p * v));
        lemma_mul_is_distributive_add(0x1_0000_0000, limbs_value(rest) as int, p * v);
    }
}

/// Pushing one limb.
pub proof fn lemma_value_push(s: Seq<u32>, x: u32)
    ensures
        limbs_value(s.push(x)) == limbs_value(s) + x * pow2(32 * s.len()),
{
    let t = seq![x];
    assert(s.push(x) =~= s + t);
    lemma_value_append(s, t);
    assert(t.drop_first() =~= Seq::<u32>::empty());
    assert(limbs_value(t.drop_first()) == 0);
    assert(limbs_value(t) == x);
    lemma_mul_is_commutative(x as int, pow2(32 * s.len()) as int);
}

/// Splitting the limbs at `k`.
pub proof fn lemma_value_split(s: Seq<u32>, k: int)
    requires
        0 <= k <= s.len(),
    ensures
        limbs_value(s) == limbs_value(s.take(k)) + pow2(32 * k as nat) * limbs_value(s.skip(k)),
{
    assert(s =~= s.take(k) + s.skip(k));
    lemma_value_append(s.take(k), s.skip(k));
}

/// Taking one limb off the front of a suffix.
pub proof fn lemma_value_skip(s: Seq<u32>, i: int)
    requires
        0 <= i < s.len(),
    ensures
        limbs_value(s.skip(i)) == s[i] + 0x1_0000_0000 * limbs_value(s.skip(i + 1)),
{
    assert(s.skip(i).drop_first() =~= s.skip(i + 1));
    assert(s.skip(i)[0] == s[i]);
}

/// The whole suffix is the sequence itself; the last suffix is empty.
pub proof fn lemma_skip_ends(s: Seq<u32>)
    ensures
        s.skip(0) =~= s,
        limbs_value(s.skip(s.len() as int)) == 0,
{
    assert(s.skip(s.len() as int).len() == 0);
}

/// `n` limbs stand for a number below `2^(32 n)`.
pub proof fn lemma_value_bound(s: Seq<u32>)
    ensures
        limbs_value(s) < pow2(32 * s.len()),
    decreases s.len(),
{
    lemma_pow2_32();
    if s.len() > 0 {
        let rest = s.drop_first();
        lemma_value_bound(rest);
        lemma_pow2_adds(32, 32 * rest.len());
        assert(pow2(32 * s.len()) == 0x1_0000_0000 * pow2(32 * rest.len()));
    }
}

/// Trimmed limbs stand for a number of at least `2^(32 (n - 1))`.
pub proof fn lemma_value_lower(s: Seq<u32>)
    requires
        trimmed(s),
        s.len() > 0,
    ensures
        limbs_value(s) >= pow2((32 * (s.len() - 1)) as nat),
{
    let init = s.drop_last();
    assert(s =~= init.push(s.last()));
    lemma_value_push(init, s.last());
    let p = pow2(32 * init.len()) as int;
    assert(s.last() * p >= p) by (nonlinear_arith)
        requires
            s.last() >= 1,
            p >= 0,
    ;
}

/// Zero limbs at the top do not change the value.
pub proof fn lemma_padded(s: Seq<u32>, n: nat)
    requires
        n >= s.len(),
    ensures
        limbs_value(padded(s, n)) == limbs_value(s),
    decreases n,
{
    if n == s.len() {
        assert(padded(s, n) =~= s);
    } else {
        let m = (n - 1) as nat;
        lemma_padded(s, m);
        assert(padded(s, n) =~= padded(s, m).push(0));
        lemma_value_push(padded(s, m), 0);
    }
}

/// One more limb of a padded sequence.
pub proof fn lemma_padded_step(s: Seq<u32>, i: nat)
    ensures
        limbs_value(padded(s, i + 1)) == limbs_value(padded(s, i)) + limb_at(s, i as int) * pow2(
            32 * i,
        ),
{
    assert(padded(s, i + 1) =~= padded(s, i).push(limb_at(s, i as int)));
    lemma_value_push(padded(s, i), limb_at(s, i as int));
}

/// A run of zero limbs is zero.
pub proof fn lemma_value_zeros(s: Seq<u32>)
    requires
        forall|i: int| 0 <= i < s.len() ==> s[i] == 0,
    ensures
        limbs_value(s) == 0,
    decreases s.len(),
{
    if s.len() > 0 {
        assert forall|i: int| 0 <= i < s.drop_first().len() implies s.drop_first()[i] == 0 by {
            assert(s.drop_first()[i] == s[i + 1]);
        }
        lemma_value_zeros(s.drop_first());
    }
}

/// Dropping the low `k` limbs divides by `2^(32 k)`.
pub proof fn lemma_value_skip_div(s: Seq<u32>, k: int)
    requires
        0 <= k <= s.len(),
    ensures
        limbs_value(s.skip(k)) == limbs_value(s) / pow2(32 * k as nat),
{
    lemma_value_split(s, k);
    lemma_value_bound(s.take(k));
    lemma_pow2_pos(32 * k as nat);
    lemma_mul_is_commutative(pow2(32 * k as nat) as int, limbs_value(s.skip(k)) as int);
    lemma_fundamental_div_mod_converse(
        limbs_value(s) as int,
        pow2(32 * k as nat) as int,
        limbs_value(s.skip(k)) as int,
        limbs_value(s.take(k)) as int,
    );
}

/// Powers of two never shrink.
pub proof fn lemma_pow2_monotone(a: nat, b: nat)
    requires
        a <= b,
    ensures
        pow2(a) <= pow2(b),
{
    if a < b {
        lemma_pow2_strictly_increases(a, b);
    }
}

/// Dividing by `2^a` and then by `2^b`.
pub proof fn lemma_div_pow2_twice(x: nat, a: nat, b: nat)
    ensures
        (x / pow2(a)) / pow2(b) == x / pow2(a + b),
{
    lemma_pow2_pos(a);
    lemma_pow2_pos(b);
    lemma_div_denominator(x as int, pow2(a) as int, pow2(b) as int);
    lemma_pow2_adds(a, b);
}

/// `x` is its quotient and remainder put together.
pub proof fn lemma_div_mod_parts(x: nat, d: nat)
    requires
        d > 0,
    ensures
        x == (x / d) * d + x % d,
        x % d < d,
{
    lemma_fundamental_div_mod(x as int, d as int);
    lemma_mul_is_commutative(d as int, (x / d) as int);
}

} // verus!
