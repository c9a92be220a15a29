//! What holds of operators on bit-vectors together.

use crate::bits::{bit, bitwise, lemma_bitwise_digits, lemma_bitwise_split, BitOp};
use crate::bv::{
    bv_ashr, bv_concat, bv_extract, bv_sext, bv_udiv, bv_urem, bv_wrap, lemma_top_digit, BvView,
};
use crate::limbs::lemma_pow2_monotone;
use crate::op::{BvBinOp, BvBinPred, BvNaryOp, BvUnOp, FieldToBv, Op};
use crate::semantics::{bv_binary, bv_compare, bv_nary_step, bv_unary, op_result};
use crate::value::ValueView;
use vstd::arithmetic::div_mod::{
    lemma_add_mod_noop_right, lemma_fundamental_div_mod, lemma_fundamental_div_mod_converse,
    lemma_mod_bound, lemma_mod_multiples_vanish, lemma_small_mod,
};
use vstd::arithmetic::mul::lemma_mul_is_commutative;
use vstd::arithmetic::power2::{
    lemma2_to64, lemma_pow2_adds, lemma_pow2_pos, lemma_pow2_unfold, pow2,
};
use vstd::prelude::*;

verus! {

/// Laying two bit-vectors side by side and cutting them apart again gives both back.
pub proof fn law_extract_of_concat(a: BvView, b: BvView)
    requires
        a.wf(),
        b.wf(),
    ensures
        b.width > 0 ==> bv_extract(bv_concat(a, b), (b.width - 1) as nat, 0) == b,
        a.width > 0 ==> bv_extract(
            bv_concat(a, b),
            (a.width + b.width - 1) as nat,
            b.width,
        ) == a,
{
    let p = pow2(b.width) as int;
    lemma_pow2_pos(b.width);
    lemma2_to64();
    lemma_mul_is_commutative(a.uint as int, p);
    lemma_fundamental_div_mod_converse(
        (a.uint * p + b.uint) as int,
        p,
        a.uint as int,
        b.uint as int,
    );
    lemma_small_mod(a.uint, pow2(a.width));
    let c = bv_concat(a, b);
    assert(c.uint / pow2(0) == c.uint);
}

/// A number that fits a width with its sign is the signed value of its bit-vector.
pub proof fn lemma_signed_value(n: int, w: nat)
    requires
        w > 0,
        -(pow2((w - 1) as nat) as int) <= n < pow2((w - 1) as nat),
    ensures
        bv_wrap(n, w).sint() == n,
        bv_wrap(n, w).wf(),
{
    let p = pow2(w) as int;
    lemma_pow2_unfold(w);
    lemma_pow2_pos((w - 1) as nat);
    if n >= 0 {
        lemma_small_mod(n as nat, pow2(w));
    } else {
        lemma_fundamental_div_mod_converse(n, p, -1, n + p);
    }
}

/// The signed value of a bit-vector fits its width.
proof fn lemma_signed_range(a: BvView)
    requires
        a.wf(),
        a.width > 0,
    ensures
        -(pow2((a.width - 1) as nat) as int) <= a.sint() < pow2((a.width - 1) as nat),
{
    lemma_pow2_unfold(a.width);
}

/// The disjunction with zero is the number itself.
proof fn lemma_or_zero(n: nat)
    ensures
        bitwise(BitOp::Or, n, 0) == n,
        bitwise(BitOp::Or, 0, n) == n,
    decreases n,
{
    if n > 0 {
        lemma_or_zero(n / 2);
    }
}

/// Sign extension keeps the signed value, where the width is below `2^32`, and so is the number
/// of new digits or the value is not negative.
pub proof fn law_sign_extension(a: BvView, n: nat)
    requires
        a.wf(),
        0 < a.width < 0x1_0000_0000,
        n < 0x1_0000_0000 || !a.sign(),
    ensures
        bv_sext(a, n) == bv_wrap(a.sint(), a.width + n),
        bv_sext(a, n).sint() == a.sint(),
{
    let w = a.width;
    lemma_signed_range(a);
    lemma_pow2_monotone((w - 1) as nat, (w + n - 1) as nat);
    lemma_signed_value(a.sint(), w + n);
    lemma_small_mod(w, 0x1_0000_0000);
    lemma_pow2_unfold(w);
    lemma_top_digit(a.uint, (w - 1) as nat);
    lemma_pow2_monotone(w, w + n);
    if a.sign() {
        lemma_small_mod(n, 0x1_0000_0000);
        let (p, q) = (pow2(w) as int, pow2(n) as int);
        let ones = (q - 1) as nat;
        lemma_pow2_pos(w);
        lemma_pow2_pos(n);
        lemma_pow2_adds(w, n);
        lemma_mul_is_commutative(q - 1, p);
        lemma_bitwise_split(BitOp::Or, w, a.uint, 0, 0, ones);
        lemma_or_zero(a.uint);
        lemma_or_zero(ones);
        assert(bv_sext(a, n).uint == a.uint + p * (q - 1));
        assert(p * (q - 1) == p * q - p) by (nonlinear_arith);
        lemma_fundamental_div_mod_converse(a.sint(), p * q, -1, a.sint() + p * q);
    } else {
        lemma_small_mod(a.uint, pow2(w + n));
    }
}

/// The shift that keeps the sign divides the signed value by a power of two and rounds down.
pub proof fn law_arithmetic_shift(a: BvView, b: BvView)
    requires
        a.wf(),
        a.width > 0,
    ensures
        bv_ashr(a, b).sint() == a.sint() / (pow2(b.uint) as int),
{
    let d = pow2(b.uint) as int;
    let s = a.sint();
    let q = s / d;
    let h = pow2((a.width - 1) as nat) as int;
    lemma_signed_range(a);
    lemma_pow2_pos(b.uint);
    lemma_pow2_pos((a.width - 1) as nat);
    lemma_fundamental_div_mod(s, d);
    lemma_mod_bound(s, d);
    let r = s % d;
    assert(-h <= q < h) by (nonlinear_arith)
        requires
            s == d * q + r,
            0 <= r < d,
            d >= 1,
            h >= 1,
            -h <= s < h,
    ;
    lemma_signed_value(q, a.width);
}

/// A bit-vector and its opposite add up to zero.
pub proof fn law_opposite(a: BvView)
    requires
        a.wf(),
    ensures
        bv_nary_step(BvNaryOp::Add, a, bv_unary(BvUnOp::Neg, a)) == (BvView {
            uint: 0,
            width: a.width,
        }),
{
    let p = pow2(a.width) as int;
    lemma_pow2_pos(a.width);
    lemma_mod_bound(-(a.uint as int), p);
    lemma_add_mod_noop_right(a.uint as int, -(a.uint as int), p);
    lemma_small_mod(0, pow2(a.width));
}

/// Taking the complement twice gives the bit-vector back.
pub proof fn law_complement_twice(a: BvView)
    requires
        a.wf(),
    ensures
        bv_unary(BvUnOp::Not, bv_unary(BvUnOp::Not, a)) == a,
{
}

/// The opposite is the complement plus one.
pub proof fn law_opposite_is_complement_plus_one(a: BvView)
    requires
        a.wf(),
    ensures
        bv_unary(BvUnOp::Neg, a) == bv_wrap(
            (bv_unary(BvUnOp::Not, a).uint + 1) as int,
            a.width,
        ),
{
    let p = pow2(a.width) as int;
    lemma_pow2_pos(a.width);
    lemma_mod_multiples_vanish(1, -(a.uint as int), p);
    assert(p * 1 + -(a.uint as int) == p - 1 - a.uint + 1);
}

/// A difference is the sum with the opposite.
pub proof fn law_difference_is_sum_with_opposite(a: BvView, b: BvView)
    requires
        a.width == b.width,
    ensures
        bv_binary(BvBinOp::Sub, a, b) == bv_nary_step(
            BvNaryOp::Add,
            a,
            bv_unary(BvUnOp::Neg, b),
        ),
{
    let p = pow2(a.width) as int;
    lemma_pow2_pos(a.width);
    lemma_mod_bound(-(b.uint as int), p);
    lemma_add_mod_noop_right(a.uint as int, -(b.uint as int), p);
}

/// The quotient times the divisor, plus the remainder, is the dividend; the remainder is below
/// the divisor. By zero, the quotient has all its bits set and the remainder is the dividend.
pub proof fn law_quotient_and_remainder(a: BvView, b: BvView)
    requires
        a.wf(),
        a.width == b.width,
    ensures
        b.uint > 0 ==> bv_udiv(a, b).uint * b.uint + bv_urem(a, b).uint == a.uint
            && bv_urem(a, b).uint < b.uint,
        b.uint == 0 ==> bv_udiv(a, b) == bv_unary(
            BvUnOp::Not,
            (BvView { uint: 0, width: a.width }),
        ) && bv_urem(a, b) == a,
{
    if b.uint > 0 {
        lemma_fundamental_div_mod(a.uint as int, b.uint as int);
        lemma_mod_bound(a.uint as int, b.uint as int);
        lemma_mul_is_commutative(b.uint as int, (a.uint / b.uint) as int);
    }
}

/// Each bit of a bitwise operator is the boolean operator on the bits of the arguments.
pub proof fn law_bits_of_bitwise(a: BvView, b: BvView, i: nat)
    ensures
        bit(bv_nary_step(BvNaryOp::And, a, b).uint, i) == (bit(a.uint, i) && bit(b.uint, i)),
        bit(bv_nary_step(BvNaryOp::Or, a, b).uint, i) == (bit(a.uint, i) || bit(b.uint, i)),
        bit(bv_nary_step(BvNaryOp::Xor, a, b).uint, i) == (bit(a.uint, i) != bit(b.uint, i)),
{
    lemma_bitwise_digits(BitOp::And, a.uint, b.uint, i);
    lemma_bitwise_digits(BitOp::Or, a.uint, b.uint, i);
    lemma_bitwise_digits(BitOp::Xor, a.uint, b.uint, i);
}

/// Of two bit-vectors of one width exactly one of less, equal and greater holds, unsigned and
/// signed; and the other comparisons are their opposites.
pub proof fn law_comparisons(a: BvView, b: BvView)
    requires
        a.wf(),
        b.wf(),
        a.width == b.width,
    ensures
        bv_compare(BvBinPred::Ult, a, b) == !(a == b || bv_compare(BvBinPred::Ugt, a, b)),
        bv_compare(BvBinPred::Ugt, a, b) == bv_compare(BvBinPred::Ult, b, a),
        bv_compare(BvBinPred::Ule, a, b) == !bv_compare(BvBinPred::Ugt, a, b),
        bv_compare(BvBinPred::Uge, a, b) == !bv_compare(BvBinPred::Ult, a, b),
        bv_compare(BvBinPred::Slt, a, b) == !(a == b || bv_compare(BvBinPred::Sgt, a, b)),
        bv_compare(BvBinPred::Sgt, a, b) == bv_compare(BvBinPred::Slt, b, a),
        bv_compare(BvBinPred::Sle, a, b) == !bv_compare(BvBinPred::Sgt, a, b),
        bv_compare(BvBinPred::Sge, a, b) == !bv_compare(BvBinPred::Slt, a, b),
{
    if a.width > 0 {
        lemma_pow2_unfold(a.width);
    }
}

/// A boolean as a bit-vector has that boolean for its only bit.
pub proof fn law_bit_of_bool(b: bool, env: Map<Seq<char>, ValueView>, mode: FieldToBv)
    ensures
        op_result(
            Op::BvBit(0),
            seq![op_result(Op::BoolToBv, seq![ValueView::Bool(b)], env, mode)->0],
            env,
            mode,
        ) == Some(ValueView::Bool(b)),
{
    lemma2_to64();
}

} // verus!
