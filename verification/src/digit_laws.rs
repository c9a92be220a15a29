//! What operators on bit-vectors give, told digit by digit.

use crate::bits::{bit, bitwise, lemma_bitwise_digits, BitOp};
use crate::bv::{lemma_floor_of_negative, lemma_top_digit, BvView};
use crate::limbs::{lemma_div_mod_parts, lemma_div_pow2_twice, lemma_pow2_32, lemma_pow2_monotone};
use crate::op::{BvBinOp, BvBinPred, BvNaryOp, BvUnOp, FieldToBv, Op};
use crate::semantics::{bv_nary, op_result};
use crate::value::ValueView;
use vstd::arithmetic::div_mod::{
    lemma_add_mod_noop, lemma_add_mod_noop_right, lemma_fundamental_div_mod_converse,
    lemma_mod_bound, lemma_mod_multiples_vanish, lemma_mul_mod_noop_left, lemma_mul_mod_noop_right,
    lemma_small_mod,
};
use vstd::arithmetic::mul::{lemma_mul_is_associative, lemma_mul_is_commutative};
use vstd::arithmetic::power2::{lemma_pow2_adds, lemma_pow2_pos, lemma_pow2_unfold, pow2};
use vstd::prelude::*;

verus! {

/// What the digits below the place `i + 1` are worth is what those below `i` are worth, and
/// `2^i` besides where the digit at `i` is set.
pub proof fn law_digits_make_up_the_number(n: nat, i: nat)
    ensures
        n % pow2(i + 1) == n % pow2(i) + (if bit(n, i) {
            pow2(i)
        } else {
            0
        }),
{
    let (p, q) = (pow2(i), pow2(i + 1));
    lemma_pow2_pos(i);
    lemma_pow2_unfold(i + 1);
    lemma_div_mod_parts(n, p);
    let (d, r) = (n / p, n % p);
    let (e, b) = (d / 2, d % 2);
    assert(d == 2 * e + b);
    assert(n == q * e + (b * p + r)) by (nonlinear_arith)
        requires
            n == d * p + r,
            d == 2 * e + b,
            q == 2 * p,
    ;
    assert(b * p == (if b == 1 {
        p
    } else {
        0
    })) by (nonlinear_arith)
        requires
            b == 0 || b == 1,
    ;
    lemma_mul_is_commutative(q as int, e as int);
    lemma_fundamental_div_mod_converse(n as int, q as int, e as int, (b * p + r) as int);
}

/// The digit at a place is that of the half, one place lower.
proof fn lemma_digit_of_half(n: nat, i: nat)
    ensures
        bit(n, i + 1) == bit(n / 2, i),
        bit(n, 0) == (n % 2 == 1),
{
    lemma_pow2_32();
    lemma_div_pow2_twice(n, 1, i);
    assert(n / 1 == n);
}

/// Zero has no digit that is set.
proof fn lemma_digits_of_zero(i: nat)
    ensures
        !bit(0, i),
{
    lemma_pow2_pos(i);
    lemma_fundamental_div_mod_converse(0, pow2(i) as int, 0, 0);
}

/// Numbers with the same digits are the same.
pub proof fn law_digits_tell_numbers(a: nat, b: nat)
    requires
        forall|i: nat| #[trigger] bit(a, i) == bit(b, i),
    ensures
        a == b,
    decreases a + b,
{
    if a > 0 || b > 0 {
        assert(bit(a, 0) == bit(b, 0));
        lemma_digit_of_half(a, 0);
        lemma_digit_of_half(b, 0);
        assert forall|i: nat| #[trigger] bit(a / 2, i) == bit(b / 2, i) by {
            lemma_digit_of_half(a, i);
            lemma_digit_of_half(b, i);
            assert(bit(a, i + 1) == bit(b, i + 1));
        }
        law_digits_tell_numbers(a / 2, b / 2);
    }
}

/// Reducing modulo `2^w` keeps the digits below `w`, and no others.
proof fn lemma_digits_of_residue(n: nat, w: nat, i: nat)
    ensures
        bit(n % pow2(w), i) == (i < w && bit(n, i)),
{
    lemma_pow2_pos(w);
    lemma_div_mod_parts(n, pow2(w));
    let (d, r) = (n / pow2(w), n % pow2(w));
    if i < w {
        let k = (w - i) as nat;
        lemma_pow2_pos(i);
        lemma_pow2_adds(i, k);
        lemma_pow2_unfold(k);
        lemma_div_mod_parts(r, pow2(i));
        let (p, h) = (pow2(i) as int, pow2((k - 1) as nat) as int);
        let (e, s) = ((r / pow2(i)) as int, (r % pow2(i)) as int);
        assert(n == p * (2 * (d * h) + e) + s) by (nonlinear_arith)
            requires
                n == d * (p * (2 * h)) + r,
                r == e * p + s,
        ;
        lemma_mul_is_commutative(p, 2 * (d * h) + e);
        lemma_fundamental_div_mod_converse(n as int, p, 2 * (d * h) + e, s);
        lemma_mod_multiples_vanish(d * h, e, 2);
    } else {
        lemma_digits_above(r, w, i);
    }
}

/// A number below `2^w` has no digit set at `w` or above.
proof fn lemma_digits_above(n: nat, w: nat, i: nat)
    requires
        n < pow2(w),
        w <= i,
    ensures
        !bit(n, i),
{
    lemma_pow2_monotone(w, i);
    lemma_fundamental_div_mod_converse(n as int, pow2(i) as int, 0, n as int);
}

/// Dividing by `2^k` moves the digits down by `k` places.
proof fn lemma_digits_of_quotient(n: nat, k: nat, i: nat)
    ensures
        bit(n / pow2(k), i) == bit(n, i + k),
{
    lemma_div_pow2_twice(n, k, i);
    assert(k + i == i + k);
}

/// Multiplying by `2^k` moves the digits up by `k` places.
proof fn lemma_digits_of_multiple(n: nat, k: nat, i: nat)
    ensures
        bit(n * pow2(k), i) == (k <= i && bit(n, (i - k) as nat)),
{
    let m = n * pow2(k);
    lemma_pow2_pos(k);
    lemma_fundamental_div_mod_converse(m as int, pow2(k) as int, n as int, 0);
    if k <= i {
        lemma_digits_of_quotient(m, k, (i - k) as nat);
        assert((i - k) as nat + k == i);
    } else {
        // 2^i times an even number
        let j = (k - i) as nat;
        lemma_pow2_adds(i, j);
        lemma_pow2_unfold(j);
        lemma_pow2_pos(i);
        let (p, h) = (pow2(i) as int, pow2((j - 1) as nat) as int);
        assert(m == p * (2 * (n * h)) + 0) by (nonlinear_arith)
            requires
                m == n * (p * (2 * h)),
        ;
        lemma_mul_is_commutative(p, 2 * (n * h));
        lemma_fundamental_div_mod_converse(m as int, p, 2 * (n * h), 0);
        lemma_mod_multiples_vanish(n * h, 0, 2);
    }
}

/// The complement has the opposite digits below the width.
proof fn lemma_digits_of_complement(n: nat, w: nat, i: nat)
    requires
        n < pow2(w),
        i < w,
    ensures
        bit((pow2(w) - 1 - n) as nat, i) == !bit(n, i),
{
    let k = (w - i) as nat;
    lemma_pow2_pos(i);
    lemma_pow2_adds(i, k);
    lemma_pow2_unfold(k);
    lemma_div_mod_parts(n, pow2(i));
    let (p, h) = (pow2(i) as int, pow2((k - 1) as nat) as int);
    let (e, s) = ((n / pow2(i)) as int, (n % pow2(i)) as int);
    let c = pow2(w) - 1 - n;
    assert(c == p * (2 * h - 1 - e) + (p - 1 - s)) by (nonlinear_arith)
        requires
            c == p * (2 * h) - 1 - n,
            n == e * p + s,
    ;
    lemma_mul_is_commutative(p, 2 * h - 1 - e);
    lemma_fundamental_div_mod_converse(c, p, 2 * h - 1 - e, p - 1 - s);
    assert(2 * h - 1 - e >= 0) by (nonlinear_arith)
        requires
            c == p * (2 * h - 1 - e) + (p - 1 - s),
            c >= 0,
            0 <= s,
            p > 0,
    ;
}

/// The bit at a place is whether that digit is set; the place counts by its low 32 bits.
pub proof fn law_bit_at_a_place(
    i: usize,
    args: Seq<ValueView>,
    env: Map<Seq<char>, ValueView>,
    mode: FieldToBv,
)
    ensures
        op_result(Op::BvBit(i), args, env, mode) is Some <==> args.len() >= 1
            && args[0] is BitVector,
        args.len() >= 1 && args[0] is BitVector ==> op_result(Op::BvBit(i), args, env, mode)
            == Some(ValueView::Bool(bit(args[0]->BitVector_0.uint, i as nat % 0x1_0000_0000))),
{
}

/// A boolean as a bit-vector has width one and the digit that says whether it holds.
pub proof fn law_boolean_as_bit(
    args: Seq<ValueView>,
    env: Map<Seq<char>, ValueView>,
    mode: FieldToBv,
)
    ensures
        op_result(Op::BoolToBv, args, env, mode) is Some <==> args.len() >= 1 && args[0] is Bool,
        args.len() >= 1 && args[0] is Bool ==> op_result(Op::BoolToBv, args, env, mode)->0
            is BitVector && op_result(Op::BoolToBv, args, env, mode)->0->BitVector_0.width == 1
            && op_result(Op::BoolToBv, args, env, mode)->0->BitVector_0.uint < 2 && (op_result(
            Op::BoolToBv,
            args,
            env,
            mode,
        )->0->BitVector_0.uint == 1 <==> args[0] == ValueView::Bool(true)),
{
}

/// The operators on two bit-vectors of one width are there for such bit-vectors and for nothing
/// else, and give one of that width that fits it.
pub proof fn law_binary_operands(
    o: BvBinOp,
    args: Seq<ValueView>,
    env: Map<Seq<char>, ValueView>,
    mode: FieldToBv,
)
    ensures
        op_result(Op::BvBinOp(o), args, env, mode) is Some <==> args.len() >= 2
            && args[0] is BitVector && args[1] is BitVector && args[0]->BitVector_0.width
            == args[1]->BitVector_0.width,
        op_result(Op::BvBinOp(o), args, env, mode) is Some ==> op_result(
            Op::BvBinOp(o),
            args,
            env,
            mode,
        )->0 is BitVector && op_result(Op::BvBinOp(o), args, env, mode)->0->BitVector_0.width
            == args[0]->BitVector_0.width,
{
}

/// The left shift by `n` moves each digit up by `n` places: at the place `j` stands the digit
/// that stood at `j - n`, and below `n` there are zeros. What is moved past the width is lost.
pub proof fn law_left_shift(
    args: Seq<ValueView>,
    a: BvView,
    b: BvView,
    r: BvView,
    j: nat,
    env: Map<Seq<char>, ValueView>,
    mode: FieldToBv,
)
    requires
        args.len() >= 2,
        args[0] == ValueView::BitVector(a),
        args[1] == ValueView::BitVector(b),
        op_result(Op::BvBinOp(BvBinOp::Shl), args, env, mode) == Some(ValueView::BitVector(r)),
    ensures
        r.width == a.width,
        r.uint < pow2(a.width),
        bit(r.uint, j) == (b.uint <= j < a.width && bit(a.uint, (j - b.uint) as nat)),
{
    lemma_pow2_pos(a.width);
    lemma_mod_bound((a.uint * pow2(b.uint)) as int, pow2(a.width) as int);
    lemma_digits_of_residue(a.uint * pow2(b.uint), a.width, j);
    lemma_digits_of_multiple(a.uint, b.uint, j);
}

/// The left shift by nothing changes nothing, and the shift by one place more is the sum of the
/// shifted bit-vector with itself.
#[verifier::rlimit(40)]
pub proof fn law_left_shift_doubles(
    a: BvView,
    n: nat,
    env: Map<Seq<char>, ValueView>,
    mode: FieldToBv,
)
    requires
        a.uint < pow2(a.width),
        n + 1 < pow2(a.width),
    ensures
        op_result(
            Op::BvBinOp(BvBinOp::Shl),
            seq![
                ValueView::BitVector(a),
                ValueView::BitVector(BvView { uint: 0, width: a.width }),
            ],
            env,
            mode,
        ) == Some(ValueView::BitVector(a)),
        op_result(
            Op::BvBinOp(BvBinOp::Shl),
            seq![
                ValueView::BitVector(a),
                ValueView::BitVector(BvView { uint: n + 1, width: a.width }),
            ],
            env,
            mode,
        ) == op_result(
            Op::BvNaryOp(BvNaryOp::Add),
            seq![
                op_result(
                    Op::BvBinOp(BvBinOp::Shl),
                    seq![
                        ValueView::BitVector(a),
                        ValueView::BitVector(BvView { uint: n, width: a.width }),
                    ],
                    env,
                    mode,
                )->0,
                op_result(
                    Op::BvBinOp(BvBinOp::Shl),
                    seq![
                        ValueView::BitVector(a),
                        ValueView::BitVector(BvView { uint: n, width: a.width }),
                    ],
                    env,
                    mode,
                )->0,
            ],
            env,
            mode,
        ),
{
    let p = pow2(a.width) as int;
    lemma_pow2_32();
    lemma_pow2_pos(a.width);
    lemma_small_mod(a.uint, pow2(a.width));
    assert(a.uint * 1 == a.uint);
    lemma_pow2_unfold(n + 1);
    let x = (a.uint * pow2(n)) as int;
    assert((a.uint * pow2(n + 1)) as int == x + x) by (nonlinear_arith)
        requires
            x == a.uint * pow2(n),
            pow2(n + 1) == 2 * pow2(n),
    ;
    lemma_add_mod_noop(x, x, p);
    lemma_mod_bound(x, p);
    let v = ValueView::BitVector(BvView { uint: (x % p) as nat, width: a.width });
    assert(seq![v, v].drop_last() =~= seq![v]);
    assert(bv_nary(BvNaryOp::Add, seq![v]) == Some(v->BitVector_0));
}

/// The right shift by `n` moves each digit down by `n` places: at the place `j` stands the digit
/// that stood at `j + n`.
pub proof fn law_right_shift(
    args: Seq<ValueView>,
    a: BvView,
    b: BvView,
    r: BvView,
    j: nat,
    env: Map<Seq<char>, ValueView>,
    mode: FieldToBv,
)
    requires
        args.len() >= 2,
        args[0] == ValueView::BitVector(a),
        args[1] == ValueView::BitVector(b),
        a.uint < pow2(a.width),
        op_result(Op::BvBinOp(BvBinOp::Lshr), args, env, mode) == Some(ValueView::BitVector(r)),
    ensures
        r.width == a.width,
        r.uint < pow2(a.width),
        bit(r.uint, j) == (j + b.uint < a.width && bit(a.uint, j + b.uint)),
{
    lemma_digits_of_quotient(a.uint, b.uint, j);
    if j + b.uint >= a.width {
        lemma_digits_above(a.uint, a.width, j + b.uint);
    }
    lemma_pow2_pos(b.uint);
    lemma_div_mod_parts(a.uint, pow2(b.uint));
    let (d, q, m) = (pow2(b.uint) as int, r.uint as int, (a.uint % pow2(b.uint)) as int);
    assert(q <= a.uint) by (nonlinear_arith)
        requires
            a.uint == q * d + m,
            d >= 1,
            m >= 0,
            q >= 0,
    ;
}

/// The right shift that keeps the sign moves each digit down by `n` places; the places that are
/// left over get the digit at the top.
pub proof fn law_signed_right_shift(
    args: Seq<ValueView>,
    a: BvView,
    b: BvView,
    r: BvView,
    j: nat,
    env: Map<Seq<char>, ValueView>,
    mode: FieldToBv,
)
    requires
        args.len() >= 2,
        args[0] == ValueView::BitVector(a),
        args[1] == ValueView::BitVector(b),
        a.uint < pow2(a.width),
        j < a.width,
        op_result(Op::BvBinOp(BvBinOp::Ashr), args, env, mode) == Some(ValueView::BitVector(r)),
    ensures
        r.width == a.width,
        r.uint < pow2(a.width),
        bit(r.uint, j) == (if j + b.uint < a.width {
            bit(a.uint, j + b.uint)
        } else {
            bit(a.uint, (a.width - 1) as nat)
        }),
{
    let (w, n) = (a.width, b.uint);
    let (p, d) = (pow2(w) as int, pow2(n) as int);
    lemma_pow2_pos(w);
    lemma_pow2_pos(n);
    lemma_pow2_unfold(w);
    lemma_top_digit(a.uint, (w - 1) as nat);
    lemma_mod_bound(a.sint() / d, p);
    if a.sign() {
        let c = (p - 1 - a.uint) as nat;
        lemma_floor_of_negative(a.uint as int, p, d);
        lemma_div_mod_parts(c, pow2(n));
        let (q, m) = ((c / pow2(n)) as int, (c % pow2(n)) as int);
        assert(0 <= q <= c) by (nonlinear_arith)
            requires
                c == q * d + m,
                d >= 1,
                m >= 0,
                q >= 0,
        ;
        lemma_fundamental_div_mod_converse(-1 - q, p, -1, p - 1 - q);
        assert(r.uint == p - 1 - q);
        lemma_digits_of_complement(q as nat, w, j);
        lemma_digits_of_quotient(c, n, j);
        if j + n < w {
            lemma_digits_of_complement(a.uint, w, j + n);
        } else {
            lemma_digits_above(c, w, j + n);
        }
    } else {
        lemma_digits_of_residue(a.uint / pow2(n), w, j);
        lemma_digits_of_quotient(a.uint, n, j);
        if j + n >= w {
            lemma_digits_above(a.uint, w, j + n);
        }
    }
}

/// A difference added to what was taken away gives back what it was taken from.
pub proof fn law_differences(
    args: Seq<ValueView>,
    a: BvView,
    b: BvView,
    env: Map<Seq<char>, ValueView>,
    mode: FieldToBv,
)
    requires
        args.len() >= 2,
        args[0] == ValueView::BitVector(a),
        args[1] == ValueView::BitVector(b),
        a.width == b.width,
        a.uint < pow2(a.width),
        b.uint < pow2(b.width),
    ensures
        op_result(
            Op::BvNaryOp(BvNaryOp::Add),
            seq![
                op_result(Op::BvBinOp(BvBinOp::Sub), args, env, mode)->0,
                ValueView::BitVector(b),
            ],
            env,
            mode,
        ) == Some(ValueView::BitVector(a)),
        op_result(Op::BvBinOp(BvBinOp::Sub), args, env, mode)->0->BitVector_0.uint < pow2(a.width),
{
    let p = pow2(a.width) as int;
    let (x, y) = (a.uint as int, b.uint as int);
    lemma_pow2_pos(a.width);
    lemma_mod_bound(x - y, p);
    lemma_add_mod_noop_right(y, x - y, p);
    lemma_small_mod(a.uint, pow2(a.width));
    let v = op_result(Op::BvBinOp(BvBinOp::Sub), args, env, mode)->0;
    assert(seq![v, ValueView::BitVector(b)].drop_last() =~= seq![v]);
    assert(bv_nary(BvNaryOp::Add, seq![v]) == Some(v->BitVector_0));
}

/// The dividend is the quotient times the divisor plus the remainder, and the remainder is below
/// the divisor. By zero, every digit of the quotient is set and the remainder is the dividend.
pub proof fn law_division(
    args: Seq<ValueView>,
    a: BvView,
    b: BvView,
    q: BvView,
    r: BvView,
    env: Map<Seq<char>, ValueView>,
    mode: FieldToBv,
)
    requires
        args.len() >= 2,
        args[0] == ValueView::BitVector(a),
        args[1] == ValueView::BitVector(b),
        op_result(Op::BvBinOp(BvBinOp::Udiv), args, env, mode) == Some(ValueView::BitVector(q)),
        op_result(Op::BvBinOp(BvBinOp::Urem), args, env, mode) == Some(ValueView::BitVector(r)),
    ensures
        q.width == a.width,
        r.width == a.width,
        b.uint > 0 ==> a.uint == q.uint * b.uint + r.uint && r.uint < b.uint,
        b.uint == 0 ==> q.uint + 1 == pow2(a.width) && r.uint == a.uint,
{
    if b.uint > 0 {
        lemma_div_mod_parts(a.uint, b.uint);
    } else {
        lemma_pow2_pos(a.width);
    }
}

/// The complement has every digit below the width the other way round. A bit-vector and its
/// opposite add up to zero.
pub proof fn law_complement_and_opposite(
    args: Seq<ValueView>,
    a: BvView,
    j: nat,
    env: Map<Seq<char>, ValueView>,
    mode: FieldToBv,
)
    requires
        args.len() >= 1,
        args[0] == ValueView::BitVector(a),
        a.uint < pow2(a.width),
    ensures
        op_result(Op::BvUnOp(BvUnOp::Not), args, env, mode) is Some,
        op_result(Op::BvUnOp(BvUnOp::Not), args, env, mode)->0 is BitVector,
        op_result(Op::BvUnOp(BvUnOp::Not), args, env, mode)->0->BitVector_0.width == a.width,
        op_result(Op::BvUnOp(BvUnOp::Not), args, env, mode)->0->BitVector_0.uint < pow2(a.width),
        j < a.width ==> bit(
            op_result(Op::BvUnOp(BvUnOp::Not), args, env, mode)->0->BitVector_0.uint,
            j,
        ) != bit(a.uint, j),
        op_result(Op::BvUnOp(BvUnOp::Neg), args, env, mode) is Some,
        op_result(Op::BvUnOp(BvUnOp::Neg), args, env, mode)->0 is BitVector,
        op_result(Op::BvUnOp(BvUnOp::Neg), args, env, mode)->0->BitVector_0.uint < pow2(a.width),
        op_result(
            Op::BvNaryOp(BvNaryOp::Add),
            seq![op_result(Op::BvUnOp(BvUnOp::Neg), args, env, mode)->0, ValueView::BitVector(a)],
            env,
            mode,
        ) == Some(ValueView::BitVector(BvView { uint: 0, width: a.width })),
{
    let p = pow2(a.width) as int;
    let x = a.uint as int;
    lemma_pow2_pos(a.width);
    if j < a.width {
        lemma_digits_of_complement(a.uint, a.width, j);
    }
    lemma_mod_bound(-x, p);
    lemma_add_mod_noop_right(x, -x, p);
    lemma_small_mod(0, pow2(a.width));
    let v = op_result(Op::BvUnOp(BvUnOp::Neg), args, env, mode)->0;
    assert(seq![v, ValueView::BitVector(a)].drop_last() =~= seq![v]);
    assert(bv_nary(BvNaryOp::Add, seq![v]) == Some(v->BitVector_0));
}

/// Operators on one bit-vector have values for bit-vectors only.
pub proof fn law_unary_operands(
    o: BvUnOp,
    h: usize,
    l: usize,
    args: Seq<ValueView>,
    env: Map<Seq<char>, ValueView>,
    mode: FieldToBv,
)
    requires
        args.len() == 0 || !(args[0] is BitVector),
    ensures
        op_result(Op::BvUnOp(o), args, env, mode) is None,
        op_result(Op::BvExtract(h, l), args, env, mode) is None,
        op_result(Op::BvSext(h), args, env, mode) is None,
        op_result(Op::BvUext(h), args, env, mode) is None,
{
}

/// Whether all values are bit-vectors of the given width.
pub open spec fn all_of_width(w: nat, s: Seq<ValueView>) -> bool {
    forall|i: int|
        0 <= i < s.len() ==> (#[trigger] s[i]) is BitVector && s[i]->BitVector_0.width == w
}

/// The operators on several bit-vectors are there for one or more of one width, and for nothing
/// else; they give one of that width.
pub proof fn law_several_operands(
    o: BvNaryOp,
    s: Seq<ValueView>,
    env: Map<Seq<char>, ValueView>,
    mode: FieldToBv,
)
    ensures
        op_result(Op::BvNaryOp(o), s, env, mode) is Some <==> s.len() > 0 && s[0] is BitVector
            && all_of_width(s[0]->BitVector_0.width, s),
        op_result(Op::BvNaryOp(o), s, env, mode) is Some ==> op_result(
            Op::BvNaryOp(o),
            s,
            env,
            mode,
        )->0 is BitVector && op_result(Op::BvNaryOp(o), s, env, mode)->0->BitVector_0.width
            == s[0]->BitVector_0.width,
    decreases s.len(),
{
    if s.len() > 1 {
        let rest = s.drop_last();
        law_several_operands(o, rest, env, mode);
        let w = s[0]->BitVector_0.width;
        assert(rest[0] == s[0]);
        if s[0] is BitVector && all_of_width(w, s) {
            assert forall|i: int| 0 <= i < rest.len() implies (#[trigger] rest[i]) is BitVector
                && rest[i]->BitVector_0.width == w by {
                assert(rest[i] == s[i]);
            }
            assert(s[s.len() - 1] is BitVector && s[s.len() - 1]->BitVector_0.width == w);
        }
        if op_result(Op::BvNaryOp(o), s, env, mode) is Some {
            assert forall|i: int| 0 <= i < s.len() implies (#[trigger] s[i]) is BitVector
                && s[i]->BitVector_0.width == w by {
                if i < s.len() - 1 {
                    assert(rest[i] is BitVector);
                }
            }
        }
    }
}

/// One bit-vector is its own sum, product and so on. A further one is added to the sum or
/// multiplies the product, modulo `2^w`, or is combined digit by digit, however many came before.
pub proof fn law_further_operand(
    o: BvNaryOp,
    s: Seq<ValueView>,
    v: BvView,
    x: BvView,
    r: BvView,
    j: nat,
    env: Map<Seq<char>, ValueView>,
    mode: FieldToBv,
)
    requires
        op_result(Op::BvNaryOp(o), s, env, mode) == Some(ValueView::BitVector(v)),
        op_result(Op::BvNaryOp(o), s.push(ValueView::BitVector(x)), env, mode) == Some(
            ValueView::BitVector(r),
        ),
    ensures
        op_result(Op::BvNaryOp(o), seq![ValueView::BitVector(x)], env, mode) == Some(
            ValueView::BitVector(x),
        ),
        r.width == v.width,
        o == BvNaryOp::Add ==> r.uint == (v.uint + x.uint) % pow2(v.width),
        o == BvNaryOp::Mul ==> r.uint == (v.uint * x.uint) % pow2(v.width),
        o == BvNaryOp::And ==> bit(r.uint, j) == (bit(v.uint, j) && bit(x.uint, j)),
        o == BvNaryOp::Or ==> bit(r.uint, j) == (bit(v.uint, j) || bit(x.uint, j)),
        o == BvNaryOp::Xor ==> bit(r.uint, j) == (bit(v.uint, j) != bit(x.uint, j)),
{
    assert(s.push(ValueView::BitVector(x)).drop_last() =~= s);
    lemma_pow2_pos(v.width);
    lemma_bitwise_digits(BitOp::And, v.uint, x.uint, j);
    lemma_bitwise_digits(BitOp::Or, v.uint, x.uint, j);
    lemma_bitwise_digits(BitOp::Xor, v.uint, x.uint, j);
}

/// Digit-wise operations depend neither on grouping nor on order.
proof fn lemma_bitwise_groups(op: BitOp, a: nat, b: nat, c: nat)
    ensures
        bitwise(op, bitwise(op, a, b), c) == bitwise(op, a, bitwise(op, b, c)),
        bitwise(op, a, b) == bitwise(op, b, a),
{
    let (l, r) = (bitwise(op, bitwise(op, a, b), c), bitwise(op, a, bitwise(op, b, c)));
    assert forall|i: nat| #[trigger] bit(l, i) == bit(r, i) by {
        lemma_bitwise_digits(op, a, b, i);
        lemma_bitwise_digits(op, b, c, i);
        lemma_bitwise_digits(op, bitwise(op, a, b), c, i);
        lemma_bitwise_digits(op, a, bitwise(op, b, c), i);
    }
    law_digits_tell_numbers(l, r);
    assert forall|i: nat| #[trigger] bit(bitwise(op, a, b), i) == bit(bitwise(op, b, a), i) by {
        lemma_bitwise_digits(op, a, b, i);
        lemma_bitwise_digits(op, b, a, i);
    }
    law_digits_tell_numbers(bitwise(op, a, b), bitwise(op, b, a));
}

/// What two lists one after the other give comes from what each of them gives.
proof fn lemma_lists_of_bits(o: BvNaryOp, s: Seq<ValueView>, t: Seq<ValueView>)
    requires
        bv_nary(o, s) is Some,
        bv_nary(o, t) is Some,
        bv_nary(o, s)->0.width == bv_nary(o, t)->0.width,
    ensures
        t.len() > 0,
        bv_nary(o, s + t) == bv_nary(
            o,
            seq![ValueView::BitVector(bv_nary(o, s)->0), ValueView::BitVector(bv_nary(o, t)->0)],
        ),
    decreases t.len(),
{
    assert((s + t).drop_last() =~= s + t.drop_last());
    assert((s + t).last() == t.last());
    let (x, y) = (ValueView::BitVector(bv_nary(o, s)->0), ValueView::BitVector(bv_nary(o, t)->0));
    assert(seq![x, y].drop_last() =~= seq![x]);
    assert(bv_nary(o, seq![x]) == Some(x->BitVector_0));
    if t.len() == 1 {
        assert(s + t.drop_last() =~= s);
    } else {
        lemma_lists_of_bits(o, s, t.drop_last());
        let z = ValueView::BitVector(bv_nary(o, t.drop_last())->0);
        assert(seq![x, z].drop_last() =~= seq![x]);
        let p = pow2(x->BitVector_0.width) as int;
        lemma_pow2_pos(x->BitVector_0.width);
        let (an, bn) = (x->BitVector_0.uint, z->BitVector_0.uint);
        let cn = t.last()->BitVector_0.uint;
        let (a, b, c) = (an as int, bn as int, cn as int);
        match o {
            BvNaryOp::Add => {
                lemma_mod_bound(a + b, p);
                lemma_mod_bound(b + c, p);
                lemma_add_mod_noop_right(c, a + b, p);
                lemma_add_mod_noop_right(a, b + c, p);
            },
            BvNaryOp::Mul => {
                lemma_mod_bound(a * b, p);
                lemma_mod_bound(b * c, p);
                lemma_mul_mod_noop_left(a * b, c, p);
                lemma_mul_mod_noop_right(a, b * c, p);
                lemma_mul_is_associative(a, b, c);
            },
            BvNaryOp::Or => {
                lemma_bitwise_groups(BitOp::Or, an, bn, cn);
            },
            BvNaryOp::And => {
                lemma_bitwise_groups(BitOp::And, an, bn, cn);
            },
            BvNaryOp::Xor => {
                lemma_bitwise_groups(BitOp::Xor, an, bn, cn);
            },
        }
    }
}

/// Two bit-vectors give the same in either order.
proof fn lemma_two_operands(o: BvNaryOp, x: BvView, y: BvView)
    requires
        x.width == y.width,
    ensures
        bv_nary(o, seq![ValueView::BitVector(x), ValueView::BitVector(y)]) == bv_nary(
            o,
            seq![ValueView::BitVector(y), ValueView::BitVector(x)],
        ),
{
    let (u, v) = (ValueView::BitVector(x), ValueView::BitVector(y));
    assert(seq![u, v].drop_last() =~= seq![u]);
    assert(seq![v, u].drop_last() =~= seq![v]);
    assert(bv_nary(o, seq![u]) == Some(x));
    assert(bv_nary(o, seq![v]) == Some(y));
    lemma_mul_is_commutative(x.uint as int, y.uint as int);
    lemma_bitwise_groups(BitOp::And, x.uint, y.uint, 0);
    lemma_bitwise_groups(BitOp::Or, x.uint, y.uint, 0);
    lemma_bitwise_groups(BitOp::Xor, x.uint, y.uint, 0);
}

/// What several bit-vectors give depends neither on how they are grouped nor on the order of two
/// groups: that of two lists one after the other is that of the two results.
#[verifier::rlimit(40)]
pub proof fn law_operands_in_groups(
    o: BvNaryOp,
    s: Seq<ValueView>,
    t: Seq<ValueView>,
    w: nat,
    env: Map<Seq<char>, ValueView>,
    mode: FieldToBv,
)
    requires
        s.len() > 0,
        t.len() > 0,
        all_of_width(w, s),
        all_of_width(w, t),
    ensures
        op_result(Op::BvNaryOp(o), s + t, env, mode) == op_result(
            Op::BvNaryOp(o),
            seq![
                op_result(Op::BvNaryOp(o), s, env, mode)->0,
                op_result(Op::BvNaryOp(o), t, env, mode)->0,
            ],
            env,
            mode,
        ),
        op_result(Op::BvNaryOp(o), s + t, env, mode) == op_result(
            Op::BvNaryOp(o),
            t + s,
            env,
            mode,
        ),
{
    assert(s[0] is BitVector && t[0] is BitVector);
    law_several_operands(o, s, env, mode);
    law_several_operands(o, t, env, mode);
    lemma_lists_of_bits(o, s, t);
    lemma_lists_of_bits(o, t, s);
    lemma_two_operands(o, bv_nary(o, s)->0, bv_nary(o, t)->0);
}

/// One bit-vector laid side by side with nothing is itself. With a further one, its digits come
/// at the low end and the others above them. It is there where the width is a machine number.
pub proof fn law_side_by_side(
    s: Seq<ValueView>,
    v: BvView,
    x: BvView,
    j: nat,
    env: Map<Seq<char>, ValueView>,
    mode: FieldToBv,
)
    requires
        s.len() > 0,
        op_result(Op::BvConcat, s, env, mode) == Some(ValueView::BitVector(v)),
        x.uint < pow2(x.width),
    ensures
        op_result(Op::BvConcat, seq![ValueView::BitVector(x)], env, mode) == Some(
            ValueView::BitVector(x),
        ),
        op_result(Op::BvConcat, s.push(ValueView::BitVector(x)), env, mode) is Some <==> v.width
            + x.width <= usize::MAX,
        v.width + x.width <= usize::MAX ==> op_result(
            Op::BvConcat,
            s.push(ValueView::BitVector(x)),
            env,
            mode,
        )->0 is BitVector && op_result(
            Op::BvConcat,
            s.push(ValueView::BitVector(x)),
            env,
            mode,
        )->0->BitVector_0.width == v.width + x.width && bit(
            op_result(
                Op::BvConcat,
                s.push(ValueView::BitVector(x)),
                env,
                mode,
            )->0->BitVector_0.uint,
            j,
        ) == (if j < x.width {
            bit(x.uint, j)
        } else {
            bit(v.uint, (j - x.width) as nat)
        }),
{
    let t = s.push(ValueView::BitVector(x));
    assert(t.drop_last() =~= s);
    let p = pow2(x.width) as int;
    lemma_pow2_pos(x.width);
    let n = v.uint * pow2(x.width) + x.uint;
    lemma_fundamental_div_mod_converse(n as int, p, v.uint as int, x.uint as int);
    if j < x.width {
        lemma_digits_of_residue(n, x.width, j);
    } else {
        lemma_digits_of_quotient(n, x.width, (j - x.width) as nat);
        assert((j - x.width) as nat + x.width == j);
    }
}

/// Only bit-vectors, one or more, can be laid side by side.
pub proof fn law_side_by_side_operands(
    s: Seq<ValueView>,
    x: ValueView,
    env: Map<Seq<char>, ValueView>,
    mode: FieldToBv,
)
    ensures
        op_result(Op::BvConcat, Seq::empty(), env, mode) is None,
        op_result(Op::BvConcat, s.push(x), env, mode) is Some ==> x is BitVector && (s.len() > 0
            ==> op_result(Op::BvConcat, s, env, mode) is Some && op_result(
            Op::BvConcat,
            s,
            env,
            mode,
        )->0 is BitVector),
{
    assert(s.push(x).drop_last() =~= s);
}

/// What is cut out from the place `l` to the place `h` has the digits of those places, and is
/// there where they lie within the width.
pub proof fn law_cut(
    h: usize,
    l: usize,
    args: Seq<ValueView>,
    a: BvView,
    j: nat,
    env: Map<Seq<char>, ValueView>,
    mode: FieldToBv,
)
    requires
        args.len() >= 1,
        args[0] == ValueView::BitVector(a),
    ensures
        op_result(Op::BvExtract(h, l), args, env, mode) is Some <==> l <= h < a.width,
        l <= h < a.width ==> op_result(Op::BvExtract(h, l), args, env, mode)->0 is BitVector
            && op_result(Op::BvExtract(h, l), args, env, mode)->0->BitVector_0.width == h - l + 1
            && op_result(Op::BvExtract(h, l), args, env, mode)->0->BitVector_0.uint < pow2(
            (h - l + 1) as nat,
        ) && bit(op_result(Op::BvExtract(h, l), args, env, mode)->0->BitVector_0.uint, j) == (l + j
            <= h && bit(a.uint, l as nat + j)),
{
    if l <= h < a.width {
        let w = (h - l + 1) as nat;
        let n = a.uint / pow2(l as nat);
        lemma_pow2_pos(w);
        lemma_mod_bound(n as int, pow2(w) as int);
        lemma_digits_of_residue(n, w, j);
        lemma_digits_of_quotient(a.uint, l as nat, j);
    }
}

/// `2^n - 1` has its first `n` digits set.
proof fn lemma_digits_of_ones(n: nat, i: nat)
    ensures
        bit((pow2(n) - 1) as nat, i) == (i < n),
{
    lemma_pow2_pos(n);
    if i < n {
        lemma_digits_of_zero(i);
        lemma_digits_of_complement(0, n, i);
    } else {
        lemma_digits_above((pow2(n) - 1) as nat, n, i);
    }
}

/// Widening by zeros keeps the number. Widening by the sign keeps the digits, and sets as many
/// above them as come where the top digit is set; there the width and the number of new digits
/// count by their low 32 bits. Both are there where the new width is a machine number.
pub proof fn law_widening(
    n: usize,
    args: Seq<ValueView>,
    a: BvView,
    j: nat,
    env: Map<Seq<char>, ValueView>,
    mode: FieldToBv,
)
    requires
        args.len() >= 1,
        args[0] == ValueView::BitVector(a),
    ensures
        op_result(Op::BvUext(n), args, env, mode) is Some <==> a.width + n <= usize::MAX,
        a.width + n <= usize::MAX ==> op_result(Op::BvUext(n), args, env, mode)->0 is BitVector
            && op_result(Op::BvUext(n), args, env, mode)->0->BitVector_0.width == a.width + n
            && op_result(Op::BvUext(n), args, env, mode)->0->BitVector_0.uint == a.uint,
        op_result(Op::BvSext(n), args, env, mode) is Some <==> a.width + n <= usize::MAX && a.width
            % 0x1_0000_0000 != 0,
        op_result(Op::BvSext(n), args, env, mode) is Some ==> op_result(
            Op::BvSext(n),
            args,
            env,
            mode,
        )->0 is BitVector && op_result(Op::BvSext(n), args, env, mode)->0->BitVector_0.width
            == a.width + n && bit(
            op_result(Op::BvSext(n), args, env, mode)->0->BitVector_0.uint,
            j,
        ) == (bit(a.uint, j) || (bit(a.uint, (a.width % 0x1_0000_0000 - 1) as nat) && a.width
            % 0x1_0000_0000 <= j < a.width % 0x1_0000_0000 + n as nat % 0x1_0000_0000)),
{
    if op_result(Op::BvSext(n), args, env, mode) is Some {
        let w = a.width % 0x1_0000_0000;
        let k = n as nat % 0x1_0000_0000;
        let ones = (pow2(k) - 1) as nat;
        lemma_pow2_pos(k);
        lemma_bitwise_digits(BitOp::Or, a.uint, ones * pow2(w), j);
        lemma_digits_of_multiple(ones, w, j);
        if w <= j {
            lemma_digits_of_ones(k, (j - w) as nat);
        }
    }
}

/// The signed value of a bit-vector differs from its number by `2^w` or not at all, and lies on
/// both sides of zero, as far as half of that.
pub proof fn law_signed_values(a: BvView)
    requires
        a.uint < pow2(a.width),
    ensures
        a.sint() == a.uint || a.sint() == a.uint - pow2(a.width),
        a.width == 0 ==> a.sint() == 0,
        a.width > 0 ==> -pow2((a.width - 1) as nat) <= a.sint() < pow2((a.width - 1) as nat),
{
    lemma_pow2_32();
    if a.width > 0 {
        lemma_pow2_unfold(a.width);
    }
}

/// The unsigned comparisons are the order of the numbers, and the signed ones that of the signed
/// values: the lesser one is that from which a positive difference leads to the other. They are
/// there for two bit-vectors.
pub proof fn law_order_of_bits(
    args: Seq<ValueView>,
    a: BvView,
    b: BvView,
    env: Map<Seq<char>, ValueView>,
    mode: FieldToBv,
)
    requires
        args.len() >= 2,
        args[0] == ValueView::BitVector(a),
        args[1] == ValueView::BitVector(b),
    ensures
        op_result(Op::BvBinPred(BvBinPred::Ult), args, env, mode) == Some(
            ValueView::Bool(b.uint - a.uint > 0),
        ),
        op_result(Op::BvBinPred(BvBinPred::Ugt), args, env, mode) == Some(
            ValueView::Bool(a.uint - b.uint > 0),
        ),
        op_result(Op::BvBinPred(BvBinPred::Ule), args, env, mode) == Some(
            ValueView::Bool(!(a.uint - b.uint > 0)),
        ),
        op_result(Op::BvBinPred(BvBinPred::Uge), args, env, mode) == Some(
            ValueView::Bool(!(b.uint - a.uint > 0)),
        ),
        op_result(Op::BvBinPred(BvBinPred::Slt), args, env, mode) == Some(
            ValueView::Bool(b.sint() - a.sint() > 0),
        ),
        op_result(Op::BvBinPred(BvBinPred::Sgt), args, env, mode) == Some(
            ValueView::Bool(a.sint() - b.sint() > 0),
        ),
        op_result(Op::BvBinPred(BvBinPred::Sle), args, env, mode) == Some(
            ValueView::Bool(!(a.sint() - b.sint() > 0)),
        ),
        op_result(Op::BvBinPred(BvBinPred::Sge), args, env, mode) == Some(
            ValueView::Bool(!(b.sint() - a.sint() > 0)),
        ),
{
}

/// Comparisons need two bit-vectors.
pub proof fn law_comparison_operands(
    o: BvBinPred,
    args: Seq<ValueView>,
    env: Map<Seq<char>, ValueView>,
    mode: FieldToBv,
)
    ensures
        op_result(Op::BvBinPred(o), args, env, mode) is Some <==> args.len() >= 2
            && args[0] is BitVector && args[1] is BitVector,
{
}

/// The signed order is the unsigned one after half of all numbers is added on both sides, which
/// turns the top digit round.
#[verifier::rlimit(40)]
pub proof fn law_signed_order_is_shifted(
    a: BvView,
    b: BvView,
    env: Map<Seq<char>, ValueView>,
    mode: FieldToBv,
)
    requires
        a.width == b.width,
        a.width > 0,
        a.uint < pow2(a.width),
        b.uint < pow2(b.width),
    ensures
        op_result(
            Op::BvBinPred(BvBinPred::Slt),
            seq![ValueView::BitVector(a), ValueView::BitVector(b)],
            env,
            mode,
        ) == op_result(
            Op::BvBinPred(BvBinPred::Ult),
            seq![
                op_result(
                    Op::BvNaryOp(BvNaryOp::Add),
                    seq![
                        ValueView::BitVector(a),
                        ValueView::BitVector(
                            BvView { uint: pow2((a.width - 1) as nat), width: a.width },
                        ),
                    ],
                    env,
                    mode,
                )->0,
                op_result(
                    Op::BvNaryOp(BvNaryOp::Add),
                    seq![
                        ValueView::BitVector(b),
                        ValueView::BitVector(
                            BvView { uint: pow2((a.width - 1) as nat), width: a.width },
                        ),
                    ],
                    env,
                    mode,
                )->0,
            ],
            env,
            mode,
        ),
{
    let w = a.width;
    let (p, h) = (pow2(w), pow2((w - 1) as nat));
    lemma_pow2_unfold(w);
    lemma_pow2_pos((w - 1) as nat);
    let half = ValueView::BitVector(BvView { uint: h, width: w });
    let (x, y) = (ValueView::BitVector(a), ValueView::BitVector(b));
    assert(seq![x, half].drop_last() =~= seq![x]);
    assert(seq![y, half].drop_last() =~= seq![y]);
    assert(bv_nary(BvNaryOp::Add, seq![x]) == Some(a));
    assert(bv_nary(BvNaryOp::Add, seq![y]) == Some(b));
    lemma_half_turn(a.uint, w);
    lemma_half_turn(b.uint, w);
}

/// Half of all numbers added to a number, modulo all of them.
proof fn lemma_half_turn(n: nat, w: nat)
    requires
        w > 0,
        n < pow2(w),
    ensures
        (n + pow2((w - 1) as nat)) % pow2(w) == (if n < pow2((w - 1) as nat) {
            (n + pow2((w - 1) as nat)) as int
        } else {
            n - pow2((w - 1) as nat)
        }),
{
    let (p, h) = (pow2(w) as int, pow2((w - 1) as nat) as int);
    lemma_pow2_unfold(w);
    lemma_pow2_pos((w - 1) as nat);
    if n < h {
        lemma_small_mod((n + h) as nat, pow2(w));
    } else {
        lemma_fundamental_div_mod_converse(n + h, p, 1, n - h);
    }
}

} // verus!
