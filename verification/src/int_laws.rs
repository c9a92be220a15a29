//! What integer operators give, told by how their values hang together.

use crate::bits::{lemma_bit_length, lemma_bit_length_le};
use crate::modular::{is_inverse, lemma_trunc_parts, magnitude, mod_inverse};
use crate::op::{FieldToBv, IntBinOp, IntBinPred, IntNaryOp, IntUnOp, Op};
use crate::semantics::{int_nary, op_result};
use crate::value::ValueView;
use vstd::arithmetic::div_mod::{
    lemma_add_mod_noop, lemma_fundamental_div_mod, lemma_mod_bound, lemma_mod_multiples_vanish,
    lemma_mul_mod_noop_right, lemma_small_mod,
};
use vstd::arithmetic::mul::{lemma_mul_is_associative, lemma_mul_is_commutative};
use vstd::arithmetic::power2::pow2;
use vstd::prelude::*;

verus! {

/// Whether all values are integers.
pub open spec fn all_integers(s: Seq<ValueView>) -> bool {
    forall|i: int| 0 <= i < s.len() ==> (#[trigger] s[i]) is Int
}

/// Sums and products are there for integers, one or more, and for nothing else.
pub proof fn law_integer_sums_are_there(
    o: IntNaryOp,
    s: Seq<ValueView>,
    env: Map<Seq<char>, ValueView>,
    mode: FieldToBv,
)
    ensures
        op_result(Op::IntNaryOp(o), s, env, mode) is Some <==> s.len() > 0 && all_integers(s),
        op_result(Op::IntNaryOp(o), s, env, mode) is Some ==> op_result(
            Op::IntNaryOp(o),
            s,
            env,
            mode,
        )->0 is Int,
    decreases s.len(),
{
    if s.len() > 1 {
        let rest = s.drop_last();
        law_integer_sums_are_there(o, rest, env, mode);
        if all_integers(s) {
            assert forall|i: int| 0 <= i < rest.len() implies (#[trigger] rest[i]) is Int by {
                assert(rest[i] == s[i]);
            }
            assert(s[s.len() - 1] is Int);
        }
        if op_result(Op::IntNaryOp(o), s, env, mode) is Some {
            assert forall|i: int| 0 <= i < s.len() implies (#[trigger] s[i]) is Int by {
                if i < s.len() - 1 {
                    assert(rest[i] is Int);
                }
            }
        }
    } else if s.len() == 1 {
        if all_integers(s) {
            assert(s[0] is Int);
        }
    }
}

/// One integer is its own sum and product. A further summand adds itself to the sum, and a
/// further factor multiplies the product, however many came before.
pub proof fn law_integer_sums_grow(
    s: Seq<ValueView>,
    x: int,
    sum: int,
    product: int,
    env: Map<Seq<char>, ValueView>,
    mode: FieldToBv,
)
    requires
        op_result(Op::IntNaryOp(IntNaryOp::Add), s, env, mode) == Some(ValueView::Int(sum)),
        op_result(Op::IntNaryOp(IntNaryOp::Mul), s, env, mode) == Some(ValueView::Int(product)),
    ensures
        op_result(Op::IntNaryOp(IntNaryOp::Add), seq![ValueView::Int(x)], env, mode) == Some(
            ValueView::Int(x),
        ),
        op_result(Op::IntNaryOp(IntNaryOp::Mul), seq![ValueView::Int(x)], env, mode) == Some(
            ValueView::Int(x),
        ),
        op_result(
            Op::IntNaryOp(IntNaryOp::Add),
            s.push(ValueView::Int(x)),
            env,
            mode,
        ) == Some(ValueView::Int(sum + x)),
        op_result(
            Op::IntNaryOp(IntNaryOp::Mul),
            s.push(ValueView::Int(x)),
            env,
            mode,
        ) == Some(ValueView::Int(product * x)),
{
    assert(s.push(ValueView::Int(x)).drop_last() =~= s);
}

/// The sum of two lists one after the other is the sum of their sums, and so is the product.
proof fn lemma_integer_lists(o: IntNaryOp, s: Seq<ValueView>, t: Seq<ValueView>)
    requires
        s.len() > 0,
        t.len() > 0,
    ensures
        int_nary(o, s + t) == match (int_nary(o, s), int_nary(o, t)) {
            (Some(a), Some(b)) => Some(
                match o {
                    IntNaryOp::Add => a + b,
                    IntNaryOp::Mul => a * b,
                },
            ),
            _ => None,
        },
    decreases t.len(),
{
    assert((s + t).drop_last() =~= s + t.drop_last());
    assert((s + t).last() == t.last());
    if t.len() == 1 {
        assert(s + t.drop_last() =~= s);
    } else {
        lemma_integer_lists(o, s, t.drop_last());
        match (int_nary(o, s), int_nary(o, t.drop_last()), t.last()) {
            (Some(a), Some(b), ValueView::Int(c)) => {
                lemma_mul_is_associative(a, b, c);
            },
            _ => {},
        }
    }
}

/// Sums and products depend neither on how their parts are grouped nor on the order of two
/// groups: that of two lists one after the other is that of the two results.
#[verifier::rlimit(40)]
pub proof fn law_integer_sums_in_groups(
    o: IntNaryOp,
    s: Seq<ValueView>,
    t: Seq<ValueView>,
    env: Map<Seq<char>, ValueView>,
    mode: FieldToBv,
)
    requires
        op_result(Op::IntNaryOp(o), s, env, mode) is Some,
        op_result(Op::IntNaryOp(o), t, env, mode) is Some,
    ensures
        op_result(Op::IntNaryOp(o), s + t, env, mode) == op_result(
            Op::IntNaryOp(o),
            seq![
                op_result(Op::IntNaryOp(o), s, env, mode)->0,
                op_result(Op::IntNaryOp(o), t, env, mode)->0,
            ],
            env,
            mode,
        ),
        op_result(Op::IntNaryOp(o), s + t, env, mode) == op_result(
            Op::IntNaryOp(o),
            t + s,
            env,
            mode,
        ),
{
    lemma_integer_lists(o, s, t);
    lemma_integer_lists(o, t, s);
    let (a, b) = (int_nary(o, s)->0, int_nary(o, t)->0);
    lemma_mul_is_commutative(a, b);
    let two = seq![ValueView::Int(a), ValueView::Int(b)];
    assert(two.drop_last() =~= seq![ValueView::Int(a)]);
    assert(int_nary(o, seq![ValueView::Int(a)]) == Some(a));
}

/// Comparisons are the order of the integers: the lesser one is that from which a positive
/// difference leads to the other. They are there exactly for two integers; what comes after
/// them counts for nothing.
pub proof fn law_integer_order(
    args: Seq<ValueView>,
    a: int,
    b: int,
    env: Map<Seq<char>, ValueView>,
    mode: FieldToBv,
)
    requires
        args.len() >= 2,
        args[0] == ValueView::Int(a),
        args[1] == ValueView::Int(b),
    ensures
        op_result(Op::IntBinPred(IntBinPred::Lt), args, env, mode) == Some(
            ValueView::Bool(b - a > 0),
        ),
        op_result(Op::IntBinPred(IntBinPred::Gt), args, env, mode) == Some(
            ValueView::Bool(a - b > 0),
        ),
        op_result(Op::IntBinPred(IntBinPred::Le), args, env, mode) == Some(
            ValueView::Bool(!(a - b > 0)),
        ),
        op_result(Op::IntBinPred(IntBinPred::Ge), args, env, mode) == Some(
            ValueView::Bool(!(b - a > 0)),
        ),
{
}

/// A sum with a positive number is greater than what it was added to, a sum with a negative one
/// is less, and the order is the same after the same number is added on both sides.
#[verifier::rlimit(40)]
pub proof fn law_order_of_sums(
    a: int,
    b: int,
    d: int,
    env: Map<Seq<char>, ValueView>,
    mode: FieldToBv,
)
    ensures
        op_result(
            Op::IntBinPred(IntBinPred::Lt),
            seq![
                ValueView::Int(a),
                op_result(
                    Op::IntNaryOp(IntNaryOp::Add),
                    seq![ValueView::Int(a), ValueView::Int(d)],
                    env,
                    mode,
                )->0,
            ],
            env,
            mode,
        ) == Some(ValueView::Bool(d > 0)),
        op_result(
            Op::IntBinPred(IntBinPred::Gt),
            seq![
                ValueView::Int(a),
                op_result(
                    Op::IntNaryOp(IntNaryOp::Add),
                    seq![ValueView::Int(a), ValueView::Int(d)],
                    env,
                    mode,
                )->0,
            ],
            env,
            mode,
        ) == Some(ValueView::Bool(d < 0)),
        op_result(
            Op::IntBinPred(IntBinPred::Lt),
            seq![
                op_result(
                    Op::IntNaryOp(IntNaryOp::Add),
                    seq![ValueView::Int(a), ValueView::Int(d)],
                    env,
                    mode,
                )->0,
                op_result(
                    Op::IntNaryOp(IntNaryOp::Add),
                    seq![ValueView::Int(b), ValueView::Int(d)],
                    env,
                    mode,
                )->0,
            ],
            env,
            mode,
        ) == op_result(
            Op::IntBinPred(IntBinPred::Lt),
            seq![ValueView::Int(a), ValueView::Int(b)],
            env,
            mode,
        ),
{
    let o = IntNaryOp::Add;
    let s = seq![ValueView::Int(a), ValueView::Int(d)];
    let t = seq![ValueView::Int(b), ValueView::Int(d)];
    assert(s.drop_last() =~= seq![ValueView::Int(a)]);
    assert(t.drop_last() =~= seq![ValueView::Int(b)]);
    assert(int_nary(o, seq![ValueView::Int(a)]) == Some(a));
    assert(int_nary(o, seq![ValueView::Int(b)]) == Some(b));
}

/// The order of integers is transitive, and of two integers exactly one of less, equal and
/// greater holds; the other comparisons are the opposites of these.
pub proof fn law_integer_order_is_total(
    a: int,
    b: int,
    c: int,
    env: Map<Seq<char>, ValueView>,
    mode: FieldToBv,
)
    ensures
        op_result(
            Op::IntBinPred(IntBinPred::Lt),
            seq![ValueView::Int(a), ValueView::Int(b)],
            env,
            mode,
        ) == Some(ValueView::Bool(true)) && op_result(
            Op::IntBinPred(IntBinPred::Lt),
            seq![ValueView::Int(b), ValueView::Int(c)],
            env,
            mode,
        ) == Some(ValueView::Bool(true)) ==> op_result(
            Op::IntBinPred(IntBinPred::Lt),
            seq![ValueView::Int(a), ValueView::Int(c)],
            env,
            mode,
        ) == Some(ValueView::Bool(true)),
        op_result(
            Op::IntBinPred(IntBinPred::Gt),
            seq![ValueView::Int(a), ValueView::Int(b)],
            env,
            mode,
        ) == op_result(
            Op::IntBinPred(IntBinPred::Lt),
            seq![ValueView::Int(b), ValueView::Int(a)],
            env,
            mode,
        ),
        a != b ==> op_result(
            Op::IntBinPred(IntBinPred::Lt),
            seq![ValueView::Int(a), ValueView::Int(b)],
            env,
            mode,
        ) != op_result(
            Op::IntBinPred(IntBinPred::Lt),
            seq![ValueView::Int(b), ValueView::Int(a)],
            env,
            mode,
        ),
        op_result(
            Op::IntBinPred(IntBinPred::Lt),
            seq![ValueView::Int(a), ValueView::Int(a)],
            env,
            mode,
        ) == Some(ValueView::Bool(false)),
        op_result(
            Op::IntBinPred(IntBinPred::Le),
            seq![ValueView::Int(a), ValueView::Int(b)],
            env,
            mode,
        ) != op_result(
            Op::IntBinPred(IntBinPred::Gt),
            seq![ValueView::Int(a), ValueView::Int(b)],
            env,
            mode,
        ),
        op_result(
            Op::IntBinPred(IntBinPred::Ge),
            seq![ValueView::Int(a), ValueView::Int(b)],
            env,
            mode,
        ) != op_result(
            Op::IntBinPred(IntBinPred::Lt),
            seq![ValueView::Int(a), ValueView::Int(b)],
            env,
            mode,
        ),
{
}

/// Comparisons and differences are there exactly where the first two arguments are integers;
/// quotients and remainders where besides the second one is not zero.
pub proof fn law_integer_operands(
    p: IntBinPred,
    args: Seq<ValueView>,
    env: Map<Seq<char>, ValueView>,
    mode: FieldToBv,
)
    ensures
        op_result(Op::IntBinPred(p), args, env, mode) is Some <==> args.len() >= 2 && args[0] is Int
            && args[1] is Int,
        op_result(Op::IntBinOp(IntBinOp::Sub), args, env, mode) is Some <==> args.len() >= 2
            && args[0] is Int && args[1] is Int,
        op_result(Op::IntBinOp(IntBinOp::Div), args, env, mode) is Some <==> args.len() >= 2
            && args[0] is Int && args[1] is Int && args[1]->Int_0 != 0,
        op_result(Op::IntBinOp(IntBinOp::Rem), args, env, mode) is Some <==> args.len() >= 2
            && args[0] is Int && args[1] is Int && args[1]->Int_0 != 0,
        op_result(Op::IntBinOp(IntBinOp::ModInv), args, env, mode) is Some ==> args.len() >= 2
            && args[0] is Int && args[1] is Int && args[1]->Int_0 != 0,
        op_result(Op::IntUnOp(IntUnOp::Neg), args, env, mode) is Some <==> args.len() >= 1
            && args[0] is Int,
{
    if op_result(Op::IntBinOp(IntBinOp::ModInv), args, env, mode) is Some {
        let (a, b) = (args[0]->Int_0, args[1]->Int_0);
        let w = mod_inverse(a, magnitude(b) as int)->0;
        assert(is_inverse(a, magnitude(b) as int, w));
    }
}

/// A difference added to what was taken away gives back what it was taken from, and an integer
/// and its opposite add up to zero.
pub proof fn law_integer_differences(
    args: Seq<ValueView>,
    a: int,
    b: int,
    env: Map<Seq<char>, ValueView>,
    mode: FieldToBv,
)
    requires
        args.len() >= 2,
        args[0] == ValueView::Int(a),
        args[1] == ValueView::Int(b),
    ensures
        op_result(
            Op::IntNaryOp(IntNaryOp::Add),
            seq![op_result(Op::IntBinOp(IntBinOp::Sub), args, env, mode)->0, ValueView::Int(b)],
            env,
            mode,
        ) == Some(ValueView::Int(a)),
        op_result(
            Op::IntNaryOp(IntNaryOp::Add),
            seq![op_result(Op::IntUnOp(IntUnOp::Neg), args, env, mode)->0, ValueView::Int(a)],
            env,
            mode,
        ) == Some(ValueView::Int(0)),
{
    let o = IntNaryOp::Add;
    let s = seq![ValueView::Int(a - b), ValueView::Int(b)];
    let t = seq![ValueView::Int(-a), ValueView::Int(a)];
    assert(s.drop_last() =~= seq![ValueView::Int(a - b)]);
    assert(t.drop_last() =~= seq![ValueView::Int(-a)]);
    assert(int_nary(o, seq![ValueView::Int(a - b)]) == Some(a - b));
    assert(int_nary(o, seq![ValueView::Int(-a)]) == Some(-a));
}

/// The quotient `q` and the remainder `r` of `a` by `b`: `a` is `b q + r`, and `r` lies between
/// zero and `b` or its opposite, on the side of zero where `a` is.
pub proof fn law_integer_division(
    args: Seq<ValueView>,
    a: int,
    b: int,
    q: int,
    r: int,
    env: Map<Seq<char>, ValueView>,
    mode: FieldToBv,
)
    requires
        args.len() >= 2,
        args[0] == ValueView::Int(a),
        args[1] == ValueView::Int(b),
        op_result(Op::IntBinOp(IntBinOp::Div), args, env, mode) == Some(ValueView::Int(q)),
        op_result(Op::IntBinOp(IntBinOp::Rem), args, env, mode) == Some(ValueView::Int(r)),
    ensures
        a == b * q + r,
        a >= 0 ==> r >= 0,
        a <= 0 ==> r <= 0,
        b > 0 ==> -b < r < b,
        b < 0 ==> b < r < -b,
{
    lemma_trunc_parts(a, b);
    lemma_mod_bound(magnitude(a) as int, magnitude(b) as int);
    if a == 0 {
        lemma_small_mod(0, magnitude(b));
    }
}

/// An inverse modulo `b` lies between zero and the magnitude of `b`, and its product with the
/// number is one more than a multiple of `b`. There is one wherever some product is.
pub proof fn law_integer_inverses(
    args: Seq<ValueView>,
    a: int,
    b: int,
    w: int,
    k: int,
    env: Map<Seq<char>, ValueView>,
    mode: FieldToBv,
)
    requires
        args.len() >= 2,
        args[0] == ValueView::Int(a),
        args[1] == ValueView::Int(b),
    ensures
        b != 0 && a * w == 1 + k * b ==> op_result(
            Op::IntBinOp(IntBinOp::ModInv),
            args,
            env,
            mode,
        ) is Some,
        op_result(Op::IntBinOp(IntBinOp::ModInv), args, env, mode) is Some ==> op_result(
            Op::IntBinOp(IntBinOp::ModInv),
            args,
            env,
            mode,
        )->0 is Int,
        op_result(Op::IntBinOp(IntBinOp::ModInv), args, env, mode) == Some(ValueView::Int(w))
            ==> 0 <= w && (b > 0 ==> w < b && (a * w - 1) % b == 0) && (b < 0 ==> w < -b && (a * w
            - 1) % -b == 0),
{
    let m = magnitude(b) as int;
    if b != 0 && a * w == 1 + k * b {
        let v = w % m;
        lemma_mod_bound(w, m);
        lemma_mul_mod_noop_right(a, w, m);
        let j = if b > 0 {
            k
        } else {
            -k
        };
        assert(k * b == m * j) by (nonlinear_arith)
            requires
                (b > 0 && m == b && j == k) || (b < 0 && m == -b && j == -k),
        ;
        lemma_mod_multiples_vanish(j, 1, m);
        assert(is_inverse(a, m, v));
    }
    if op_result(Op::IntBinOp(IntBinOp::ModInv), args, env, mode) == Some(ValueView::Int(w)) {
        assert(is_inverse(a, m, w));
        lemma_fundamental_div_mod(a * w, m);
        lemma_fundamental_div_mod(1, m);
        lemma_add_mod_noop(a * w, -1, m);
        lemma_add_mod_noop(1, -1, m);
        lemma_small_mod(0, m as nat);
        assert((a * w - 1) % m == (1int - 1) % m);
    }
}

/// The size of an integer is the least number of binary digits that its magnitude can be written
/// with, as a bit-vector of width 32. It is there where it fits that width.
pub proof fn law_size_of_an_integer(
    args: Seq<ValueView>,
    n: int,
    env: Map<Seq<char>, ValueView>,
    mode: FieldToBv,
)
    requires
        args.len() >= 1,
        args[0] == ValueView::Int(n),
    ensures
        op_result(Op::IntSize, args, env, mode) is Some <==> -pow2(0xffff_ffff) < n < pow2(
            0xffff_ffff,
        ),
        op_result(Op::IntSize, args, env, mode) is Some ==> op_result(
            Op::IntSize,
            args,
            env,
            mode,
        )->0 is BitVector && op_result(Op::IntSize, args, env, mode)->0->BitVector_0.width == 32
            && -pow2(op_result(Op::IntSize, args, env, mode)->0->BitVector_0.uint) < n < pow2(
            op_result(Op::IntSize, args, env, mode)->0->BitVector_0.uint,
        ),
        op_result(Op::IntSize, args, env, mode) is Some && n != 0 ==> op_result(
            Op::IntSize,
            args,
            env,
            mode,
        )->0->BitVector_0.uint > 0 && !(-pow2(
            (op_result(Op::IntSize, args, env, mode)->0->BitVector_0.uint - 1) as nat,
        ) < n < pow2((op_result(Op::IntSize, args, env, mode)->0->BitVector_0.uint - 1) as nat)),
        op_result(Op::IntSize, args, env, mode) is Some && n == 0 ==> op_result(
            Op::IntSize,
            args,
            env,
            mode,
        )->0->BitVector_0.uint == 0,
{
    lemma_bit_length(magnitude(n));
    lemma_bit_length_le(magnitude(n), 0xffff_ffff);
}

/// The size is there for integers and for nothing else.
pub proof fn law_size_takes_an_integer(
    args: Seq<ValueView>,
    env: Map<Seq<char>, ValueView>,
    mode: FieldToBv,
)
    ensures
        op_result(Op::IntSize, args, env, mode) is Some ==> args.len() >= 1 && args[0] is Int,
{
}

/// An integer becomes a bit-vector of that width and that number exactly where it is not
/// negative and has no more binary digits.
pub proof fn law_integer_as_bits(
    w: usize,
    args: Seq<ValueView>,
    env: Map<Seq<char>, ValueView>,
    mode: FieldToBv,
)
    ensures
        op_result(Op::IntToBv(w), args, env, mode) is Some <==> args.len() >= 1 && args[0] is Int
            && 0 <= args[0]->Int_0 < pow2(w as nat),
        op_result(Op::IntToBv(w), args, env, mode) is Some ==> op_result(
            Op::IntToBv(w),
            args,
            env,
            mode,
        )->0 is BitVector && op_result(Op::IntToBv(w), args, env, mode)->0->BitVector_0.uint
            == args[0]->Int_0 && op_result(Op::IntToBv(w), args, env, mode)->0->BitVector_0.width
            == w,
{
}

} // verus!
