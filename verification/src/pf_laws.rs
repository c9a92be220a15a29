//! What operators on field elements give, told by how their values hang together.

use crate::bits::lemma_bit_length_le;
use crate::bls_prime::lemma_bls12381_prime;
use crate::field::{field_recip, FieldT, FieldTView, FieldVView};
use crate::modular::{is_inverse, is_prime, mod_inverse};
use crate::op::{CallOp, FieldToBv, Op, PfNaryOp, PfUnOp};
use crate::semantics::{op_result, pf_nary};
use crate::value::ValueView;
use vstd::arithmetic::div_mod::{
    lemma_add_mod_noop, lemma_add_mod_noop_right, lemma_fundamental_div_mod, lemma_mod_bound,
    lemma_mod_multiples_vanish, lemma_mul_mod_noop_left, lemma_mul_mod_noop_right, lemma_small_mod,
};
use vstd::arithmetic::mul::{lemma_mul_is_associative, lemma_mul_is_commutative};
use vstd::arithmetic::power2::{lemma_pow2_pos, pow2};
use vstd::prelude::*;

verus! {

/// The integers modulo a number are as many as that number. The scalars of BLS12-381 are a prime
/// number of elements, `z^4 - z^2 + 1` for `z = 0xd201000000010000`.
pub proof fn law_moduli(m: nat, z: int)
    requires
        z == 0xd201000000010000int,
    ensures
        FieldTView::IntField(m).modulus() == m,
        FieldTView::FBls12381.modulus() == (z * z) * (z * z) - z * z + 1,
        is_prime(FieldTView::FBls12381.modulus() as int),
{
    lemma_bls12381_prime();
    assert(0xd201000000010000int * 0xd201000000010000int == 0xac45a4010001a4020000000100000000int);
    assert(0xac45a4010001a4020000000100000000int * 0xac45a4010001a4020000000100000000int
        - 0xac45a4010001a4020000000100000000int + 1
        == 0x73eda753299d7d483339d80809a1d80553bda402fffe5bfeffffffff00000001int);
}

/// Whether all values are elements of the field `f`.
pub open spec fn all_elements(f: FieldTView, s: Seq<ValueView>) -> bool {
    forall|i: int| 0 <= i < s.len() ==> (#[trigger] s[i]) is Field && s[i]->Field_0.ty == f
}

/// Sums and products are there for elements of one field, one or more, and for nothing else;
/// they are elements of that field.
pub proof fn law_field_sums_are_there(
    o: PfNaryOp,
    s: Seq<ValueView>,
    env: Map<Seq<char>, ValueView>,
    mode: FieldToBv,
)
    ensures
        op_result(Op::PfNaryOp(o), s, env, mode) is Some <==> s.len() > 0 && s[0] is Field
            && all_elements(s[0]->Field_0.ty, s),
        op_result(Op::PfNaryOp(o), s, env, mode) is Some ==> op_result(
            Op::PfNaryOp(o),
            s,
            env,
            mode,
        )->0 is Field && op_result(Op::PfNaryOp(o), s, env, mode)->0->Field_0.ty
            == s[0]->Field_0.ty,
    decreases s.len(),
{
    if s.len() > 1 {
        let rest = s.drop_last();
        law_field_sums_are_there(o, rest, env, mode);
        let f = s[0]->Field_0.ty;
        assert(rest[0] == s[0]);
        if s[0] is Field && all_elements(f, s) {
            assert forall|i: int| 0 <= i < rest.len() implies (#[trigger] rest[i]) is Field
                && rest[i]->Field_0.ty == f by {
                assert(rest[i] == s[i]);
            }
            assert(s[s.len() - 1] is Field && s[s.len() - 1]->Field_0.ty == f);
        }
        if op_result(Op::PfNaryOp(o), s, env, mode) is Some {
            assert forall|i: int| 0 <= i < s.len() implies (#[trigger] s[i]) is Field
                && s[i]->Field_0.ty == f by {
                if i < s.len() - 1 {
                    assert(rest[i] is Field);
                }
            }
        }
    }
}

/// One element is its own sum and product. A further summand adds its representative, and a
/// further factor multiplies by it, modulo the order of the field, however many came before.
pub proof fn law_field_sums_grow(
    s: Seq<ValueView>,
    x: FieldVView,
    sum: FieldVView,
    product: FieldVView,
    env: Map<Seq<char>, ValueView>,
    mode: FieldToBv,
)
    requires
        op_result(Op::PfNaryOp(PfNaryOp::Add), s, env, mode) == Some(ValueView::Field(sum)),
        op_result(Op::PfNaryOp(PfNaryOp::Mul), s, env, mode) == Some(ValueView::Field(product)),
        sum.ty == x.ty,
        product.ty == x.ty,
        x.i < x.ty.modulus(),
    ensures
        op_result(Op::PfNaryOp(PfNaryOp::Add), seq![ValueView::Field(x)], env, mode) == Some(
            ValueView::Field(x),
        ),
        op_result(Op::PfNaryOp(PfNaryOp::Mul), seq![ValueView::Field(x)], env, mode) == Some(
            ValueView::Field(x),
        ),
        op_result(
            Op::PfNaryOp(PfNaryOp::Add),
            s.push(ValueView::Field(x)),
            env,
            mode,
        ) == Some(
            ValueView::Field(FieldVView { ty: x.ty, i: (sum.i + x.i) % x.ty.modulus() }),
        ),
        op_result(
            Op::PfNaryOp(PfNaryOp::Mul),
            s.push(ValueView::Field(x)),
            env,
            mode,
        ) == Some(
            ValueView::Field(FieldVView { ty: x.ty, i: (product.i * x.i) % x.ty.modulus() }),
        ),
{
    assert(s.push(ValueView::Field(x)).drop_last() =~= s);
}

/// What two lists one after the other give comes from what each of them gives.
proof fn lemma_field_lists(o: PfNaryOp, s: Seq<ValueView>, t: Seq<ValueView>)
    requires
        pf_nary(o, s) is Some,
        pf_nary(o, t) is Some,
        pf_nary(o, s)->0.ty == pf_nary(o, t)->0.ty,
        pf_nary(o, t)->0.ty.modulus() > 0,
    ensures
        t.len() > 0,
        pf_nary(o, s + t) is Some,
        pf_nary(o, s + t)->0.ty == pf_nary(o, s)->0.ty,
        pf_nary(o, s + t)->0.i == (match o {
            PfNaryOp::Add => (pf_nary(o, s)->0.i + pf_nary(o, t)->0.i) % pf_nary(
                o,
                s,
            )->0.ty.modulus(),
            PfNaryOp::Mul => (pf_nary(o, s)->0.i * pf_nary(o, t)->0.i) % pf_nary(
                o,
                s,
            )->0.ty.modulus(),
        }),
    decreases t.len(),
{
    assert((s + t).drop_last() =~= s + t.drop_last());
    assert((s + t).last() == t.last());
    if t.len() == 1 {
        assert(s + t.drop_last() =~= s);
    } else {
        lemma_field_lists(o, s, t.drop_last());
        let m = pf_nary(o, s)->0.ty.modulus() as int;
        let a = pf_nary(o, s)->0.i as int;
        let b = pf_nary(o, t.drop_last())->0.i as int;
        let c = t.last()->Field_0.i as int;
        match o {
            PfNaryOp::Add => {
                lemma_add_mod_noop(a + b, c, m);
                lemma_add_mod_noop((a + b) % m, c, m);
                lemma_mod_bound(a + b, m);
                lemma_small_mod(((a + b) % m) as nat, m as nat);
                lemma_add_mod_noop_right(a, b + c, m);
            },
            PfNaryOp::Mul => {
                lemma_mul_mod_noop_left(a * b, c, m);
                lemma_mul_mod_noop_right(a, b * c, m);
                lemma_mul_is_associative(a, b, c);
            },
        }
    }
}

/// Sums and products in a field depend neither on how their parts are grouped nor on the order
/// of two groups: that of two lists one after the other is that of the two results.
#[verifier::rlimit(40)]
pub proof fn law_field_sums_in_groups(
    o: PfNaryOp,
    s: Seq<ValueView>,
    t: Seq<ValueView>,
    f: FieldTView,
    env: Map<Seq<char>, ValueView>,
    mode: FieldToBv,
)
    requires
        s.len() > 0,
        t.len() > 0,
        all_elements(f, s),
        all_elements(f, t),
        f.modulus() > 0,
    ensures
        op_result(Op::PfNaryOp(o), s + t, env, mode) == op_result(
            Op::PfNaryOp(o),
            seq![
                op_result(Op::PfNaryOp(o), s, env, mode)->0,
                op_result(Op::PfNaryOp(o), t, env, mode)->0,
            ],
            env,
            mode,
        ),
        op_result(Op::PfNaryOp(o), s + t, env, mode) == op_result(
            Op::PfNaryOp(o),
            t + s,
            env,
            mode,
        ),
{
    assert(s[0] is Field && t[0] is Field);
    law_field_sums_are_there(o, s, env, mode);
    law_field_sums_are_there(o, t, env, mode);
    lemma_field_lists(o, s, t);
    lemma_field_lists(o, t, s);
    let (a, b) = (pf_nary(o, s)->0, pf_nary(o, t)->0);
    lemma_mul_is_commutative(a.i as int, b.i as int);
    let one = seq![ValueView::Field(a)];
    let two = seq![ValueView::Field(a), ValueView::Field(b)];
    assert(two.drop_last() =~= one);
    assert(pf_nary(o, one) == Some(a));
    assert(pf_nary(o, s + t)->0 == pf_nary(o, two)->0);
    assert(pf_nary(o, s + t)->0 == pf_nary(o, t + s)->0);
}

/// An element and its opposite add up to zero, and the opposite is an element of the same field.
pub proof fn law_opposite_elements(
    args: Seq<ValueView>,
    a: FieldVView,
    env: Map<Seq<char>, ValueView>,
    mode: FieldToBv,
)
    requires
        args.len() >= 1,
        args[0] == ValueView::Field(a),
        a.i < a.ty.modulus(),
    ensures
        op_result(Op::PfUnOp(PfUnOp::Neg), args, env, mode) is Some,
        op_result(Op::PfUnOp(PfUnOp::Neg), args, env, mode)->0 is Field,
        op_result(Op::PfUnOp(PfUnOp::Neg), args, env, mode)->0->Field_0.ty == a.ty,
        op_result(Op::PfUnOp(PfUnOp::Neg), args, env, mode)->0->Field_0.i < a.ty.modulus(),
        op_result(
            Op::PfNaryOp(PfNaryOp::Add),
            seq![ValueView::Field(a), op_result(Op::PfUnOp(PfUnOp::Neg), args, env, mode)->0],
            env,
            mode,
        ) == Some(ValueView::Field(FieldVView { ty: a.ty, i: 0 })),
{
    let m = a.ty.modulus() as int;
    let r = op_result(Op::PfUnOp(PfUnOp::Neg), args, env, mode)->0;
    lemma_mod_bound(-(a.i as int), m);
    lemma_add_mod_noop_right(a.i as int, -(a.i as int), m);
    lemma_small_mod(0, a.ty.modulus());
    let two = seq![ValueView::Field(a), r];
    assert(two.drop_last() =~= seq![ValueView::Field(a)]);
    assert(pf_nary(PfNaryOp::Add, seq![ValueView::Field(a)]) == Some(a));
}

/// A number whose product with an element leaves one is enough for the element to have an
/// inverse.
proof fn lemma_some_inverse(a: FieldVView, w: int)
    requires
        a.ty.modulus() > 0,
        (a.i * w) % (a.ty.modulus() as int) == 1int % (a.ty.modulus() as int),
    ensures
        field_recip(a) is Some,
{
    let m = a.ty.modulus() as int;
    lemma_mod_bound(w, m);
    lemma_mul_mod_noop_right(a.i as int, w, m);
    assert(is_inverse(a.i as int, m, w % m));
}

/// The reciprocal of zero is zero. That of another element is the element whose product with it
/// is one, and it is there wherever some product with it is one.
pub proof fn law_reciprocals(
    args: Seq<ValueView>,
    a: FieldVView,
    w: int,
    env: Map<Seq<char>, ValueView>,
    mode: FieldToBv,
)
    requires
        args.len() >= 1,
        args[0] == ValueView::Field(a),
        a.i < a.ty.modulus(),
    ensures
        a.i == 0 ==> op_result(Op::PfUnOp(PfUnOp::Recip), args, env, mode) == Some(
            ValueView::Field(a),
        ),
        (a.i * w) % (a.ty.modulus() as int) == 1int % (a.ty.modulus() as int) ==> op_result(
            Op::PfUnOp(PfUnOp::Recip),
            args,
            env,
            mode,
        ) is Some,
        op_result(Op::PfUnOp(PfUnOp::Recip), args, env, mode) is Some ==> op_result(
            Op::PfUnOp(PfUnOp::Recip),
            args,
            env,
            mode,
        )->0 is Field && op_result(Op::PfUnOp(PfUnOp::Recip), args, env, mode)->0->Field_0.ty
            == a.ty && op_result(Op::PfUnOp(PfUnOp::Recip), args, env, mode)->0->Field_0.i
            < a.ty.modulus(),
        op_result(Op::PfUnOp(PfUnOp::Recip), args, env, mode) is Some && a.i != 0 ==> (a.i
            * op_result(Op::PfUnOp(PfUnOp::Recip), args, env, mode)->0->Field_0.i)
            % a.ty.modulus() == 1,
{
    let m = a.ty.modulus() as int;
    if (a.i * w) % m == 1int % m {
        lemma_some_inverse(a, w);
    }
    if a.i != 0 && field_recip(a) is Some {
        let v = mod_inverse(a.i as int, m)->0;
        assert(is_inverse(a.i as int, m, v));
        lemma_small_mod(1, a.ty.modulus());
    }
}

/// A quotient is the element whose product with the divisor is the dividend. It is there for two
/// elements of one field, wherever some product with the divisor is one, and nowhere else.
#[verifier::rlimit(40)]
pub proof fn law_quotients(
    args: Seq<ValueView>,
    a: FieldVView,
    b: FieldVView,
    w: int,
    env: Map<Seq<char>, ValueView>,
    mode: FieldToBv,
)
    requires
        args.len() >= 2,
        args[0] == ValueView::Field(a),
        args[1] == ValueView::Field(b),
        a.i < a.ty.modulus(),
        b.i < b.ty.modulus(),
    ensures
        a.ty == b.ty && (b.i * w) % (b.ty.modulus() as int) == 1int % (b.ty.modulus() as int)
            ==> op_result(Op::PfDiv, args, env, mode) is Some,
        op_result(Op::PfDiv, args, env, mode) is Some ==> a.ty == b.ty && (b.i == 0
            ==> b.ty.modulus() == 1) && op_result(Op::PfDiv, args, env, mode)->0 is Field
            && op_result(Op::PfDiv, args, env, mode)->0->Field_0.ty == a.ty && op_result(
            Op::PfDiv,
            args,
            env,
            mode,
        )->0->Field_0.i < a.ty.modulus() && (op_result(Op::PfDiv, args, env, mode)->0->Field_0.i
            * b.i) % a.ty.modulus() == a.i,
{
    let m = b.ty.modulus() as int;
    if (b.i * w) % m == 1int % m {
        lemma_some_inverse(b, w);
    }
    if op_result(Op::PfDiv, args, env, mode) is Some {
        let v = mod_inverse(b.i as int, m)->0;
        assert(is_inverse(b.i as int, m, v));
        let (x, y) = (a.i as int, b.i as int);
        if b.i == 0 {
            assert(0 * v == 0);
            if m > 1 {
                lemma_small_mod(0, m as nat);
                lemma_small_mod(1, m as nat);
            }
        }
        lemma_mod_bound(x * v, m);
        lemma_mul_mod_noop_left(x * v, y, m);
        lemma_mul_is_associative(x, v, y);
        lemma_mul_is_commutative(v, y);
        lemma_mul_mod_noop_right(x, y * v, m);
        lemma_mul_mod_noop_right(x, 1, m);
        assert(x * 1 == x);
        lemma_small_mod(a.i, a.ty.modulus());
    }
}

/// The operators on one or two field elements have values for field elements only.
pub proof fn law_field_operands(
    w: usize,
    args: Seq<ValueView>,
    env: Map<Seq<char>, ValueView>,
    mode: FieldToBv,
)
    requires
        args.len() == 0 || !(args[0] is Field),
    ensures
        op_result(Op::PfUnOp(PfUnOp::Neg), args, env, mode) is None,
        op_result(Op::PfUnOp(PfUnOp::Recip), args, env, mode) is None,
        op_result(Op::PfDiv, args, env, mode) is None,
        op_result(Op::PfToBv(w), args, env, mode) is None,
        op_result(Op::PfToInt, args, env, mode) is None,
        op_result(Op::PfToBoolTrusted, args, env, mode) is None,
        op_result(Op::PfFitsInBits(w), args, env, mode) is None,
{
}

/// A quotient needs two elements of one field.
pub proof fn law_quotient_operands(
    args: Seq<ValueView>,
    env: Map<Seq<char>, ValueView>,
    mode: FieldToBv,
)
    requires
        op_result(Op::PfDiv, args, env, mode) is Some,
    ensures
        args.len() >= 2,
        args[0] is Field,
        args[1] is Field,
        args[0]->Field_0.ty == args[1]->Field_0.ty,
{
}

/// A field element as an integer is its representative. It is a boolean where that is zero or
/// one, and then it holds where it is one. It fits in so many bits, of which one is for the
/// sign, where it is below that power of two; the number of bits counts by its low 32 bits.
pub proof fn law_representatives(
    n: usize,
    args: Seq<ValueView>,
    a: FieldVView,
    env: Map<Seq<char>, ValueView>,
    mode: FieldToBv,
)
    requires
        args.len() >= 1,
        args[0] == ValueView::Field(a),
    ensures
        op_result(Op::PfToInt, args, env, mode) == Some(ValueView::Int(a.i as int)),
        op_result(Op::PfToBoolTrusted, args, env, mode) == Some(ValueView::Bool(true)) <==> a.i
            == 1,
        op_result(Op::PfToBoolTrusted, args, env, mode) == Some(ValueView::Bool(false)) <==> a.i
            == 0,
        op_result(Op::PfToBoolTrusted, args, env, mode) is Some <==> a.i < 2,
        op_result(Op::PfFitsInBits(n), args, env, mode) == Some(
            ValueView::Bool(
                n as nat % 0x1_0000_0000 > 0 && a.i < pow2((n as nat % 0x1_0000_0000 - 1) as nat),
            ),
        ),
{
    let k = n as nat % 0x1_0000_0000;
    if k > 0 {
        lemma_bit_length_le(a.i, (k - 1) as nat);
    }
}

/// A field element as a bit-vector has the given width, and its number differs from the
/// representative by a multiple of `2^w`. Where larger elements are refused, it is there exactly
/// for representatives that fit, and where they are not, for all of them.
pub proof fn law_field_element_as_bits(
    w: usize,
    args: Seq<ValueView>,
    a: FieldVView,
    env: Map<Seq<char>, ValueView>,
    mode: FieldToBv,
)
    requires
        args.len() >= 1,
        args[0] == ValueView::Field(a),
    ensures
        op_result(Op::PfToBv(w), args, env, mode) is Some <==> mode == FieldToBv::Wrap || a.i
            < pow2(w as nat),
        op_result(Op::PfToBv(w), args, env, mode) is Some ==> op_result(
            Op::PfToBv(w),
            args,
            env,
            mode,
        )->0 is BitVector && op_result(Op::PfToBv(w), args, env, mode)->0->BitVector_0.width == w
            && op_result(Op::PfToBv(w), args, env, mode)->0->BitVector_0.uint < pow2(w as nat) && (
        a.i - op_result(Op::PfToBv(w), args, env, mode)->0->BitVector_0.uint) % (pow2(
            w as nat,
        ) as int) == 0,
        a.i < pow2(w as nat) ==> op_result(
            Op::PfToBv(w),
            args,
            env,
            mode,
        )->0->BitVector_0.uint == a.i,
{
    let p = pow2(w as nat) as int;
    let n = a.i as int;
    lemma_pow2_pos(w as nat);
    lemma_bit_length_le(a.i, w as nat);
    lemma_mod_bound(n, p);
    lemma_fundamental_div_mod(n, p);
    lemma_mod_multiples_vanish(n / p, 0, p);
    lemma_small_mod(0, p as nat);
    assert(n - n % p == p * (n / p) + 0);
    if n < p {
        lemma_small_mod(a.i, p as nat);
    }
}

/// The element for an integer is the one below the order of the field that differs from it by a
/// multiple of that order; the element for a bit-vector is that for its number. They are there
/// for fields that have elements.
pub proof fn law_elements_of_integers(
    f: FieldT,
    args: Seq<ValueView>,
    n: int,
    env: Map<Seq<char>, ValueView>,
    mode: FieldToBv,
)
    requires
        args.len() >= 1,
        args[0] == ValueView::Int(n) || (args[0] is BitVector && args[0]->BitVector_0.uint == n),
    ensures
        args[0] is Int ==> (op_result(Op::IntToPf(f), args, env, mode) is Some <==> f@.modulus()
            > 0),
        args[0] is BitVector ==> (op_result(Op::UbvToPf(f), args, env, mode) is Some
            <==> f@.modulus() > 0),
        args[0] is Int && f@.modulus() > 0 ==> op_result(Op::IntToPf(f), args, env, mode)->0
            is Field && op_result(Op::IntToPf(f), args, env, mode)->0->Field_0.ty == f@
            && op_result(Op::IntToPf(f), args, env, mode)->0->Field_0.i < f@.modulus() && (n
            - op_result(Op::IntToPf(f), args, env, mode)->0->Field_0.i) % (f@.modulus() as int)
            == 0,
        args[0] is BitVector && f@.modulus() > 0 ==> op_result(
            Op::UbvToPf(f),
            args,
            env,
            mode,
        )->0 is Field && op_result(Op::UbvToPf(f), args, env, mode)->0->Field_0.ty == f@
            && op_result(Op::UbvToPf(f), args, env, mode)->0->Field_0.i < f@.modulus() && (n
            - op_result(Op::UbvToPf(f), args, env, mode)->0->Field_0.i) % (f@.modulus() as int)
            == 0,
{
    if f@.modulus() > 0 {
        let m = f@.modulus() as int;
        lemma_mod_bound(n, m);
        lemma_fundamental_div_mod(n, m);
        lemma_mod_multiples_vanish(n / m, 0, m);
        lemma_small_mod(0, m as nat);
        assert(n - n % m == m * (n / m) + 0);
    }
}

/// The operators that make field elements take an integer and a bit-vector.
pub proof fn law_sources_of_elements(
    f: FieldT,
    args: Seq<ValueView>,
    env: Map<Seq<char>, ValueView>,
    mode: FieldToBv,
)
    ensures
        op_result(Op::IntToPf(f), args, env, mode) is Some ==> args.len() >= 1 && args[0] is Int,
        op_result(Op::UbvToPf(f), args, env, mode) is Some ==> args.len() >= 1
            && args[0] is BitVector,
{
}

/// `PlonkMul2` takes one field element, and gives its square plus itself.
#[verifier::rlimit(40)]
pub proof fn law_plonk_mul2_call(
    c: CallOp,
    args: Seq<ValueView>,
    env: Map<Seq<char>, ValueView>,
    mode: FieldToBv,
)
    requires
        c.name@ == "PlonkMul2"@,
    ensures
        op_result(Op::UndefinedFnCall(Box::new(c)), args, env, mode) is Some <==> args.len() == 1
            && args[0] is Field,
        args.len() == 1 && args[0] is Field ==> op_result(
            Op::UndefinedFnCall(Box::new(c)),
            args,
            env,
            mode,
        ) == op_result(
            Op::PfNaryOp(PfNaryOp::Add),
            seq![
                op_result(
                    Op::PfNaryOp(PfNaryOp::Mul),
                    seq![args[0], args[0]],
                    env,
                    mode,
                )->0,
                args[0],
            ],
            env,
            mode,
        ),
{
    if args.len() == 1 && args[0] is Field {
        let x = args[0];
        let two = seq![x, x];
        assert(two.drop_last() =~= seq![x]);
        assert(pf_nary(PfNaryOp::Mul, seq![x]) == Some(x->Field_0));
        let sq = ValueView::Field(pf_nary(PfNaryOp::Mul, two)->0);
        assert(seq![sq, x].drop_last() =~= seq![sq]);
        assert(pf_nary(PfNaryOp::Add, seq![sq]) == Some(sq->Field_0));
    }
}

} // verus!
