//! What holds of operators on field elements and integers together.

use crate::bits::{lemma_bit_length, lemma_bit_length_le};
use crate::bls_prime::lemma_bls12381_prime;
use crate::field::{
    bls12381_modulus, field_negate, field_new, field_plus, field_recip, field_times, FieldT,
    FieldTView, FieldVView,
};
use crate::modular::{
    is_inverse, is_prime, lemma_prime_inverse, lemma_trunc_parts, magnitude, mod_inverse,
};
use crate::op::{FieldToBv, IntBinOp, Op, PfUnOp};
use crate::semantics::{int_binary, int_size, op_result, pf_bits, pf_quotient, pf_unary, plonk_mul2};
use crate::value::ValueView;
use vstd::arithmetic::div_mod::{
    lemma_add_mod_noop, lemma_add_mod_noop_right, lemma_mod_bound, lemma_mod_twice,
    lemma_mul_mod_noop_left, lemma_mul_mod_noop_right, lemma_small_mod,
};
use vstd::arithmetic::mul::{
    lemma_mul_is_associative, lemma_mul_is_commutative, lemma_mul_is_distributive_add,
};
use vstd::arithmetic::power2::pow2;
use vstd::prelude::*;

verus! {

/// The one of a field.
pub open spec fn field_one(ty: FieldTView) -> FieldVView {
    field_new(ty, 1)
}

/// The zero of a field.
pub open spec fn field_zero(ty: FieldTView) -> FieldVView {
    FieldVView { ty, i: 0 }
}

/// Sums in a field do not depend on the order or the grouping of their parts, and zero adds
/// nothing.
pub proof fn law_field_sums(a: FieldVView, b: FieldVView, c: FieldVView)
    requires
        a.wf(),
        a.ty == b.ty,
        b.ty == c.ty,
    ensures
        field_plus(a, b) == field_plus(b, a),
        field_plus(field_plus(a, b), c) == field_plus(a, field_plus(b, c)),
        field_plus(a, field_zero(a.ty)) == a,
{
    let p = a.ty.modulus() as int;
    lemma_small_mod(a.i, a.ty.modulus());
    lemma_add_mod_noop((a.i + b.i) as int, c.i as int, p);
    lemma_mod_twice((a.i + b.i) as int, p);
    lemma_add_mod_noop(((a.i + b.i) as int) % p, c.i as int, p);
    lemma_add_mod_noop(a.i as int, (b.i + c.i) as int, p);
    lemma_mod_twice((b.i + c.i) as int, p);
    lemma_add_mod_noop(a.i as int, ((b.i + c.i) as int) % p, p);
    lemma_mod_bound((a.i + b.i) as int, p);
    lemma_mod_bound((b.i + c.i) as int, p);
}

/// Products in a field do not depend on the order or the grouping of their parts, one changes
/// nothing, and a product with a sum is the sum of the products.
pub proof fn law_field_products(a: FieldVView, b: FieldVView, c: FieldVView)
    requires
        a.wf(),
        a.ty == b.ty,
        b.ty == c.ty,
    ensures
        field_times(a, b) == field_times(b, a),
        field_times(field_times(a, b), c) == field_times(a, field_times(b, c)),
        field_times(a, field_one(a.ty)) == a,
        field_times(a, field_plus(b, c)) == field_plus(field_times(a, b), field_times(a, c)),
{
    let p = a.ty.modulus() as int;
    let (x, y, z) = (a.i as int, b.i as int, c.i as int);
    lemma_small_mod(a.i, a.ty.modulus());
    lemma_mul_is_commutative(x, y);
    lemma_mod_bound(x * y, p);
    lemma_mod_bound(y * z, p);
    lemma_mod_bound(y + z, p);
    lemma_mod_bound(x * z, p);
    lemma_mod_bound(1, p);
    lemma_mul_mod_noop_left(x * y, z, p);
    lemma_mul_mod_noop_right(x, y * z, p);
    lemma_mul_is_associative(x, y, z);
    lemma_mul_mod_noop_right(x, 1, p);
    assert(x * 1 == x);
    lemma_mul_mod_noop_right(x, y + z, p);
    lemma_mul_is_distributive_add(x, y, z);
    lemma_add_mod_noop(x * y, x * z, p);
}

/// An element and its opposite add up to zero.
pub proof fn law_field_opposite(a: FieldVView)
    requires
        a.wf(),
    ensures
        field_plus(a, field_negate(a)) == field_zero(a.ty),
{
    let p = a.ty.modulus() as int;
    lemma_mod_bound(-(a.i as int), p);
    lemma_add_mod_noop_right(a.i as int, -(a.i as int), p);
    lemma_small_mod(0, a.ty.modulus());
}

/// The inverse of an element, where it has one: their product is one.
pub proof fn law_field_inverse(a: FieldVView)
    requires
        field_recip(a) is Some,
    ensures
        field_times(a, field_recip(a)->0) == field_one(a.ty),
        field_recip(a)->0.wf(),
        field_recip(a)->0.ty == a.ty,
{
    let p = a.ty.modulus() as int;
    let w = mod_inverse(a.i as int, p)->0;
    assert(is_inverse(a.i as int, p, w));
}

/// In a prime field every element but zero has an inverse, so the reciprocal is always there;
/// that of zero is zero.
pub proof fn law_reciprocals_in_prime_fields(a: FieldVView)
    requires
        a.wf(),
        is_prime(a.ty.modulus() as int),
    ensures
        pf_unary(PfUnOp::Recip, a) is Some,
        a.i != 0 ==> field_times(a, pf_unary(PfUnOp::Recip, a)->0) == field_one(a.ty),
        a.i == 0 ==> pf_unary(PfUnOp::Recip, a) == Some(field_zero(a.ty)),
{
    if a.i != 0 {
        lemma_small_mod(a.i, a.ty.modulus());
        lemma_prime_inverse(a.i as int, a.ty.modulus() as int);
        law_field_inverse(a);
    }
}

/// In a prime field every quotient by an element other than zero is there.
pub proof fn law_quotients_in_prime_fields(a: FieldVView, b: FieldVView)
    requires
        b.wf(),
        a.ty == b.ty,
        b.i != 0,
        is_prime(b.ty.modulus() as int),
    ensures
        pf_quotient(seq![ValueView::Field(a), ValueView::Field(b)]) is Some,
{
    lemma_small_mod(b.i, b.ty.modulus());
    lemma_prime_inverse(b.i as int, b.ty.modulus() as int);
}

/// The scalars of BLS12-381 are a prime field: every one of them has a reciprocal, whose product
/// with it is one but for zero, and every quotient by one of them other than zero is there.
pub proof fn law_bls12381_inverses(
    a: FieldVView,
    b: FieldVView,
    env: Map<Seq<char>, ValueView>,
    mode: FieldToBv,
)
    requires
        a.wf(),
        b.wf(),
        a.ty == FieldTView::FBls12381,
        b.ty == FieldTView::FBls12381,
    ensures
        is_prime(bls12381_modulus() as int),
        op_result(Op::PfUnOp(PfUnOp::Recip), seq![ValueView::Field(b)], env, mode) is Some,
        b.i != 0 ==> field_times(b, pf_unary(PfUnOp::Recip, b)->0) == field_one(b.ty),
        b.i != 0 ==> op_result(
            Op::PfDiv,
            seq![ValueView::Field(a), ValueView::Field(b)],
            env,
            mode,
        ) is Some,
{
    lemma_bls12381_prime();
    law_reciprocals_in_prime_fields(b);
    if b.i != 0 {
        law_quotients_in_prime_fields(a, b);
    }
}

/// A quotient times the divisor is the dividend.
pub proof fn law_field_quotient(a: FieldVView, b: FieldVView)
    requires
        a.wf(),
        pf_quotient(seq![ValueView::Field(a), ValueView::Field(b)]) is Some,
    ensures
        field_times(pf_quotient(seq![ValueView::Field(a), ValueView::Field(b)])->0, b) == a,
{
    let w = field_recip(b)->0;
    law_field_inverse(b);
    law_field_products(a, w, b);
    law_field_products(w, b, b);
    law_field_products(a, field_one(a.ty), b);
}

/// `PlonkMul2` of an element is its product with the next element.
pub proof fn law_plonk_mul2(x: FieldVView)
    requires
        x.wf(),
    ensures
        plonk_mul2(seq![ValueView::Field(x)]) == Some(
            field_times(x, field_plus(x, field_one(x.ty))),
        ),
{
    law_field_products(x, x, field_one(x.ty));
}

/// A field element taken as an integer and back is the same element.
pub proof fn law_field_element_of_its_integer(
    a: FieldVView,
    f: FieldT,
    env: Map<Seq<char>, ValueView>,
    mode: FieldToBv,
)
    requires
        a.wf(),
        f@ == a.ty,
    ensures
        op_result(
            Op::IntToPf(f),
            seq![op_result(Op::PfToInt, seq![ValueView::Field(a)], env, mode)->0],
            env,
            mode,
        ) == Some(ValueView::Field(a)),
{
    lemma_small_mod(a.i, a.ty.modulus());
}

/// An integer taken as a field element and back leaves the remainder by the modulus.
pub proof fn law_integer_of_its_field_element(
    n: int,
    f: FieldT,
    env: Map<Seq<char>, ValueView>,
    mode: FieldToBv,
)
    requires
        f@.modulus() > 0,
    ensures
        op_result(
            Op::PfToInt,
            seq![op_result(Op::IntToPf(f), seq![ValueView::Int(n)], env, mode)->0],
            env,
            mode,
        ) == Some(ValueView::Int(n % (f@.modulus() as int))),
{
    lemma_mod_bound(n, f@.modulus() as int);
}

/// A field element that fits a bit-vector becomes the same one whatever is done with larger
/// elements, and taken back it is the same element.
pub proof fn law_field_element_of_its_bits(
    a: FieldVView,
    w: usize,
    f: FieldT,
    env: Map<Seq<char>, ValueView>,
    mode: FieldToBv,
)
    requires
        a.wf(),
        f@ == a.ty,
        a.i < pow2(w as nat),
    ensures
        pf_bits(FieldToBv::Wrap, w as nat, a) == pf_bits(FieldToBv::Panic, w as nat, a),
        op_result(
            Op::UbvToPf(f),
            seq![op_result(Op::PfToBv(w), seq![ValueView::Field(a)], env, mode)->0],
            env,
            mode,
        ) == Some(ValueView::Field(a)),
{
    lemma_bit_length_le(a.i, w as nat);
    lemma_small_mod(a.i, pow2(w as nat));
    lemma_small_mod(a.i, a.ty.modulus());
}

/// The elements that are refused are those that do not fit.
pub proof fn law_refused_field_elements(a: FieldVView, w: nat)
    ensures
        pf_bits(FieldToBv::Panic, w, a) is Some <==> a.i < pow2(w),
        pf_bits(FieldToBv::Wrap, w, a) is Some,
{
    lemma_bit_length_le(a.i, w);
}

/// A field element fits in `n` bits as a signed number where it is below `2^(n - 1)`.
pub proof fn law_fits_in_bits(
    a: FieldVView,
    n: usize,
    env: Map<Seq<char>, ValueView>,
    mode: FieldToBv,
)
    requires
        0 < n < 0x1_0000_0000,
    ensures
        op_result(Op::PfFitsInBits(n), seq![ValueView::Field(a)], env, mode) == Some(
            ValueView::Bool(a.i < pow2((n - 1) as nat)),
        ),
{
    lemma_bit_length_le(a.i, (n - 1) as nat);
    lemma_small_mod(n as nat, 0x1_0000_0000);
}

/// The size of an integer other than zero is the number of its binary digits.
pub proof fn law_integer_size(n: int)
    requires
        n != 0,
        int_size(n) is Some,
    ensures
        int_size(n)->0.uint > 0,
        pow2((int_size(n)->0.uint - 1) as nat) <= magnitude(n) < pow2(int_size(n)->0.uint),
{
    lemma_bit_length(magnitude(n));
}

/// The quotient times the divisor, plus the remainder, is the dividend; the remainder is
/// smaller than the divisor, and where it is not zero it has the sign of the dividend.
pub proof fn law_integer_quotient(a: int, b: int)
    requires
        b != 0,
    ensures
        int_binary(IntBinOp::Div, a, b) is Some,
        int_binary(IntBinOp::Rem, a, b) is Some,
        a == b * int_binary(IntBinOp::Div, a, b)->0 + int_binary(IntBinOp::Rem, a, b)->0,
        magnitude(int_binary(IntBinOp::Rem, a, b)->0) < magnitude(b),
        int_binary(IntBinOp::Rem, a, b)->0 > 0 ==> a > 0,
        int_binary(IntBinOp::Rem, a, b)->0 < 0 ==> a < 0,
{
    lemma_trunc_parts(a, b);
    lemma_mod_bound(magnitude(a) as int, magnitude(b) as int);
    if a == 0 {
        lemma_small_mod(0, magnitude(b));
    }
}

/// A modular inverse lies below the modulus, and its product with the number leaves one.
pub proof fn law_modular_inverse(a: int, b: int)
    requires
        int_binary(IntBinOp::ModInv, a, b) is Some,
    ensures
        0 <= int_binary(IntBinOp::ModInv, a, b)->0 < magnitude(b),
        (a * int_binary(IntBinOp::ModInv, a, b)->0) % (magnitude(b) as int) == 1int % (magnitude(
            b,
        ) as int),
{
    let w = int_binary(IntBinOp::ModInv, a, b)->0;
    assert(is_inverse(a, magnitude(b) as int, w));
}

} // verus!
