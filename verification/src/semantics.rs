//! The meaning of operators: the value of each on its arguments.
//!
//! An operator has no value on arguments that it does not accept.

use crate::bits::{bit, bit_length, bitwise, BitOp};
use crate::bv::{
    bv_ashr, bv_concat, bv_extract, bv_lshr, bv_sext, bv_shl, bv_udiv, bv_urem, bv_wrap, BvView,
};
use crate::bytes::{be_value, le_bytes, le_value};
use crate::check::op_sort;
use crate::field::{
    bls12381_modulus, field_negate, field_new, field_plus, field_recip, field_times, FieldTView,
    FieldVView,
};
use crate::modular::{magnitude, mod_inverse, trunc_div, trunc_rem};
use crate::op::{
    BoolNaryOp, BvBinOp, BvBinPred, BvNaryOp, BvUnOp, FieldToBv, IntBinOp, IntBinPred, IntNaryOp,
    IntUnOp, Op, PfNaryOp, PfUnOp,
};
use crate::outside::{chacha_stream, poseidon_digest, sha256_digest};
use crate::sort::SortView;
use crate::value::{
    array_fill, array_of, array_select, array_store, default_of, has_key, index_count, inhabited,
    key_index, nth_key, value_sort, value_sorts, ArrayView, ValueView,
};
use vstd::arithmetic::power2::pow2;
use vstd::prelude::*;

verus! {

/// The `i`-th argument.
pub open spec fn arg(args: Seq<ValueView>, i: int) -> Option<ValueView> {
    if 0 <= i < args.len() {
        Some(args[i])
    } else {
        None
    }
}

/// The `i`-th argument, where it is a boolean.
pub open spec fn bool_arg(args: Seq<ValueView>, i: int) -> Option<bool> {
    match arg(args, i) {
        Some(ValueView::Bool(b)) => Some(b),
        _ => None,
    }
}

/// The `i`-th argument, where it is a bit-vector.
pub open spec fn bv_arg(args: Seq<ValueView>, i: int) -> Option<BvView> {
    match arg(args, i) {
        Some(ValueView::BitVector(b)) => Some(b),
        _ => None,
    }
}

/// The `i`-th argument, where it is an integer.
pub open spec fn int_arg(args: Seq<ValueView>, i: int) -> Option<int> {
    match arg(args, i) {
        Some(ValueView::Int(n)) => Some(n),
        _ => None,
    }
}

/// The `i`-th argument, where it is a field element.
pub open spec fn pf_arg(args: Seq<ValueView>, i: int) -> Option<FieldVView> {
    match arg(args, i) {
        Some(ValueView::Field(f)) => Some(f),
        _ => None,
    }
}

/// The `i`-th argument, where it is a tuple.
pub open spec fn tuple_arg(args: Seq<ValueView>, i: int) -> Option<Seq<ValueView>> {
    match arg(args, i) {
        Some(ValueView::Tuple(t)) => Some(t),
        _ => None,
    }
}

/// The `i`-th argument, where it is an array.
pub open spec fn array_arg(args: Seq<ValueView>, i: int) -> Option<ArrayView> {
    match arg(args, i) {
        Some(ValueView::Array(a)) => Some(a),
        _ => None,
    }
}

/// A boolean as a value.
pub open spec fn bool_value(r: Option<bool>) -> Option<ValueView> {
    match r {
        Some(b) => Some(ValueView::Bool(b)),
        None => None,
    }
}

/// A bit-vector as a value.
pub open spec fn bv_value(r: Option<BvView>) -> Option<ValueView> {
    match r {
        Some(b) => Some(ValueView::BitVector(b)),
        None => None,
    }
}

/// An integer as a value.
pub open spec fn int_value(r: Option<int>) -> Option<ValueView> {
    match r {
        Some(n) => Some(ValueView::Int(n)),
        None => None,
    }
}

/// A field element as a value.
pub open spec fn pf_value(r: Option<FieldVView>) -> Option<ValueView> {
    match r {
        Some(f) => Some(ValueView::Field(f)),
        None => None,
    }
}

/// A tuple as a value.
pub open spec fn tuple_value(r: Option<Seq<ValueView>>) -> Option<ValueView> {
    match r {
        Some(t) => Some(ValueView::Tuple(t)),
        None => None,
    }
}

/// An array as a value.
pub open spec fn array_value(r: Option<ArrayView>) -> Option<ValueView> {
    match r {
        Some(a) => Some(ValueView::Array(a)),
        None => None,
    }
}

/// Whether some argument holds; what comes after the first that does is not looked at.
pub open spec fn any_holds(args: Seq<ValueView>) -> Option<bool>
    decreases args.len(),
{
    if args.len() == 0 {
        Some(false)
    } else {
        match args[0] {
            ValueView::Bool(true) => Some(true),
            ValueView::Bool(false) => any_holds(args.drop_first()),
            _ => None,
        }
    }
}

/// Whether every argument holds; what comes after the first that does not is not looked at.
pub open spec fn all_hold(args: Seq<ValueView>) -> Option<bool>
    decreases args.len(),
{
    if args.len() == 0 {
        Some(true)
    } else {
        match args[0] {
            ValueView::Bool(true) => all_hold(args.drop_first()),
            ValueView::Bool(false) => Some(false),
            _ => None,
        }
    }
}

/// Whether an odd number of the arguments holds.
pub open spec fn odd_hold(args: Seq<ValueView>) -> Option<bool>
    decreases args.len(),
{
    if args.len() == 0 {
        Some(false)
    } else {
        match (odd_hold(args.drop_last()), args.last()) {
            (Some(x), ValueView::Bool(y)) => Some(x != y),
            _ => None,
        }
    }
}

/// The value of a boolean operator on any number of arguments.
pub open spec fn bool_nary(o: BoolNaryOp, args: Seq<ValueView>) -> Option<bool> {
    match o {
        BoolNaryOp::Or => any_holds(args),
        BoolNaryOp::And => all_hold(args),
        BoolNaryOp::Xor => odd_hold(args),
    }
}

/// Implication; the second argument is not looked at where the first one is false.
pub open spec fn implies_result(args: Seq<ValueView>) -> Option<bool> {
    match bool_arg(args, 0) {
        Some(true) => bool_arg(args, 1),
        Some(false) => Some(true),
        None => None,
    }
}

/// Whether at least two of the first three arguments hold.
pub open spec fn majority(args: Seq<ValueView>) -> Option<bool> {
    match (bool_arg(args, 0), bool_arg(args, 1), bool_arg(args, 2)) {
        (Some(a), Some(b), Some(c)) => Some((a && b) || (a && c) || (b && c)),
        _ => None,
    }
}

/// Bit-vectors laid side by side, the first one at the significant end.
pub open spec fn concat_all(args: Seq<ValueView>) -> Option<BvView>
    decreases args.len(),
{
    if args.len() <= 1 {
        bv_arg(args, 0)
    } else {
        match (concat_all(args.drop_last()), args.last()) {
            (Some(a), ValueView::BitVector(b)) => if a.width + b.width <= usize::MAX {
                Some(bv_concat(a, b))
            } else {
                None
            },
            _ => None,
        }
    }
}

/// The value of an operator on two bit-vectors of one width.
pub open spec fn bv_binary(o: BvBinOp, a: BvView, b: BvView) -> BvView {
    match o {
        BvBinOp::Sub => bv_wrap(a.uint - b.uint, a.width),
        BvBinOp::Udiv => bv_udiv(a, b),
        BvBinOp::Urem => bv_urem(a, b),
        BvBinOp::Shl => bv_shl(a, b),
        BvBinOp::Ashr => bv_ashr(a, b),
        BvBinOp::Lshr => bv_lshr(a, b),
    }
}

/// The value of an operator on the first two arguments: bit-vectors of one width.
pub open spec fn bv_binary_result(o: BvBinOp, args: Seq<ValueView>) -> Option<BvView> {
    match (bv_arg(args, 0), bv_arg(args, 1)) {
        (Some(a), Some(b)) => if a.width == b.width {
            Some(bv_binary(o, a, b))
        } else {
            None
        },
        _ => None,
    }
}

/// The value of an operator on one bit-vector.
pub open spec fn bv_unary(o: BvUnOp, a: BvView) -> BvView {
    match o {
        BvUnOp::Not => BvView { uint: (pow2(a.width) - 1 - a.uint) as nat, width: a.width },
        BvUnOp::Neg => bv_wrap(-(a.uint as int), a.width),
    }
}

/// One step of an operator on any number of bit-vectors.
pub open spec fn bv_nary_step(o: BvNaryOp, a: BvView, b: BvView) -> BvView {
    match o {
        BvNaryOp::Add => bv_wrap((a.uint + b.uint) as int, a.width),
        BvNaryOp::Mul => bv_wrap((a.uint * b.uint) as int, a.width),
        BvNaryOp::Or => BvView { uint: bitwise(BitOp::Or, a.uint, b.uint), width: a.width },
        BvNaryOp::And => BvView { uint: bitwise(BitOp::And, a.uint, b.uint), width: a.width },
        BvNaryOp::Xor => BvView { uint: bitwise(BitOp::Xor, a.uint, b.uint), width: a.width },
    }
}

/// The value of an operator on one or more bit-vectors of one width.
pub open spec fn bv_nary(o: BvNaryOp, args: Seq<ValueView>) -> Option<BvView>
    decreases args.len(),
{
    if args.len() <= 1 {
        bv_arg(args, 0)
    } else {
        match (bv_nary(o, args.drop_last()), args.last()) {
            (Some(a), ValueView::BitVector(b)) => if a.width == b.width {
                Some(bv_nary_step(o, a, b))
            } else {
                None
            },
            _ => None,
        }
    }
}

/// A comparison of two bit-vectors.
pub open spec fn bv_compare(o: BvBinPred, a: BvView, b: BvView) -> bool {
    match o {
        BvBinPred::Ult => a.uint < b.uint,
        BvBinPred::Ugt => a.uint > b.uint,
        BvBinPred::Ule => a.uint <= b.uint,
        BvBinPred::Uge => a.uint >= b.uint,
        BvBinPred::Slt => a.sint() < b.sint(),
        BvBinPred::Sgt => a.sint() > b.sint(),
        BvBinPred::Sle => a.sint() <= b.sint(),
        BvBinPred::Sge => a.sint() >= b.sint(),
    }
}

/// The value of an operator on one field element.
pub open spec fn pf_unary(o: PfUnOp, a: FieldVView) -> Option<FieldVView> {
    match o {
        PfUnOp::Neg => Some(field_negate(a)),
        PfUnOp::Recip => if a.i == 0 {
            Some(FieldVView { ty: a.ty, i: 0 })
        } else {
            field_recip(a)
        },
    }
}

/// The quotient of the first two arguments: elements of one field.
pub open spec fn pf_quotient(args: Seq<ValueView>) -> Option<FieldVView> {
    match (pf_arg(args, 0), pf_arg(args, 1)) {
        (Some(a), Some(b)) => match field_recip(b) {
            Some(w) => if a.ty == b.ty {
                Some(field_times(a, w))
            } else {
                None
            },
            None => None,
        },
        _ => None,
    }
}

/// One step of an operator on any number of field elements.
pub open spec fn pf_nary_step(o: PfNaryOp, a: FieldVView, b: FieldVView) -> FieldVView {
    match o {
        PfNaryOp::Add => field_plus(a, b),
        PfNaryOp::Mul => field_times(a, b),
    }
}

/// The value of an operator on one or more elements of one field.
pub open spec fn pf_nary(o: PfNaryOp, args: Seq<ValueView>) -> Option<FieldVView>
    decreases args.len(),
{
    if args.len() <= 1 {
        pf_arg(args, 0)
    } else {
        match (pf_nary(o, args.drop_last()), args.last()) {
            (Some(a), ValueView::Field(b)) => if a.ty == b.ty {
                Some(pf_nary_step(o, a, b))
            } else {
                None
            },
            _ => None,
        }
    }
}

/// The bit-vector of width `w` for a field element.
pub open spec fn pf_bits(mode: FieldToBv, w: nat, a: FieldVView) -> Option<BvView> {
    if mode == FieldToBv::Panic && bit_length(a.i) > w {
        None
    } else {
        Some(bv_wrap(a.i as int, w))
    }
}

/// The element of the field `f` for an integer, where the field has elements.
pub open spec fn pf_of_int(f: FieldTView, n: Option<int>) -> Option<FieldVView> {
    match n {
        Some(n) => if f.modulus() > 0 {
            Some(field_new(f, n))
        } else {
            None
        },
        None => None,
    }
}

/// One step of an operator on any number of integers.
pub open spec fn int_nary_step(o: IntNaryOp, a: int, b: int) -> int {
    match o {
        IntNaryOp::Add => a + b,
        IntNaryOp::Mul => a * b,
    }
}

/// The value of an operator on one or more integers.
pub open spec fn int_nary(o: IntNaryOp, args: Seq<ValueView>) -> Option<int>
    decreases args.len(),
{
    if args.len() <= 1 {
        int_arg(args, 0)
    } else {
        match (int_nary(o, args.drop_last()), args.last()) {
            (Some(a), ValueView::Int(b)) => Some(int_nary_step(o, a, b)),
            _ => None,
        }
    }
}

/// The value of an operator on two integers.
pub open spec fn int_binary(o: IntBinOp, a: int, b: int) -> Option<int> {
    match o {
        IntBinOp::Sub => Some(a - b),
        IntBinOp::Div => if b != 0 {
            Some(trunc_div(a, b))
        } else {
            None
        },
        IntBinOp::Rem => if b != 0 {
            Some(trunc_rem(a, b))
        } else {
            None
        },
        IntBinOp::ModInv => mod_inverse(a, magnitude(b) as int),
    }
}

/// The value of an operator on the first two arguments: integers.
pub open spec fn int_binary_result(o: IntBinOp, args: Seq<ValueView>) -> Option<int> {
    match (int_arg(args, 0), int_arg(args, 1)) {
        (Some(a), Some(b)) => int_binary(o, a, b),
        _ => None,
    }
}

/// A comparison of two integers.
pub open spec fn int_compare(o: IntBinPred, a: int, b: int) -> bool {
    match o {
        IntBinPred::Lt => a < b,
        IntBinPred::Gt => a > b,
        IntBinPred::Le => a <= b,
        IntBinPred::Ge => a >= b,
    }
}

/// How many bits an integer has, as a bit-vector of width 32.
pub open spec fn int_size(n: int) -> Option<BvView> {
    if bit_length(magnitude(n)) < 0x1_0000_0000 {
        Some(BvView { uint: bit_length(magnitude(n)), width: 32 })
    } else {
        None
    }
}

/// An integer as a bit-vector of width `w`, where it fits.
pub open spec fn int_bits(w: nat, n: int) -> Option<BvView> {
    if 0 <= n < pow2(w) {
        Some(BvView { uint: n as nat, width: w })
    } else {
        None
    }
}

/// The tuple of the first argument with the second one for its field `i`; it has the sort of
/// what stood there.
pub open spec fn update_result(i: int, args: Seq<ValueView>) -> Option<Seq<ValueView>> {
    match (tuple_arg(args, 0), arg(args, 1)) {
        (Some(t), Some(v)) => if 0 <= i < t.len() && value_sort(t[i]) == value_sort(v) {
            Some(t.update(i, v))
        } else {
            None
        },
        _ => None,
    }
}

/// The array `a` with `v` at the key `k`, where both have the sorts that the array holds.
pub open spec fn checked_store(a: ArrayView, k: ValueView, v: ValueView) -> Option<ArrayView> {
    if value_sort(k) == a.key_sort && value_sort(v) == value_sort(*a.default) {
        Some(array_store(a, k, v))
    } else {
        None
    }
}

/// The first argument with the third one at the key that the second one is.
pub open spec fn store_result(args: Seq<ValueView>) -> Option<ArrayView> {
    match (array_arg(args, 0), arg(args, 1), arg(args, 2)) {
        (Some(a), Some(k), Some(v)) => checked_store(a, k, v),
        _ => None,
    }
}

/// The same where the fourth argument holds, and the first argument where it does not.
pub open spec fn cond_store_result(args: Seq<ValueView>) -> Option<ArrayView> {
    match (array_arg(args, 0), arg(args, 1), arg(args, 2), bool_arg(args, 3)) {
        (Some(a), Some(k), Some(v), Some(c)) => if c {
            checked_store(a, k, v)
        } else {
            Some(a)
        },
        _ => None,
    }
}

/// What the first argument holds at the key that the second one is.
pub open spec fn select_result(args: Seq<ValueView>) -> Option<ValueView> {
    match (array_arg(args, 0), arg(args, 1)) {
        (Some(a), Some(k)) => if value_sort(k) == a.key_sort {
            Some(array_select(a, k))
        } else {
            None
        },
        _ => None,
    }
}

/// The array of the arguments: its size is their number, and they stand at the first keys as
/// far as there are keys.
pub open spec fn array_result(
    key: SortView,
    val: SortView,
    args: Seq<ValueView>,
) -> Option<ArrayView> {
    match index_count(key, args.len()) {
        Some(n) => if inhabited(val) && forall|i: int|
            0 <= i < args.len() ==> value_sort(#[trigger] args[i]) == val {
            Some(array_of(key, default_of(val), args.take(n as int), args.len()))
        } else {
            None
        },
        None => None,
    }
}

/// The index that an element at `j` comes from, in an array of `size` elements moved up by
/// `n` places.
pub open spec fn rot_source(j: nat, n: nat, size: nat) -> nat {
    ((j + size - n % size) % (size as int)) as nat
}

/// The elements of an array moved up by `n` places, the last ones to the front.
pub open spec fn rot_items(a: ArrayView, n: nat, count: nat) -> Seq<ValueView> {
    Seq::new(
        count,
        |j: int| array_select(a, nth_key(a.key_sort, rot_source(j as nat, n, a.size))),
    )
}

/// The array with its elements moved up by `n` places. Its keys are bit-vectors, wide enough
/// for every index that an element moves to.
pub open spec fn rot_result(n: nat, a: ArrayView) -> Option<ArrayView> {
    match (a.key_sort, index_count(a.key_sort, a.size)) {
        (SortView::BitVector(w), Some(count)) => if a.size > 0 && (a.size <= pow2(w) || n % a.size
            == 0) && inhabited(value_sort(*a.default)) {
            Some(
                array_of(
                    a.key_sort,
                    default_of(value_sort(*a.default)),
                    rot_items(a, n, count),
                    a.size,
                ),
            )
        } else {
            None
        },
        _ => None,
    }
}

/// The elements of several arrays at one key.
pub open spec fn slice_at(args: Seq<ValueView>, k: ValueView) -> Seq<ValueView> {
    Seq::new(args.len(), |i: int| array_select(args[i]->Array_0, k))
}

/// The bit-vectors and field elements in a value, from left to right.
pub open spec fn flatten(v: ValueView) -> Option<Seq<ValueView>>
    decreases v, 0nat,
{
    match v {
        ValueView::Field(_) | ValueView::BitVector(_) => Some(seq![v]),
        ValueView::Tuple(t) => flatten_all(t, t.len()),
        ValueView::Array(a) => match index_count(a.key_sort, a.size) {
            Some(n) => flatten_elements(a, n),
            None => None,
        },
        _ => None,
    }
}

/// The same of the first `n` of several values.
pub open spec fn flatten_all(s: Seq<ValueView>, n: nat) -> Option<Seq<ValueView>>
    decreases s, n,
{
    if n == 0 || n > s.len() {
        Some(Seq::empty())
    } else {
        match (flatten_all(s, (n - 1) as nat), flatten(s[n - 1])) {
            (Some(x), Some(y)) => Some(x + y),
            _ => None,
        }
    }
}

/// The same of the first `n` elements of an array.
pub open spec fn flatten_elements(a: ArrayView, n: nat) -> Option<Seq<ValueView>>
    decreases a, n,
{
    if n == 0 {
        Some(Seq::empty())
    } else {
        let k = nth_key(a.key_sort, (n - 1) as nat);
        proof {
            lemma_select_smaller(a, k);
        }
        match (flatten_elements(a, (n - 1) as nat), flatten(array_select(a, k))) {
            (Some(x), Some(y)) => Some(x + y),
            _ => None,
        }
    }
}

/// The bytes in a value, from left to right: each is a bit-vector of width 8.
pub open spec fn flatten_bytes(v: ValueView) -> Option<Seq<u8>>
    decreases v, 0nat,
{
    match v {
        ValueView::BitVector(b) => if b.width == 8 {
            Some(seq![b.uint as u8])
        } else {
            None
        },
        ValueView::Tuple(t) => flatten_all_bytes(t, t.len()),
        ValueView::Array(a) => match index_count(a.key_sort, a.size) {
            Some(n) => flatten_element_bytes(a, n),
            None => None,
        },
        _ => None,
    }
}

/// The same of the first `n` of several values.
pub open spec fn flatten_all_bytes(s: Seq<ValueView>, n: nat) -> Option<Seq<u8>>
    decreases s, n,
{
    if n == 0 || n > s.len() {
        Some(Seq::empty())
    } else {
        match (flatten_all_bytes(s, (n - 1) as nat), flatten_bytes(s[n - 1])) {
            (Some(x), Some(y)) => Some(x + y),
            _ => None,
        }
    }
}

/// The same of the first `n` elements of an array.
pub open spec fn flatten_element_bytes(a: ArrayView, n: nat) -> Option<Seq<u8>>
    decreases a, n,
{
    if n == 0 {
        Some(Seq::empty())
    } else {
        let k = nth_key(a.key_sort, (n - 1) as nat);
        proof {
            lemma_select_smaller(a, k);
        }
        match (flatten_element_bytes(a, (n - 1) as nat), flatten_bytes(array_select(a, k))) {
            (Some(x), Some(y)) => Some(x + y),
            _ => None,
        }
    }
}

/// What an array holds is smaller than the array.
pub proof fn lemma_select_smaller(a: ArrayView, k: ValueView)
    ensures
        decreases_to!(a => array_select(a, k)),
{
    if has_key(a.entries, k) {
        let i = key_index(a.entries, k);
        assert(0 <= i < a.entries.len());
        assert(decreases_to!(a => a.entries));
        assert(decreases_to!(a.entries => a.entries[i]));
        assert(decreases_to!(a.entries[i] => a.entries[i].1));
    } else {
        assert(decreases_to!(a => a.default));
    }
}

/// A number as an element of the scalar field of BLS12-381, in 32 bytes.
pub open spec fn scalar_bytes(n: nat) -> Seq<u8> {
    le_bytes(n % bls12381_modulus(), 32)
}

/// Several numbers as elements of the scalar field of BLS12-381.
pub open spec fn all_scalar_bytes(s: Seq<nat>) -> Seq<Seq<u8>> {
    Seq::new(s.len(), |i: int| scalar_bytes(s[i]))
}

/// The Poseidon hash of numbers, each taken as an element of the scalar field of BLS12-381.
pub open spec fn poseidon_value(s: Seq<nat>) -> nat {
    le_value(poseidon_digest(all_scalar_bytes(s)))
}

/// Whether there are values, all of them elements of one field.
pub open spec fn one_field(s: Seq<ValueView>) -> bool {
    &&& s.len() > 0
    &&& s[0] is Field
    &&& forall|i: int|
        0 <= i < s.len() ==> (#[trigger] s[i]) is Field && s[i]->Field_0.ty == s[0]->Field_0.ty
}

/// The representatives of field elements.
pub open spec fn representatives(s: Seq<ValueView>) -> Seq<nat> {
    Seq::new(s.len(), |i: int| s[i]->Field_0.i)
}

/// The function `PlonkMul2`: the square of its argument plus the argument.
pub open spec fn plonk_mul2(args: Seq<ValueView>) -> Option<FieldVView> {
    match pf_arg(args, 0) {
        Some(x) => if args.len() == 1 {
            Some(field_plus(field_times(x, x), x))
        } else {
            None
        },
        None => None,
    }
}

/// The function `midnight_poseidon`: the hash of all field elements in its arguments.
pub open spec fn poseidon_result(args: Seq<ValueView>) -> Option<FieldVView> {
    match flatten_all(args, args.len()) {
        Some(s) => if one_field(s) && s[0]->Field_0.ty.modulus() > 0 {
            Some(field_new(s[0]->Field_0.ty, poseidon_value(representatives(s)) as int))
        } else {
            None
        },
        None => None,
    }
}

/// Whether a value is a bit-vector that is a byte.
pub open spec fn is_byte(v: ValueView) -> bool {
    v is BitVector && v->BitVector_0.uint < 256
}

/// The bytes that bit-vectors are.
pub open spec fn byte_values(s: Seq<ValueView>) -> Seq<u8> {
    Seq::new(s.len(), |i: int| s[i]->BitVector_0.uint as u8)
}

/// Bytes as bit-vectors of width 8.
pub open spec fn byte_items(s: Seq<u8>) -> Seq<ValueView> {
    Seq::new(s.len(), |i: int| ValueView::BitVector(BvView { uint: s[i] as nat, width: 8 }))
}

/// Bytes as an array of bit-vectors of width 8, with the scalars of BLS12-381 for keys.
pub open spec fn byte_array(s: Seq<u8>) -> ArrayView {
    array_of(
        SortView::Field(FieldTView::FBls12381),
        default_of(SortView::BitVector(8)),
        byte_items(s),
        s.len(),
    )
}

/// The 32 bytes of a digest.
pub open spec fn digest_bytes(digest: Seq<u8>) -> Seq<u8> {
    Seq::new(32, |i: int| digest[i])
}

/// The function `midnight_sha256`: the digest of all bytes in its arguments.
pub open spec fn sha256_result(args: Seq<ValueView>) -> Option<ArrayView> {
    match flatten_all(args, args.len()) {
        Some(s) => if 0 < s.len() < 0x2000_0000_0000_0000 && forall|i: int|
            0 <= i < s.len() ==> is_byte(#[trigger] s[i]) {
            Some(byte_array(digest_bytes(sha256_digest(byte_values(s)))))
        } else {
            None
        },
        None => None,
    }
}

/// The node over `acc` and a sibling: the sibling is on the right where the position is one,
/// and on the left otherwise.
pub open spec fn merkle_step(acc: nat, sibling: nat, position: nat) -> nat {
    if position == 1 {
        poseidon_value(seq![acc, sibling, 0])
    } else {
        poseidon_value(seq![sibling, acc, 0])
    }
}

/// The node that `n` steps from `leaf` lead to.
pub open spec fn merkle_root(leaf: nat, siblings: Seq<nat>, positions: Seq<nat>, n: nat) -> nat
    decreases n,
{
    if n == 0 {
        leaf
    } else {
        merkle_step(
            merkle_root(leaf, siblings, positions, (n - 1) as nat),
            siblings[n - 1],
            positions[n - 1],
        )
    }
}

/// What the leaf of a tree over a digest is hashed from: its two halves, most significant byte
/// first, and zero.
pub open spec fn merkle_leaf_inputs(digest: Seq<u8>) -> Seq<nat> {
    seq![be_value(digest.subrange(0, 16)), be_value(digest.subrange(16, 32)), 0]
}

/// The leaf of a tree over a digest.
pub open spec fn merkle_leaf(digest: Seq<u8>) -> nat {
    poseidon_value(merkle_leaf_inputs(digest))
}

/// Whether a value is a field element that is zero or one.
pub open spec fn is_position(v: ValueView) -> bool {
    v is Field && v->Field_0.i <= 1
}

/// The function `midnight_hybrid_mt`: the root of a tree over the digest of 32 bytes, along
/// siblings and positions.
pub open spec fn hybrid_mt_result(args: Seq<ValueView>) -> Option<FieldVView> {
    if args.len() == 3 {
        match (flatten_bytes(args[0]), flatten(args[1]), flatten(args[2])) {
            (Some(bytes), Some(siblings), Some(positions)) => if bytes.len() == 32 && one_field(
                siblings,
            ) && siblings[0]->Field_0.ty.modulus() > 0 && siblings.len() == positions.len()
                && forall|i: int|
                0 <= i < positions.len() ==> is_position(#[trigger] positions[i]) {
                Some(
                    field_new(
                        siblings[0]->Field_0.ty,
                        merkle_root(
                            merkle_leaf(sha256_digest(bytes)),
                            representatives(siblings),
                            representatives(positions),
                            siblings.len(),
                        ) as int,
                    ),
                )
            } else {
                None
            },
            _ => None,
        }
    } else {
        None
    }
}

/// The value of a function that is known by its name.
pub open spec fn call_result(name: Seq<char>, args: Seq<ValueView>) -> Option<ValueView> {
    if name == "PlonkMul2"@ {
        pf_value(plonk_mul2(args))
    } else if name == "midnight_poseidon"@ {
        pf_value(poseidon_result(args))
    } else if name == "midnight_sha256"@ {
        array_value(sha256_result(args))
    } else if name == "midnight_hybrid_mt"@ {
        pf_value(hybrid_mt_result(args))
    } else {
        None
    }
}

/// How many bytes a challenge below `modulus` is drawn from: enough for it to be all but
/// uniform. This is a rule of this library.
pub open spec fn challenge_length(modulus: nat) -> nat {
    (bit_length(modulus) + 7) / 8 + 16
}

/// The challenge in the field `f` for a name with the given hash: the hash seeds a generator,
/// and the bytes that it gives are taken as a number. This is a rule of this library; the
/// elements are not those that `random_v` of the crate `circ_fields` draws.
pub open spec fn challenge_value(hash: u64, f: FieldTView) -> FieldVView {
    field_new(
        f,
        le_value(chacha_stream(le_bytes(hash as nat, 32), challenge_length(f.modulus()))) as int,
    )
}

/// Whether a challenge can be drawn from the field.
pub open spec fn can_challenge(f: FieldTView) -> bool {
    f.modulus() > 0 && challenge_length(f.modulus()) <= usize::MAX
}

/// The value of `op` on `args`, with the values of variables in `env`; nothing where the
/// operator does not accept its arguments.
///
/// `mode` says what becomes of a field element that is too large for a bit-vector.
pub open spec fn op_result(
    op: Op,
    args: Seq<ValueView>,
    env: Map<Seq<char>, ValueView>,
    mode: FieldToBv,
) -> Option<ValueView>
    decreases op, 0nat,
{
    match op {
        Op::Var(v) => if env.contains_key(v.name@) {
            Some(env[v.name@])
        } else {
            None
        },
        Op::Const(c) => Some(c@),
        Op::Eq => match (arg(args, 0), arg(args, 1)) {
            (Some(a), Some(b)) => Some(ValueView::Bool(a == b)),
            _ => None,
        },
        Op::Ite => match bool_arg(args, 0) {
            Some(true) => arg(args, 1),
            Some(false) => arg(args, 2),
            None => None,
        },
        Op::Not => match bool_arg(args, 0) {
            Some(b) => Some(ValueView::Bool(!b)),
            None => None,
        },
        Op::Implies => bool_value(implies_result(args)),
        Op::BoolNaryOp(o) => bool_value(bool_nary(o, args)),
        Op::BoolMaj => bool_value(majority(args)),
        Op::BvBit(i) => match bv_arg(args, 0) {
            Some(a) => Some(ValueView::Bool(bit(a.uint, i as nat % 0x1_0000_0000))),
            None => None,
        },
        Op::BvConcat => bv_value(concat_all(args)),
        Op::BvExtract(h, l) => match bv_arg(args, 0) {
            Some(a) => if l <= h < a.width {
                Some(ValueView::BitVector(bv_extract(a, h as nat, l as nat)))
            } else {
                None
            },
            None => None,
        },
        Op::BvBinOp(o) => bv_value(bv_binary_result(o, args)),
        Op::BvUnOp(o) => match bv_arg(args, 0) {
            Some(a) => Some(ValueView::BitVector(bv_unary(o, a))),
            None => None,
        },
        Op::BvNaryOp(o) => bv_value(bv_nary(o, args)),
        Op::BvBinPred(o) => match (bv_arg(args, 0), bv_arg(args, 1)) {
            (Some(a), Some(b)) => Some(ValueView::Bool(bv_compare(o, a, b))),
            _ => None,
        },
        Op::BvSext(n) => match bv_arg(args, 0) {
            Some(a) => if a.width % 0x1_0000_0000 > 0 && a.width + n <= usize::MAX {
                Some(ValueView::BitVector(bv_sext(a, n as nat)))
            } else {
                None
            },
            None => None,
        },
        Op::BvUext(n) => match bv_arg(args, 0) {
            Some(a) => if a.width + n <= usize::MAX {
                Some(ValueView::BitVector(BvView { uint: a.uint, width: a.width + n as nat }))
            } else {
                None
            },
            None => None,
        },
        Op::BoolToBv => match bool_arg(args, 0) {
            Some(b) => Some(
                ValueView::BitVector(
                    BvView {
                        uint: if b {
                            1
                        } else {
                            0
                        },
                        width: 1,
                    },
                ),
            ),
            None => None,
        },
        Op::PfUnOp(o) => match pf_arg(args, 0) {
            Some(a) => pf_value(pf_unary(o, a)),
            None => None,
        },
        Op::PfDiv => pf_value(pf_quotient(args)),
        Op::PfNaryOp(o) => pf_value(pf_nary(o, args)),
        Op::PfToBv(w) => match pf_arg(args, 0) {
            Some(a) => bv_value(pf_bits(mode, w as nat, a)),
            None => None,
        },
        Op::PfToInt => match pf_arg(args, 0) {
            Some(a) => Some(ValueView::Int(a.i as int)),
            None => None,
        },
        Op::PfToBoolTrusted => match pf_arg(args, 0) {
            Some(a) => if a.i <= 1 {
                Some(ValueView::Bool(a.i == 1))
            } else {
                None
            },
            None => None,
        },
        Op::PfFitsInBits(n) => match pf_arg(args, 0) {
            Some(a) => Some(ValueView::Bool(bit_length(a.i) + 1 <= n as nat % 0x1_0000_0000)),
            None => None,
        },
        Op::PfChallenge(c) => if can_challenge(c@.field) {
            Some(ValueView::Field(challenge_value(c@.hash, c@.field)))
        } else {
            None
        },
        Op::UbvToPf(f) => match bv_arg(args, 0) {
            Some(a) => pf_value(pf_of_int(f@, Some(a.uint as int))),
            None => None,
        },
        Op::IntNaryOp(o) => int_value(int_nary(o, args)),
        Op::IntBinOp(o) => int_value(int_binary_result(o, args)),
        Op::IntBinPred(o) => match (int_arg(args, 0), int_arg(args, 1)) {
            (Some(a), Some(b)) => Some(ValueView::Bool(int_compare(o, a, b))),
            _ => None,
        },
        Op::IntUnOp(IntUnOp::Neg) => match int_arg(args, 0) {
            Some(a) => Some(ValueView::Int(-a)),
            None => None,
        },
        Op::IntSize => match int_arg(args, 0) {
            Some(a) => bv_value(int_size(a)),
            None => None,
        },
        Op::IntToBv(w) => match int_arg(args, 0) {
            Some(a) => bv_value(int_bits(w as nat, a)),
            None => None,
        },
        Op::IntToPf(f) => pf_value(pf_of_int(f@, int_arg(args, 0))),
        Op::Witness(_) => arg(args, 0),
        Op::Tuple => Some(ValueView::Tuple(args)),
        Op::Field(i) => match tuple_arg(args, 0) {
            Some(t) => arg(t, i as int),
            None => None,
        },
        Op::Update(i) => tuple_value(update_result(i as int, args)),
        Op::Array(o) => array_value(array_result(o.key@, o.val@, args)),
        Op::Select => select_result(args),
        Op::Store => array_value(store_result(args)),
        Op::CStore => array_value(cond_store_result(args)),
        Op::Fill(o) => match arg(args, 0) {
            Some(v) => Some(ValueView::Array(array_fill(o.key_sort@, v, o.size as nat))),
            None => None,
        },
        Op::ArrayMap(inner) => match op_sort(op, value_sorts(args)) {
            Some(SortView::Array(k, v, size)) => match index_count(*k, size) {
                Some(n) => match map_items(*inner, args, *k, n, env, mode) {
                    Some(items) => if inhabited(*v) {
                        Some(ValueView::Array(array_of(*k, default_of(*v), items, size)))
                    } else {
                        None
                    },
                    None => None,
                },
                None => None,
            },
            _ => None,
        },
        Op::Rot(n) => match array_arg(args, 0) {
            Some(a) => array_value(rot_result(n as nat, a)),
            None => None,
        },
        Op::UndefinedFnCall(c) => call_result(c.name@, args),
    }
}

/// The values of `op` on the elements of arrays at the first `n` keys of the sort `k`.
pub open spec fn map_items(
    op: Op,
    args: Seq<ValueView>,
    k: SortView,
    n: nat,
    env: Map<Seq<char>, ValueView>,
    mode: FieldToBv,
) -> Option<Seq<ValueView>>
    decreases op, n,
{
    if n == 0 {
        Some(Seq::empty())
    } else {
        match (
            map_items(op, args, k, (n - 1) as nat, env, mode),
            op_result(op, slice_at(args, nth_key(k, (n - 1) as nat)), env, mode),
        ) {
            (Some(items), Some(v)) => Some(items.push(v)),
            _ => None,
        }
    }
}

} // verus!
