//! The functions that the interpreter knows by their names, and the flattening of their
//! arguments.

use crate::args::{arg_views, nth_pf, value_option};
use crate::bigint::BigInt;
use crate::bignat::BigNat;
use crate::bv::BitVector;
use crate::bytes::{le_value, lemma_le_bytes, lemma_le_bytes_of_value};
use crate::compound::array_option;
use crate::field::{bls12381_modulus, field_new, FieldT, FieldV};
use crate::outside::{byte_views, canonical, poseidon, poseidon_digest, sha256, sha256_digest};
use crate::scalar::{at_most_one, pf_option};
use crate::semantics::{
    all_scalar_bytes, byte_array, byte_items, byte_values, call_result, digest_bytes, flatten,
    flatten_all, flatten_all_bytes, flatten_bytes, flatten_element_bytes, flatten_elements,
    hybrid_mt_result, is_byte, is_position, lemma_select_smaller, merkle_leaf, merkle_leaf_inputs,
    merkle_root, merkle_step, one_field, plonk_mul2, poseidon_result, representatives, scalar_bytes,
    sha256_result,
};
use crate::sort::Sort;
use crate::value::{
    index_count, nth_key, value_view, value_views, Array, ArrayView, Value, ValueView,
};
use vstd::arithmetic::div_mod::lemma_small_mod;
use vstd::arithmetic::power2::{lemma2_to64, lemma_pow2_adds, pow2};
use vstd::prelude::*;
use vstd::slice::slice_subrange;

verus! {

/// Where the first few of several values cannot be flattened, nor can more of them.
proof fn lemma_flatten_all_prefix(s: Seq<ValueView>, m: nat, n: nat)
    requires
        m <= n <= s.len(),
        flatten_all(s, m) is None,
    ensures
        flatten_all(s, n) is None,
    decreases n,
{
    if m < n {
        lemma_flatten_all_prefix(s, m, (n - 1) as nat);
    }
}

/// Where the first few elements of an array cannot be flattened, nor can more of them.
proof fn lemma_flatten_elements_prefix(a: ArrayView, m: nat, n: nat)
    requires
        m <= n,
        flatten_elements(a, m) is None,
    ensures
        flatten_elements(a, n) is None,
    decreases n,
{
    if m < n {
        lemma_flatten_elements_prefix(a, m, (n - 1) as nat);
    }
}

/// Appends the bit-vectors and field elements in a value, and says whether it holds nothing
/// else.
fn try_push_fields(v: &Value, out: &mut Vec<Value>) -> (r: bool)
    ensures
        r == (flatten(v@) is Some),
        r ==> value_views(final(out)@) == value_views(old(out)@) + flatten(v@)->0,
    decreases v@,
{
    let ghost start = value_views(out@);
    match v {
        Value::Field(_) | Value::BitVector(_) => {
            out.push(v.clone());
            assert(value_views(out@) =~= start + seq![v@]);
            true
        },
        Value::Tuple(t) => {
            let ghost s = value_views(t@);
            assert(v@ == ValueView::Tuple(s));
            let mut i: usize = 0;
            assert(value_views(out@) =~= start + Seq::empty());
            while i < t.len()
                invariant
                    i <= t@.len(),
                    s == value_views(t@),
                    v@ == ValueView::Tuple(s),
                    flatten_all(s, i as nat) is Some,
                    value_views(out@) == start + flatten_all(s, i as nat)->0,
                decreases t@.len() - i,
            {
                proof {
                    assert(s[i as int] == t@[i as int]@);
                    assert(decreases_to!(v@ => v@->Tuple_0));
                    assert(decreases_to!(s => s[i as int]));
                }
                if !try_push_fields(&t[i], out) {
                    proof {
                        lemma_flatten_all_prefix(s, (i + 1) as nat, s.len());
                    }
                    return false;
                }
                assert(value_views(out@) =~= start + flatten_all(s, (i + 1) as nat)->0);
                i = i + 1;
            }
            true
        },
        Value::Array(a) => {
            assert(v@ == ValueView::Array(a@));
            let n: usize = match a.index_count() {
                Some(n) => n,
                None => {
                    return false;
                },
            };
            let mut i: usize = 0;
            assert(value_views(out@) =~= start + Seq::empty());
            while i < n
                invariant
                    i <= n,
                    v@ == ValueView::Array(a@),
                    index_count(a@.key_sort, a@.size) == Some(n as nat),
                    flatten_elements(a@, i as nat) is Some,
                    value_views(out@) == start + flatten_elements(a@, i as nat)->0,
                decreases n - i,
            {
                let key: Value = a.key_sort().nth_key(i);
                proof {
                    assert(decreases_to!(v@ => v@->Array_0));
                    lemma_select_smaller(a@, key@);
                }
                let el: &Value = a.select(&key);
                if !try_push_fields(el, out) {
                    proof {
                        lemma_flatten_elements_prefix(a@, (i + 1) as nat, n as nat);
                    }
                    return false;
                }
                assert(value_views(out@) =~= start + flatten_elements(a@, (i + 1) as nat)->0);
                i = i + 1;
            }
            true
        },
        _ => false,
    }
}

/// Appends the bit-vectors and field elements in a value, from left to right.
pub fn push_fields_from_value(v: &Value, out: &mut Vec<Value>)
    requires
        flatten(v@) is Some,
    ensures
        value_views(final(out)@) == value_views(old(out)@) + flatten(v@)->0,
{
    let _done: bool = try_push_fields(v, out);
}

/// Where the first few of several values are not bytes, nor are more of them.
proof fn lemma_flatten_all_bytes_prefix(s: Seq<ValueView>, m: nat, n: nat)
    requires
        m <= n <= s.len(),
        flatten_all_bytes(s, m) is None,
    ensures
        flatten_all_bytes(s, n) is None,
    decreases n,
{
    if m < n {
        lemma_flatten_all_bytes_prefix(s, m, (n - 1) as nat);
    }
}

/// Where the first few elements of an array are not bytes, nor are more of them.
proof fn lemma_flatten_element_bytes_prefix(a: ArrayView, m: nat, n: nat)
    requires
        m <= n,
        flatten_element_bytes(a, m) is None,
    ensures
        flatten_element_bytes(a, n) is None,
    decreases n,
{
    if m < n {
        lemma_flatten_element_bytes_prefix(a, m, (n - 1) as nat);
    }
}

/// The byte that a bit-vector is, where it is one.
fn byte_of(b: &BitVector) -> (r: Option<u8>)
    ensures
        r == (if b@.uint < 256 {
            Some(b@.uint as u8)
        } else {
            None
        }),
        b@.uint < pow2(b@.width),
{
    match b.uint().to_usize() {
        Some(n) => if n < 256 {
            Some(n as u8)
        } else {
            None
        },
        None => None,
    }
}

/// Appends the bytes in a value, and says whether it holds nothing else.
fn try_push_bytes(v: &Value, out: &mut Vec<u8>) -> (r: bool)
    ensures
        r == (flatten_bytes(v@) is Some),
        r ==> final(out)@ == old(out)@ + flatten_bytes(v@)->0,
    decreases v@,
{
    let ghost start = out@;
    match v {
        Value::BitVector(b) => {
            proof {
                lemma2_to64();
            }
            if b.width() != 8 {
                return false;
            }
            match byte_of(b) {
                Some(n) => {
                    out.push(n);
                    assert(out@ =~= start + seq![n]);
                    true
                },
                None => false,
            }
        },
        Value::Tuple(t) => {
            let ghost s = value_views(t@);
            assert(v@ == ValueView::Tuple(s));
            let mut i: usize = 0;
            assert(out@ =~= start + Seq::empty());
            while i < t.len()
                invariant
                    i <= t@.len(),
                    s == value_views(t@),
                    v@ == ValueView::Tuple(s),
                    flatten_all_bytes(s, i as nat) is Some,
                    out@ == start + flatten_all_bytes(s, i as nat)->0,
                decreases t@.len() - i,
            {
                proof {
                    assert(s[i as int] == t@[i as int]@);
                    assert(decreases_to!(v@ => v@->Tuple_0));
                    assert(decreases_to!(s => s[i as int]));
                }
                if !try_push_bytes(&t[i], out) {
                    proof {
                        lemma_flatten_all_bytes_prefix(s, (i + 1) as nat, s.len());
                    }
                    return false;
                }
                assert(out@ =~= start + flatten_all_bytes(s, (i + 1) as nat)->0);
                i = i + 1;
            }
            true
        },
        Value::Array(a) => {
            assert(v@ == ValueView::Array(a@));
            let n: usize = match a.index_count() {
                Some(n) => n,
                None => {
                    return false;
                },
            };
            let mut i: usize = 0;
            assert(out@ =~= start + Seq::empty());
            while i < n
                invariant
                    i <= n,
                    v@ == ValueView::Array(a@),
                    index_count(a@.key_sort, a@.size) == Some(n as nat),
                    flatten_element_bytes(a@, i as nat) is Some,
                    out@ == start + flatten_element_bytes(a@, i as nat)->0,
                decreases n - i,
            {
                let key: Value = a.key_sort().nth_key(i);
                proof {
                    assert(decreases_to!(v@ => v@->Array_0));
                    lemma_select_smaller(a@, key@);
                }
                let el: &Value = a.select(&key);
                if !try_push_bytes(el, out) {
                    proof {
                        lemma_flatten_element_bytes_prefix(a@, (i + 1) as nat, n as nat);
                    }
                    return false;
                }
                assert(out@ =~= start + flatten_element_bytes(a@, (i + 1) as nat)->0);
                i = i + 1;
            }
            true
        },
        _ => false,
    }
}

/// Appends the bytes in a value, from left to right: each is a bit-vector of width 8, and
/// they stand in tuples and arrays.
pub fn push_bytes_from_value(v: &Value, out: &mut Vec<u8>)
    requires
        flatten_bytes(v@) is Some,
    ensures
        final(out)@ == old(out)@ + flatten_bytes(v@)->0,
{
    let _done: bool = try_push_bytes(v, out);
}

/// The bit-vectors and field elements in several values.
fn flatten_args(args: &[&Value]) -> (r: Option<Vec<Value>>)
    ensures
        match r {
            Some(s) => flatten_all(arg_views(args@), args@.len()) == Some(value_views(s@)),
            None => flatten_all(arg_views(args@), args@.len()) is None,
        },
{
    let ghost s = arg_views(args@);
    let mut out: Vec<Value> = Vec::new();
    let mut i: usize = 0;
    assert(value_views(out@) =~= Seq::empty());
    while i < args.len()
        invariant
            i <= args@.len(),
            s == arg_views(args@),
            flatten_all(s, i as nat) == Some(value_views(out@)),
        decreases args@.len() - i,
    {
        if !try_push_fields(args[i], &mut out) {
            proof {
                lemma_flatten_all_prefix(s, (i + 1) as nat, s.len());
            }
            return None;
        }
        i = i + 1;
    }
    Some(out)
}

/// A number as an element of the scalar field of BLS12-381, in 32 bytes.
pub fn nat_to_f(n: &BigNat) -> (r: Vec<u8>)
    ensures
        r@ == scalar_bytes(n@),
        canonical(r@),
{
    let m: BigNat = FieldT::FBls12381.modulus();
    let (_q, rem): (BigNat, BigNat) = n.div_rem(&m);
    proof {
        lemma2_to64();
        lemma_pow2_adds(64, 64);
        lemma_pow2_adds(128, 128);
        lemma_le_bytes(rem@, 32);
    }
    rem.to_le_bytes(32)
}

/// A field element as an element of the scalar field of BLS12-381, in 32 bytes.
pub fn pf_to_f(x: &FieldV) -> (r: Vec<u8>)
    ensures
        r@ == scalar_bytes(x@.i),
        canonical(r@),
{
    nat_to_f(x.i())
}

/// The element of a field for the bytes of a number, least significant byte first.
pub fn f_to_pf(fty: &FieldT, x: &Vec<u8>) -> (r: FieldV)
    requires
        fty@.modulus() > 0,
    ensures
        r@ == field_new(fty@, le_value(x@) as int),
{
    fty.new_v(&BigInt::from_nat(BigNat::from_le_bytes(x.as_slice())))
}

/// The function `PlonkMul2`.
fn eval_plonk_mul2(args: &[&Value]) -> (r: Option<FieldV>)
    ensures
        pf_option(r) == plonk_mul2(arg_views(args@)),
{
    match nth_pf(args, 0) {
        Some(x) => if args.len() == 1 {
            Some(x.times(x).plus(x))
        } else {
            None
        },
        None => None,
    }
}

/// The field of several elements, and each of them as an element of the scalar field of
/// BLS12-381; nothing where they are not elements of one field.
fn scalars_of(vals: &Vec<Value>) -> (r: Option<(FieldT, Vec<Vec<u8>>)>)
    ensures
        match r {
            Some((fty, bytes)) => {
                &&& one_field(value_views(vals@))
                &&& fty@ == value_views(vals@)[0]->Field_0.ty
                &&& fty@.modulus() > 0
                &&& byte_views(bytes@) == all_scalar_bytes(representatives(value_views(vals@)))
                &&& forall|i: int| 0 <= i < bytes@.len() ==> canonical((#[trigger] bytes@[i])@)
            },
            None => !one_field(value_views(vals@)),
        },
{
    let ghost s = value_views(vals@);
    if vals.len() == 0 {
        return None;
    }
    assert(s[0] == vals@[0]@);
    let fty: FieldT = match &vals[0] {
        Value::Field(f) => {
            // a field with an element is not empty
            let _i: &BigNat = f.i();
            f.ty().clone()
        },
        _ => {
            return None;
        },
    };
    let mut out: Vec<Vec<u8>> = Vec::new();
    let mut i: usize = 0;
    while i < vals.len()
        invariant
            0 < vals@.len(),
            i <= vals@.len(),
            s == value_views(vals@),
            s[0] is Field,
            fty@ == s[0]->Field_0.ty,
            out@.len() == i,
            forall|j: int|
                0 <= j < i ==> (#[trigger] s[j]) is Field && s[j]->Field_0.ty == fty@
                    && out@[j]@ == scalar_bytes(s[j]->Field_0.i),
            forall|j: int| 0 <= j < i ==> canonical((#[trigger] out@[j])@),
        decreases vals@.len() - i,
    {
        assert(s[i as int] == vals@[i as int]@);
        match &vals[i] {
            Value::Field(f) => {
                if !f.ty().same(&fty) {
                    return None;
                }
                out.push(pf_to_f(f));
            },
            _ => {
                return None;
            },
        }
        i = i + 1;
    }
    assert(byte_views(out@) =~= all_scalar_bytes(representatives(s)));
    Some((fty, out))
}

/// The function `midnight_poseidon`.
fn eval_poseidon(args: &[&Value]) -> (r: Option<FieldV>)
    ensures
        pf_option(r) == poseidon_result(arg_views(args@)),
{
    match flatten_args(args) {
        Some(vals) => match scalars_of(&vals) {
            Some((fty, inputs)) => {
                let out: Vec<u8> = poseidon(&inputs);
                Some(f_to_pf(&fty, &out))
            },
            None => None,
        },
        None => None,
    }
}

/// The bytes that bit-vectors are; nothing where one is not.
fn bytes_of(vals: &Vec<Value>) -> (r: Option<Vec<u8>>)
    ensures
        match r {
            Some(bytes) => {
                &&& forall|i: int|
                    0 <= i < vals@.len() ==> is_byte(#[trigger] value_views(vals@)[i])
                &&& bytes@ == byte_values(value_views(vals@))
            },
            None => !(forall|i: int|
                0 <= i < vals@.len() ==> is_byte(#[trigger] value_views(vals@)[i])),
        },
{
    let ghost s = value_views(vals@);
    let mut out: Vec<u8> = Vec::new();
    let mut i: usize = 0;
    while i < vals.len()
        invariant
            i <= vals@.len(),
            s == value_views(vals@),
            out@.len() == i,
            forall|j: int|
                0 <= j < i ==> is_byte(#[trigger] s[j]) && out@[j] == s[j]->BitVector_0.uint as u8,
        decreases vals@.len() - i,
    {
        assert(s[i as int] == vals@[i as int]@);
        match &vals[i] {
            Value::BitVector(b) => match byte_of(b) {
                Some(x) => {
                    out.push(x);
                },
                None => {
                    assert(!is_byte(s[i as int]));
                    return None;
                },
            },
            _ => {
                assert(!is_byte(s[i as int]));
                return None;
            },
        }
        i = i + 1;
    }
    assert(out@ =~= byte_values(s));
    Some(out)
}

/// Bytes as an array of bit-vectors of width 8, with the scalars of BLS12-381 for keys.
pub fn array_of_bytes(bytes: &Vec<u8>) -> (r: Array)
    ensures
        r@ == byte_array(bytes@),
{
    let mut items: Vec<Value> = Vec::new();
    let mut i: usize = 0;
    proof {
        lemma2_to64();
    }
    while i < bytes.len()
        invariant
            i <= bytes@.len(),
            pow2(8) == 256,
            items@.len() == i,
            forall|j: int|
                0 <= j < i ==> value_view(#[trigger] items@[j]) == byte_items(bytes@)[j],
        decreases bytes@.len() - i,
    {
        proof {
            lemma_small_mod(bytes@[i as int] as nat, 256);
        }
        items.push(Value::BitVector(BitVector::wrap(&BigNat::from_usize(bytes[i] as usize), 8)));
        i = i + 1;
    }
    assert(value_views(items@) =~= byte_items(bytes@));
    proof {
        lemma_small_mod(0, 256);
    }
    let zero: Value = Value::BitVector(BitVector::wrap(&BigNat::zero(), 8));
    Array::of_items(Sort::Field(FieldT::FBls12381), zero, items, bytes.len())
}

/// The function `midnight_sha256`.
fn eval_sha256(args: &[&Value]) -> (r: Option<Array>)
    ensures
        array_option(r) == sha256_result(arg_views(args@)),
{
    match flatten_args(args) {
        Some(vals) => {
            if vals.len() == 0 || vals.len() as u128 >= 0x2000_0000_0000_0000 {
                return None;
            }
            match bytes_of(&vals) {
                Some(bytes) => {
                    let digest: Vec<u8> = sha256(&bytes);
                    assert(digest_bytes(digest@) =~= digest@);
                    Some(array_of_bytes(&digest))
                },
                None => None,
            }
        },
        None => None,
    }
}

/// What the node over `acc` and a sibling is hashed from, each as an element of the scalar
/// field of BLS12-381: the sibling comes second where it is on the right, and first otherwise.
pub fn step_inputs(acc: &Vec<u8>, sibling: &Vec<u8>, is_right: bool) -> (r: Vec<Vec<u8>>)
    requires
        canonical(acc@),
        canonical(sibling@),
    ensures
        byte_views(r@) == (if is_right {
            seq![acc@, sibling@, scalar_bytes(0)]
        } else {
            seq![sibling@, acc@, scalar_bytes(0)]
        }),
        forall|i: int| 0 <= i < r@.len() ==> canonical((#[trigger] r@[i])@),
{
    let zero: Vec<u8> = nat_to_f(&BigNat::zero());
    let mut inputs: Vec<Vec<u8>> = Vec::new();
    if is_right {
        inputs.push(acc.clone());
        inputs.push(sibling.clone());
    } else {
        inputs.push(sibling.clone());
        inputs.push(acc.clone());
    }
    inputs.push(zero);
    inputs
}

/// A step on the bytes of elements is the step on the numbers that they stand for.
proof fn lemma_merkle_step(acc: Seq<u8>, sibling: nat, position: nat)
    requires
        canonical(acc),
    ensures
        merkle_step(le_value(acc), sibling, position) == le_value(
            poseidon_digest(
                if position == 1 {
                    seq![acc, scalar_bytes(sibling), scalar_bytes(0)]
                } else {
                    seq![scalar_bytes(sibling), acc, scalar_bytes(0)]
                },
            ),
        ),
{
    let a = le_value(acc);
    lemma_scalar_of_canonical(acc);
    assert(all_scalar_bytes(seq![a, sibling, 0]) =~= seq![
        acc,
        scalar_bytes(sibling),
        scalar_bytes(0),
    ]);
    assert(all_scalar_bytes(seq![sibling, a, 0]) =~= seq![
        scalar_bytes(sibling),
        acc,
        scalar_bytes(0),
    ]);
}

/// The bytes of a field element are those of the number that they stand for.
proof fn lemma_scalar_of_canonical(b: Seq<u8>)
    requires
        canonical(b),
    ensures
        scalar_bytes(le_value(b)) == b,
{
    lemma_small_mod(le_value(b), bls12381_modulus());
    lemma_le_bytes_of_value(b);
}

/// What the leaf over a digest is hashed from, each as an element of the scalar field of
/// BLS12-381: the two halves of the digest, most significant byte first.
pub fn leaf_inputs(digest: &Vec<u8>) -> (r: Vec<Vec<u8>>)
    requires
        digest@.len() == 32,
    ensures
        byte_views(r@) == all_scalar_bytes(merkle_leaf_inputs(digest@)),
        forall|i: int| 0 <= i < r@.len() ==> canonical((#[trigger] r@[i])@),
{
    let lo: BigNat = BigNat::from_be_bytes(slice_subrange(digest.as_slice(), 0, 16));
    let hi: BigNat = BigNat::from_be_bytes(slice_subrange(digest.as_slice(), 16, 32));
    let mut inputs: Vec<Vec<u8>> = Vec::new();
    inputs.push(nat_to_f(&lo));
    inputs.push(nat_to_f(&hi));
    inputs.push(nat_to_f(&BigNat::zero()));
    assert(byte_views(inputs@) =~= all_scalar_bytes(merkle_leaf_inputs(digest@)));
    inputs
}

/// Which of several field elements are one; nothing where one is neither zero nor one.
fn positions_of(vals: &Vec<Value>) -> (r: Option<Vec<bool>>)
    ensures
        match r {
            Some(bits) => {
                &&& forall|i: int|
                    0 <= i < vals@.len() ==> is_position(#[trigger] value_views(vals@)[i])
                &&& bits@.len() == vals@.len()
                &&& forall|i: int|
                    0 <= i < vals@.len() ==> #[trigger] bits@[i] == (representatives(
                        value_views(vals@),
                    )[i] == 1)
            },
            None => !(forall|i: int|
                0 <= i < vals@.len() ==> is_position(#[trigger] value_views(vals@)[i])),
        },
{
    let ghost s = value_views(vals@);
    let mut out: Vec<bool> = Vec::new();
    let mut i: usize = 0;
    while i < vals.len()
        invariant
            i <= vals@.len(),
            s == value_views(vals@),
            out@.len() == i,
            forall|j: int| 0 <= j < i ==> is_position(#[trigger] s[j]),
            forall|j: int| 0 <= j < i ==> #[trigger] out@[j] == (representatives(s)[j] == 1),
        decreases vals@.len() - i,
    {
        assert(s[i as int] == vals@[i as int]@);
        match &vals[i] {
            Value::Field(f) => {
                if !at_most_one(f.i()) {
                    assert(!is_position(s[i as int]));
                    return None;
                }
                out.push(!f.is_zero());
            },
            _ => {
                assert(!is_position(s[i as int]));
                return None;
            },
        }
        i = i + 1;
    }
    Some(out)
}

/// The function `midnight_hybrid_mt`.
fn eval_hybrid_mt(args: &[&Value]) -> (r: Option<FieldV>)
    ensures
        pf_option(r) == hybrid_mt_result(arg_views(args@)),
{
    if args.len() != 3 {
        return None;
    }
    let ghost s = arg_views(args@);
    let mut leaf: Vec<u8> = Vec::new();
    let mut sibling_vals: Vec<Value> = Vec::new();
    let mut position_vals: Vec<Value> = Vec::new();
    proof {
        assert(s[0] == args@[0]@ && s[1] == args@[1]@ && s[2] == args@[2]@);
    }
    if !try_push_bytes(args[0], &mut leaf) || !try_push_fields(args[1], &mut sibling_vals)
        || !try_push_fields(args[2], &mut position_vals) {
        return None;
    }
    let ghost siblings = value_views(sibling_vals@);
    let ghost positions = value_views(position_vals@);
    proof {
        assert(leaf@ =~= flatten_bytes(s[0])->0);
        assert(siblings =~= flatten(s[1])->0);
        assert(positions =~= flatten(s[2])->0);
    }
    if leaf.len() != 32 || sibling_vals.len() != position_vals.len() {
        return None;
    }
    match (scalars_of(&sibling_vals), positions_of(&position_vals)) {
        (Some((fty, inputs)), Some(bits)) => {
            let ghost start = merkle_leaf(sha256_digest(leaf@));
            let ghost sibs = representatives(siblings);
            let ghost poss = representatives(positions);
            let mut acc: Vec<u8> = poseidon(&leaf_inputs(&sha256(&leaf)));
            let n: usize = inputs.len();
            let mut i: usize = 0;
            proof {
                assert(byte_views(inputs@).len() == all_scalar_bytes(sibs).len());
            }
            while i < n
                invariant
                    i <= n,
                    n == inputs@.len(),
                    n == bits@.len(),
                    n == sibs.len(),
                    n == poss.len(),
                    byte_views(inputs@) == all_scalar_bytes(sibs),
                    forall|j: int| 0 <= j < n ==> canonical((#[trigger] inputs@[j])@),
                    forall|j: int| 0 <= j < n ==> #[trigger] bits@[j] == (poss[j] == 1),
                    canonical(acc@),
                    le_value(acc@) == merkle_root(start, sibs, poss, i as nat),
                decreases n - i,
            {
                proof {
                    assert(byte_views(inputs@)[i as int] == inputs@[i as int]@);
                    assert(all_scalar_bytes(sibs)[i as int] == scalar_bytes(sibs[i as int]));
                    lemma_merkle_step(acc@, sibs[i as int], poss[i as int]);
                }
                acc = poseidon(&step_inputs(&acc, &inputs[i], bits[i]));
                i = i + 1;
            }
            Some(f_to_pf(&fty, &acc))
        },
        _ => None,
    }
}

/// What `midnight_sha256` gives is an array of 32 elements.
proof fn lemma_sha256_size(args: Seq<ValueView>)
    ensures
        match call_result("midnight_sha256"@, args) {
            Some(v) => v is Array && v->Array_0.size == 32,
            None => true,
        },
{
    reveal_strlit("PlonkMul2");
    reveal_strlit("midnight_poseidon");
    reveal_strlit("midnight_sha256");
    assert("midnight_sha256"@.len() != "PlonkMul2"@.len());
    assert("midnight_sha256"@.len() != "midnight_poseidon"@.len());
}

/// The value of a function that is known by its name; nothing for another name, or where the
/// function does not accept its arguments.
pub fn eval_call(name: &String, args: &[&Value]) -> (r: Option<Value>)
    ensures
        value_option(r) == call_result(name@, arg_views(args@)),
        name@ == "midnight_sha256"@ && r is Some ==> r->0@ is Array && r->0@->Array_0.size == 32,
{
    proof {
        lemma_sha256_size(arg_views(args@));
    }
    if *name == "PlonkMul2".to_owned() {
        match eval_plonk_mul2(args) {
            Some(f) => Some(Value::Field(f)),
            None => None,
        }
    } else if *name == "midnight_poseidon".to_owned() {
        match eval_poseidon(args) {
            Some(f) => Some(Value::Field(f)),
            None => None,
        }
    } else if *name == "midnight_sha256".to_owned() {
        match eval_sha256(args) {
            Some(a) => Some(Value::Array(a)),
            None => None,
        }
    } else if *name == "midnight_hybrid_mt".to_owned() {
        match eval_hybrid_mt(args) {
            Some(f) => Some(Value::Field(f)),
            None => None,
        }
    } else {
        None
    }
}

} // verus!
