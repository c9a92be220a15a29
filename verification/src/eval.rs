//! Evaluation of operators.

use crate::args::{
    arg_views, copies, nth, nth_array, nth_bool, nth_bv, nth_int, nth_pf, nth_tuple, value_option,
};
use crate::bigint::BigInt;
use crate::bignat::BigNat;
use crate::bv::BitVector;
use crate::calls::eval_call;
use crate::challenge::{challenge_from_hash, challenge_ready};
use crate::check::parallel;
use crate::compound::{
    arg_sorts, array_option, eval_array, eval_cond_store, eval_rot, eval_select, eval_slice,
    eval_store, eval_update,
};
use crate::env::Env;
use crate::field::FieldV;
use crate::op::{FieldToBv, IntUnOp, Op};
use crate::scalar::{
    at_most_one, bv_option, eval_bool_nary, eval_bv_binary, eval_bv_compare, eval_bv_nary,
    eval_bv_unary, eval_concat, eval_implies, eval_int_binary, eval_int_bits, eval_int_compare,
    eval_int_nary, eval_int_size, eval_majority, eval_pf_bits, eval_pf_nary, eval_pf_of_int,
    eval_pf_quotient, eval_pf_unary, int_option, pf_option,
};
use crate::semantics::{
    array_value, bool_value, bv_value, int_value, map_items, op_result, pf_value,
};
use crate::sort::{key_count, Sort, SortView};
use crate::value::{nth_key, value_sort, value_sorts, value_views, Array, Value, ValueView};
use vstd::arithmetic::div_mod::lemma_small_mod;
use vstd::arithmetic::power2::lemma2_to64;
use vstd::prelude::*;

verus! {

/// Whether an operator is a call of `midnight_sha256`, whose result has 32 elements.
pub open spec fn is_sha256(op: Op) -> bool {
    match op {
        Op::UndefinedFnCall(c) => c.name@ == "midnight_sha256"@,
        _ => false,
    }
}

/// A boolean as a value.
fn of_bool(r: Option<bool>) -> (v: Option<Value>)
    ensures
        value_option(v) == bool_value(r),
{
    match r {
        Some(b) => Some(Value::Bool(b)),
        None => None,
    }
}

/// A bit-vector as a value.
fn of_bv(r: Option<BitVector>) -> (v: Option<Value>)
    ensures
        value_option(v) == bv_value(bv_option(r)),
{
    match r {
        Some(b) => Some(Value::BitVector(b)),
        None => None,
    }
}

/// An integer as a value.
fn of_int(r: Option<BigInt>) -> (v: Option<Value>)
    ensures
        value_option(v) == int_value(int_option(r)),
{
    match r {
        Some(n) => Some(Value::Int(n)),
        None => None,
    }
}

/// A field element as a value.
fn of_pf(r: Option<FieldV>) -> (v: Option<Value>)
    ensures
        value_option(v) == pf_value(pf_option(r)),
{
    match r {
        Some(f) => Some(Value::Field(f)),
        None => None,
    }
}

/// An array as a value.
fn of_array(r: Option<Array>) -> (v: Option<Value>)
    ensures
        value_option(v) == array_value(array_option(r)),
{
    match r {
        Some(a) => Some(Value::Array(a)),
        None => None,
    }
}

/// The values of `op` on the elements of arrays at the first `n` keys of the sort `key`.
fn eval_map_items(
    op: &Op,
    args: &[&Value],
    key: &Sort,
    n: usize,
    env: &Env,
    mode: FieldToBv,
) -> (r: Option<Vec<Value>>)
    requires
        forall|i: int| 0 <= i < args@.len() ==> (#[trigger] args@[i])@ is Array,
        key_count(key@) is Some,
        n <= key_count(key@)->0,
    ensures
        match r {
            Some(items) => items@.len() == n && map_items(
                *op,
                arg_views(args@),
                key@,
                n as nat,
                env@,
                mode,
            ) == Some(value_views(items@)),
            None => map_items(*op, arg_views(args@), key@, n as nat, env@, mode) is None,
        },
    decreases op, 2nat,
{
    let ghost s = arg_views(args@);
    let mut out: Vec<Value> = Vec::new();
    let mut i: usize = 0;
    assert(value_views(out@) =~= Seq::empty());
    while i < n
        invariant
            i <= n,
            s == arg_views(args@),
            forall|j: int| 0 <= j < args@.len() ==> (#[trigger] args@[j])@ is Array,
            key_count(key@) is Some,
            n <= key_count(key@)->0,
            out@.len() == i,
            map_items(*op, s, key@, i as nat, env@, mode) == Some(value_views(out@)),
        decreases n - i,
    {
        let k: Value = key.nth_key(i);
        let elements: Vec<&Value> = eval_slice(args, &k);
        let ghost before = value_views(out@);
        match try_eval_op(op, elements.as_slice(), env, mode) {
            Some(v) => {
                out.push(v);
                assert(value_views(out@) =~= before.push(v@));
            },
            None => {
                proof {
                    lemma_map_prefix(*op, s, key@, (i + 1) as nat, n as nat, env@, mode);
                }
                return None;
            },
        }
        i = i + 1;
    }
    Some(out)
}

/// Where the operator has no value at one of the first few keys, it has none at more of them.
proof fn lemma_map_prefix(
    op: Op,
    args: Seq<ValueView>,
    k: SortView,
    m: nat,
    n: nat,
    env: Map<Seq<char>, ValueView>,
    mode: FieldToBv,
)
    requires
        m <= n,
        map_items(op, args, k, m, env, mode) is None,
    ensures
        map_items(op, args, k, n, env, mode) is None,
    decreases n,
{
    if m < n {
        lemma_map_prefix(op, args, k, m, (n - 1) as nat, env, mode);
    }
}

/// An operator applied to arrays element by element.
fn eval_map(op: &Op, args: &[&Value], env: &Env, mode: FieldToBv) -> (r: Option<Value>)
    requires
        op is ArrayMap,
    ensures
        value_option(r) == op_result(*op, arg_views(args@), env@, mode),
    decreases op, 0nat,
{
    let inner: &Op = match op {
        Op::ArrayMap(inner) => inner,
        _ => {
            return None;
        },
    };
    let sorts: Vec<Sort> = arg_sorts(args);
    match op.sort_of(&sorts) {
        Some(Sort::Array(x)) => {
            proof {
                let s = value_sorts(arg_views(args@));
                assert(parallel(s));
                assert forall|i: int|
                    0 <= i < args@.len() implies (#[trigger] args@[i])@ is Array by {
                    assert(s[i] is Array);
                    assert(s[i] == value_sort(args@[i]@));
                }
            }
            let n: usize = match x.key.keys_up_to(x.size) {
                Some(n) => n,
                None => {
                    return None;
                },
            };
            match (eval_map_items(inner, args, &x.key, n, env, mode), x.val.default_value()) {
                (Some(items), Some(d)) => {
                    Some(Value::Array(Array::of_items(x.key.clone(), d, items, x.size)))
                },
                _ => None,
            }
        },
        _ => None,
    }
}

/// The part of [`try_eval_op`] for boolean operators.
fn eval_bool_op(op: &Op, args: &[&Value], var_vals: &Env, mode: FieldToBv) -> (r: Option<Value>)
    requires
        match op {
            Op::Eq | Op::Ite | Op::Not | Op::Implies | Op::BoolNaryOp(_) | Op::BoolMaj => true,
            _ => false,
        },
    ensures
        value_option(r) == op_result(*op, arg_views(args@), var_vals@, mode),
{
    match op {
        Op::Eq => match (nth(args, 0), nth(args, 1)) {
            (Some(a), Some(b)) => Some(Value::Bool(a.same(b))),
            _ => None,
        },
        Op::Ite => match nth_bool(args, 0) {
            Some(c) => match nth(
                args,
                if c {
                    1
                } else {
                    2
                },
            ) {
                Some(v) => Some(v.clone()),
                None => None,
            },
            None => None,
        },
        Op::Not => match nth_bool(args, 0) {
            Some(b) => Some(Value::Bool(!b)),
            None => None,
        },
        Op::Implies => of_bool(eval_implies(args)),
        Op::BoolNaryOp(o) => of_bool(eval_bool_nary(*o, args)),
        _ => of_bool(eval_majority(args)),
    }
}

/// The part of [`try_eval_op`] for operators on bit-vectors.
fn eval_bv_op(op: &Op, args: &[&Value], var_vals: &Env, mode: FieldToBv) -> (r: Option<Value>)
    requires
        match op {
            Op::BvBit(_)
            | Op::BvConcat
            | Op::BvExtract(_, _)
            | Op::BvBinOp(_)
            | Op::BvUnOp(_)
            | Op::BvNaryOp(_)
            | Op::BvBinPred(_)
            | Op::BvSext(_)
            | Op::BvUext(_)
            | Op::BoolToBv
            | Op::UbvToPf(_) => true,
            _ => false,
        },
    ensures
        value_option(r) == op_result(*op, arg_views(args@), var_vals@, mode),
{
    match op {
        Op::BvConcat => {
            return of_bv(eval_concat(args));
        },
        Op::BvBinOp(o) => {
            return of_bv(eval_bv_binary(*o, args));
        },
        Op::BvNaryOp(o) => {
            return of_bv(eval_bv_nary(*o, args));
        },
        Op::BoolToBv => {
            return match nth_bool(args, 0) {
                Some(b) => {
                    proof {
                        lemma2_to64();
                        lemma_small_mod(0, 2);
                        lemma_small_mod(1, 2);
                    }
                    let n: u128 = if b {
                        1
                    } else {
                        0
                    };
                    Some(Value::BitVector(BitVector::wrap(&BigNat::from_u128(n), 1)))
                },
                None => None,
            };
        },
        _ => {},
    }
    let a: &BitVector = match nth_bv(args, 0) {
        Some(a) => a,
        None => {
            return None;
        },
    };
    match op {
        Op::BvBit(i) => Some(Value::Bool(a.uint().get_bit(*i as u128 % 0x1_0000_0000))),
        Op::BvExtract(h, l) => if *l <= *h && *h < a.width() {
            Some(Value::BitVector(a.extract(*h, *l)))
        } else {
            None
        },
        Op::BvUnOp(o) => Some(Value::BitVector(eval_bv_unary(*o, a))),
        Op::BvBinPred(o) => match nth_bv(args, 1) {
            Some(b) => Some(Value::Bool(eval_bv_compare(*o, a, b))),
            None => None,
        },
        Op::BvSext(n) => match a.width().checked_add(*n) {
            Some(_) => if a.width() as u64 % 0x1_0000_0000 > 0 {
                Some(Value::BitVector(a.sext(*n)))
            } else {
                None
            },
            None => None,
        },
        Op::BvUext(n) => match a.width().checked_add(*n) {
            Some(_) => Some(Value::BitVector(a.uext(*n))),
            None => None,
        },
        Op::UbvToPf(f) => of_pf(eval_pf_of_int(f, &BigInt::from_nat(a.uint().clone()))),
        _ => None,
    }
}

/// The part of [`try_eval_op`] for operators on field elements.
fn eval_pf_op(op: &Op, args: &[&Value], var_vals: &Env, mode: FieldToBv) -> (r: Option<Value>)
    requires
        match op {
            Op::PfUnOp(_)
            | Op::PfDiv
            | Op::PfNaryOp(_)
            | Op::PfToBv(_)
            | Op::PfToInt
            | Op::PfToBoolTrusted
            | Op::PfFitsInBits(_)
            | Op::PfChallenge(_) => true,
            _ => false,
        },
    ensures
        value_option(r) == op_result(*op, arg_views(args@), var_vals@, mode),
{
    match op {
        Op::PfDiv => {
            return of_pf(eval_pf_quotient(args));
        },
        Op::PfNaryOp(o) => {
            return of_pf(eval_pf_nary(*o, args));
        },
        Op::PfChallenge(c) => {
            return if challenge_ready(c.field()) {
                Some(Value::Field(challenge_from_hash(c.hash(), c.field())))
            } else {
                None
            };
        },
        _ => {},
    }
    let a: &FieldV = match nth_pf(args, 0) {
        Some(a) => a,
        None => {
            return None;
        },
    };
    match op {
        Op::PfUnOp(o) => of_pf(eval_pf_unary(*o, a)),
        Op::PfToBv(w) => of_bv(eval_pf_bits(mode, *w, a)),
        Op::PfToInt => Some(Value::Int(BigInt::from_nat(a.i().clone()))),
        Op::PfToBoolTrusted => if at_most_one(a.i()) {
            Some(Value::Bool(!a.is_zero()))
        } else {
            None
        },
        Op::PfFitsInBits(n) => {
            let bits: u128 = a.i().significant_bits();
            Some(Value::Bool(bits < *n as u128 % 0x1_0000_0000))
        },
        _ => None,
    }
}

/// The part of [`try_eval_op`] for operators on integers.
fn eval_int_op(op: &Op, args: &[&Value], var_vals: &Env, mode: FieldToBv) -> (r: Option<Value>)
    requires
        match op {
            Op::IntNaryOp(_)
            | Op::IntBinOp(_)
            | Op::IntBinPred(_)
            | Op::IntUnOp(_)
            | Op::IntSize
            | Op::IntToBv(_)
            | Op::IntToPf(_) => true,
            _ => false,
        },
    ensures
        value_option(r) == op_result(*op, arg_views(args@), var_vals@, mode),
{
    match op {
        Op::IntNaryOp(o) => {
            return of_int(eval_int_nary(*o, args));
        },
        Op::IntBinOp(o) => {
            return of_int(eval_int_binary(*o, args));
        },
        _ => {},
    }
    let a: &BigInt = match nth_int(args, 0) {
        Some(a) => a,
        None => {
            return None;
        },
    };
    match op {
        Op::IntBinPred(o) => match nth_int(args, 1) {
            Some(b) => Some(Value::Bool(eval_int_compare(*o, a, b))),
            None => None,
        },
        Op::IntUnOp(IntUnOp::Neg) => Some(Value::Int(a.negate())),
        Op::IntSize => of_bv(eval_int_size(a)),
        Op::IntToBv(w) => of_bv(eval_int_bits(*w, a)),
        Op::IntToPf(f) => of_pf(eval_pf_of_int(f, a)),
        _ => None,
    }
}

/// The part of [`try_eval_op`] for operators on tuples and arrays.
fn eval_compound_op(
    op: &Op,
    args: &[&Value],
    var_vals: &Env,
    mode: FieldToBv,
) -> (r: Option<Value>)
    requires
        match op {
            Op::Tuple
            | Op::Field(_)
            | Op::Update(_)
            | Op::Array(_)
            | Op::Select
            | Op::Store
            | Op::CStore
            | Op::Fill(_)
            | Op::Rot(_) => true,
            _ => false,
        },
    ensures
        value_option(r) == op_result(*op, arg_views(args@), var_vals@, mode),
{
    match op {
        Op::Tuple => {
            assert(arg_views(args@).take(args@.len() as int) =~= arg_views(args@));
            Some(Value::Tuple(copies(args, args.len())))
        },
        Op::Field(i) => match nth_tuple(args, 0) {
            Some(t) => if *i < t.len() {
                Some(t[*i].clone())
            } else {
                None
            },
            None => None,
        },
        Op::Update(i) => match eval_update(*i, args) {
            Some(t) => Some(Value::Tuple(t)),
            None => None,
        },
        Op::Array(o) => of_array(eval_array(&o.key, &o.val, args)),
        Op::Select => eval_select(args),
        Op::Store => of_array(eval_store(args)),
        Op::CStore => of_array(eval_cond_store(args)),
        Op::Fill(o) => match nth(args, 0) {
            Some(v) => Some(Value::Array(Array::fill(o.key_sort.clone(), v.clone(), o.size))),
            None => None,
        },
        Op::Rot(n) => match nth_array(args, 0) {
            Some(a) => of_array(eval_rot(*n, a)),
            None => None,
        },
        _ => None,
    }
}

/// The value of `op` on `args`, with the values of variables in `var_vals`; nothing where the
/// operator does not accept its arguments.
pub fn try_eval_op(op: &Op, args: &[&Value], var_vals: &Env, mode: FieldToBv) -> (r: Option<Value>)
    ensures
        value_option(r) == op_result(*op, arg_views(args@), var_vals@, mode),
        is_sha256(*op) && r is Some ==> r->0@ is Array && r->0@->Array_0.size == 32,
    decreases op, 1nat,
{
    match op {
        Op::Var(v) => match var_vals.get(v.name.as_str()) {
            Some(x) => Some(x.clone()),
            None => None,
        },
        Op::Const(c) => Some((**c).clone()),
        Op::Witness(_) => match nth(args, 0) {
            Some(v) => Some(v.clone()),
            None => None,
        },
        Op::UndefinedFnCall(c) => eval_call(&c.name, args),
        Op::ArrayMap(_) => eval_map(op, args, var_vals, mode),
        Op::Eq | Op::Ite | Op::Not | Op::Implies | Op::BoolNaryOp(_) | Op::BoolMaj => {
            eval_bool_op(op, args, var_vals, mode)
        },
        Op::BvBit(_)
        | Op::BvConcat
        | Op::BvExtract(_, _)
        | Op::BvBinOp(_)
        | Op::BvUnOp(_)
        | Op::BvNaryOp(_)
        | Op::BvBinPred(_)
        | Op::BvSext(_)
        | Op::BvUext(_)
        | Op::BoolToBv
        | Op::UbvToPf(_) => eval_bv_op(op, args, var_vals, mode),
        Op::PfUnOp(_)
        | Op::PfDiv
        | Op::PfNaryOp(_)
        | Op::PfToBv(_)
        | Op::PfToInt
        | Op::PfToBoolTrusted
        | Op::PfFitsInBits(_)
        | Op::PfChallenge(_) => eval_pf_op(op, args, var_vals, mode),
        Op::IntNaryOp(_)
        | Op::IntBinOp(_)
        | Op::IntBinPred(_)
        | Op::IntUnOp(_)
        | Op::IntSize
        | Op::IntToBv(_)
        | Op::IntToPf(_) => eval_int_op(op, args, var_vals, mode),
        Op::Tuple
        | Op::Field(_)
        | Op::Update(_)
        | Op::Array(_)
        | Op::Select
        | Op::Store
        | Op::CStore
        | Op::Fill(_)
        | Op::Rot(_) => eval_compound_op(op, args, var_vals, mode),
    }
}

/// The value of `op` on `args`, with the values of variables in `var_vals`. The operator must
/// accept its arguments.
pub fn eval_op(op: &Op, args: &[&Value], var_vals: &Env, mode: FieldToBv) -> (r: Value)
    requires
        op_result(*op, arg_views(args@), var_vals@, mode) is Some,
    ensures
        op_result(*op, arg_views(args@), var_vals@, mode) == Some(r@),
        is_sha256(*op) ==> r@ is Array && r@->Array_0.size == 32,
{
    try_eval_op(op, args, var_vals, mode).unwrap()
}

} // verus!
