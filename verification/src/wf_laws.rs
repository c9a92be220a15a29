//! Well-formedness: operators on well-formed values give well-formed values.

use crate::bits::{lemma_bitwise_bound, BitOp};
use crate::bv::{bv_concat, bv_wrap, lemma_sext_fits, BvView};
use crate::call_laws::{law_challenge_in_field, lemma_select_wf};
use crate::check::op_sort;
use crate::field::{bls12381_modulus, field_new, field_recip, FieldTView, FieldVView};
use crate::interp::{cached_args, cached_result};
use crate::limbs::lemma_pow2_monotone;
use crate::modular::{is_inverse, mod_inverse};
use crate::op::{BvBinOp, BvNaryOp, BvUnOp, FieldToBv, Op, PfNaryOp};
use crate::outside::sha256_digest;
use crate::semantics::{
    bv_binary, bv_nary, bv_unary, byte_array, byte_items, byte_values, call_result, concat_all,
    digest_bytes, flatten_all, map_items, op_result, pf_nary, rot_items, rot_source, slice_at,
};
use crate::sort::{key_count, SortView};
use crate::term::NodeView;
use crate::value::{
    array_of, array_store, default_of, entries_store, index_count, inhabited, insert_position,
    lemma_array_of_in_order, lemma_insert_position, lemma_store_in_order, nth_key, value_sort,
    value_sorts, ArrayView, ValueView,
};
use vstd::arithmetic::div_mod::{lemma_fundamental_div_mod, lemma_mod_bound};
use vstd::arithmetic::power2::{lemma2_to64, lemma_pow2_adds, lemma_pow2_pos, pow2};
use vstd::prelude::*;

verus! {

/// Whether the constants in an operator are well-formed.
pub open spec fn wf_op(op: Op) -> bool
    decreases op,
{
    match op {
        Op::Const(c) => c@.wf(),
        Op::ArrayMap(inner) => wf_op(*inner),
        _ => true,
    }
}

/// Whether several values are well-formed.
pub open spec fn all_wf(s: Seq<ValueView>) -> bool {
    forall|i: int| 0 <= i < s.len() ==> (#[trigger] s[i]).wf()
}

/// Whether the values of all variables are well-formed.
pub open spec fn wf_env(env: Map<Seq<char>, ValueView>) -> bool {
    forall|name: Seq<char>| #[trigger] env.contains_key(name) ==> env[name].wf()
}

/// A wrapped number fits its width.
proof fn lemma_wrap_wf(n: int, w: nat)
    ensures
        bv_wrap(n, w).wf(),
{
    lemma_pow2_pos(w);
    lemma_mod_bound(n, pow2(w) as int);
}

/// Bit-vectors laid side by side fit the sum of their widths.
proof fn lemma_concat_wf(a: BvView, b: BvView)
    requires
        a.wf(),
        b.wf(),
    ensures
        bv_concat(a, b).wf(),
{
    let (p, q) = (pow2(a.width) as int, pow2(b.width) as int);
    lemma_pow2_adds(a.width, b.width);
    assert(a.uint * q + b.uint < p * q) by (nonlinear_arith)
        requires
            a.uint + 1 <= p,
            b.uint < q,
    ;
}

/// A quotient of natural numbers is no more than the dividend.
proof fn lemma_quotient_bound(a: nat, b: nat)
    requires
        b > 0,
    ensures
        a / b <= a,
        a % b <= a,
{
    lemma_fundamental_div_mod(a as int, b as int);
    let q = a / b;
    assert(q <= b * q) by (nonlinear_arith)
        requires
            b >= 1,
            q >= 0,
    ;
}

/// An operator on two bit-vectors gives one that fits its width.
proof fn lemma_bv_binary_wf(o: BvBinOp, a: BvView, b: BvView)
    requires
        a.wf(),
        b.wf(),
    ensures
        bv_binary(o, a, b).wf(),
{
    lemma_pow2_pos(a.width);
    lemma_pow2_pos(b.uint);
    match o {
        BvBinOp::Sub => {
            lemma_wrap_wf(a.uint - b.uint, a.width);
        },
        BvBinOp::Udiv | BvBinOp::Urem => {
            if b.uint > 0 {
                lemma_quotient_bound(a.uint, b.uint);
            }
        },
        BvBinOp::Shl => {
            lemma_wrap_wf((a.uint * pow2(b.uint)) as int, a.width);
        },
        BvBinOp::Ashr => {
            lemma_wrap_wf(a.sint() / (pow2(b.uint) as int), a.width);
        },
        BvBinOp::Lshr => {
            lemma_quotient_bound(a.uint, pow2(b.uint));
        },
    }
}

/// An operator on one bit-vector gives one that fits its width.
proof fn lemma_bv_unary_wf(o: BvUnOp, a: BvView)
    requires
        a.wf(),
    ensures
        bv_unary(o, a).wf(),
{
    match o {
        BvUnOp::Not => {},
        BvUnOp::Neg => {
            lemma_wrap_wf(-(a.uint as int), a.width);
        },
    }
}

/// An operator on any number of bit-vectors gives one that fits its width.
proof fn lemma_bv_nary_wf(o: BvNaryOp, args: Seq<ValueView>)
    requires
        all_wf(args),
        bv_nary(o, args) is Some,
    ensures
        bv_nary(o, args)->0.wf(),
    decreases args.len(),
{
    assert(args.len() > 0);
    assert(args[0].wf());
    if args.len() > 1 {
        let rest = args.drop_last();
        assert forall|i: int| 0 <= i < rest.len() implies (#[trigger] rest[i]).wf() by {
            assert(rest[i] == args[i]);
        }
        lemma_bv_nary_wf(o, rest);
        let a = bv_nary(o, rest)->0;
        assert(args[args.len() - 1].wf());
        let b = args.last()->BitVector_0;
        match o {
            BvNaryOp::Add => {
                lemma_wrap_wf((a.uint + b.uint) as int, a.width);
            },
            BvNaryOp::Mul => {
                lemma_wrap_wf((a.uint * b.uint) as int, a.width);
            },
            BvNaryOp::Or => {
                lemma_bitwise_bound(BitOp::Or, a.uint, b.uint, a.width);
            },
            BvNaryOp::And => {
                lemma_bitwise_bound(BitOp::And, a.uint, b.uint, a.width);
            },
            BvNaryOp::Xor => {
                lemma_bitwise_bound(BitOp::Xor, a.uint, b.uint, a.width);
            },
        }
    }
}

/// Any number of bit-vectors laid side by side fit the sum of their widths.
proof fn lemma_concat_all_wf(args: Seq<ValueView>)
    requires
        all_wf(args),
        concat_all(args) is Some,
    ensures
        concat_all(args)->0.wf(),
    decreases args.len(),
{
    assert(args.len() > 0);
    assert(args[0].wf());
    if args.len() > 1 {
        let rest = args.drop_last();
        assert forall|i: int| 0 <= i < rest.len() implies (#[trigger] rest[i]).wf() by {
            assert(rest[i] == args[i]);
        }
        lemma_concat_all_wf(rest);
        assert(args[args.len() - 1].wf());
        lemma_concat_wf(concat_all(rest)->0, args.last()->BitVector_0);
    }
}

/// The element for an integer lies below the modulus.
proof fn lemma_field_new_wf(f: FieldTView, n: int)
    requires
        f.modulus() > 0,
    ensures
        field_new(f, n).wf(),
{
    lemma_mod_bound(n, f.modulus() as int);
}

/// The inverse of an element lies below the modulus.
proof fn lemma_recip_wf(a: FieldVView)
    requires
        field_recip(a) is Some,
    ensures
        field_recip(a)->0.wf(),
{
    let p = a.ty.modulus() as int;
    assert(is_inverse(a.i as int, p, mod_inverse(a.i as int, p)->0));
}

/// An operator on any number of field elements gives one below the modulus.
proof fn lemma_pf_nary_wf(o: PfNaryOp, args: Seq<ValueView>)
    requires
        all_wf(args),
        pf_nary(o, args) is Some,
    ensures
        pf_nary(o, args)->0.wf(),
    decreases args.len(),
{
    assert(args.len() > 0);
    assert(args[0].wf());
    if args.len() > 1 {
        let rest = args.drop_last();
        assert forall|i: int| 0 <= i < rest.len() implies (#[trigger] rest[i]).wf() by {
            assert(rest[i] == args[i]);
        }
        lemma_pf_nary_wf(o, rest);
        let a = pf_nary(o, rest)->0;
        let b = args.last()->Field_0;
        lemma_field_new_wf(a.ty, (a.i + b.i) as int);
        lemma_field_new_wf(a.ty, (a.i * b.i) as int);
    }
}

/// The default value of a sort is well-formed.
proof fn lemma_default_wf(s: SortView)
    requires
        inhabited(s),
    ensures
        default_of(s).wf(),
    decreases s,
{
    match s {
        SortView::BitVector(w) => {
            lemma_pow2_pos(w);
        },
        SortView::Tuple(t) => {
            let d = default_of(s)->Tuple_0;
            assert forall|i: int| 0 <= i < d.len() implies (#[trigger] d[i]).wf() by {
                assert(inhabited(t[i]));
                lemma_default_wf(t[i]);
            }
        },
        SortView::Array(k, v, n) => {
            lemma_default_wf(*v);
        },
        _ => {},
    }
}

/// An array of well-formed items is well-formed.
proof fn lemma_array_of_wf(key: SortView, default: ValueView, items: Seq<ValueView>, size: nat)
    requires
        key_count(key) is Some,
        items.len() <= key_count(key)->0,
        default.wf(),
        all_wf(items),
    ensures
        ValueView::Array(array_of(key, default, items, size)).wf(),
{
    let a = array_of(key, default, items, size);
    lemma_array_of_in_order(key, default, items, size);
    assert forall|i: int| 0 <= i < a.entries.len() implies (#[trigger] a.entries[i]).0.wf()
        && a.entries[i].1.wf() by {
        assert(items[i].wf());
    }
}

/// A store of a well-formed key and value keeps an array well-formed.
proof fn lemma_store_wf(a: ArrayView, k: ValueView, v: ValueView)
    requires
        ValueView::Array(a).wf(),
        k.wf(),
        v.wf(),
    ensures
        ValueView::Array(array_store(a, k, v)).wf(),
{
    let s = a.entries;
    let out = entries_store(s, k, v);
    let p = insert_position(s, k) as int;
    lemma_insert_position(s, k);
    lemma_store_in_order(s, k, v);
    assert forall|i: int| 0 <= i < out.len() implies (#[trigger] out[i]).0.wf()
        && out[i].1.wf() by {
        if p < s.len() && s[p].0 == k {
            if i != p {
                assert(out[i] == s[i]);
            }
        } else if i < p {
            assert(out[i] == s[i]);
        } else if i > p {
            assert(out[i] == s[i - 1]);
        }
    }
}

/// The elements of well-formed arrays are well-formed.
proof fn lemma_slice_wf(args: Seq<ValueView>, k: ValueView)
    requires
        all_wf(args),
        forall|i: int| 0 <= i < args.len() ==> (#[trigger] args[i]) is Array,
    ensures
        all_wf(slice_at(args, k)),
{
    let e = slice_at(args, k);
    assert forall|i: int| 0 <= i < e.len() implies (#[trigger] e[i]).wf() by {
        assert(args[i] is Array && args[i].wf());
        lemma_select_wf(args[i]->Array_0, k);
    }
}

/// The values of an operator on the elements of well-formed arrays are well-formed.
proof fn lemma_map_wf(
    op: Op,
    args: Seq<ValueView>,
    k: SortView,
    n: nat,
    env: Map<Seq<char>, ValueView>,
    mode: FieldToBv,
)
    requires
        wf_op(op),
        all_wf(args),
        wf_env(env),
        forall|i: int| 0 <= i < args.len() ==> (#[trigger] args[i]) is Array,
        map_items(op, args, k, n, env, mode) is Some,
    ensures
        map_items(op, args, k, n, env, mode)->0.len() == n,
        all_wf(map_items(op, args, k, n, env, mode)->0),
    decreases op, 0nat, n,
{
    if n > 0 {
        lemma_map_wf(op, args, k, (n - 1) as nat, env, mode);
        let key = nth_key(k, (n - 1) as nat);
        lemma_slice_wf(args, key);
        law_values_stay_well_formed(op, slice_at(args, key), env, mode);
    }
}

/// An array of bytes is well-formed, where there are no more bytes than keys.
proof fn lemma_byte_array_wf(s: Seq<u8>)
    requires
        s.len() <= bls12381_modulus(),
    ensures
        ValueView::Array(byte_array(s)).wf(),
{
    lemma2_to64();
    assert forall|i: int| 0 <= i < s.len() implies (#[trigger] byte_items(s)[i]).wf() by {
        assert(s[i] < pow2(8));
    }
    lemma_array_of_wf(
        SortView::Field(FieldTView::FBls12381),
        default_of(SortView::BitVector(8)),
        byte_items(s),
        s.len(),
    );
}

/// What a function that is known by its name gives is well-formed.
proof fn lemma_call_wf(name: Seq<char>, args: Seq<ValueView>)
    requires
        call_result(name, args) is Some,
        all_wf(args),
    ensures
        call_result(name, args)->0.wf(),
{
    if name == "PlonkMul2"@ {
        assert(args[0].wf());
    }
    match call_result(name, args)->0 {
        ValueView::Array(_) => {
            let s = flatten_all(args, args.len())->0;
            lemma_byte_array_wf(digest_bytes(sha256_digest(byte_values(s))));
        },
        _ => {},
    }
}

/// The well-formedness of what operators on bit-vectors give.
proof fn lemma_bv_op_wf(
    op: Op,
    args: Seq<ValueView>,
    env: Map<Seq<char>, ValueView>,
    mode: FieldToBv,
)
    requires
        match op {
            Op::BvConcat
            | Op::BvExtract(_, _)
            | Op::BvBinOp(_)
            | Op::BvUnOp(_)
            | Op::BvNaryOp(_)
            | Op::BvSext(_)
            | Op::BvUext(_)
            | Op::BoolToBv
            | Op::UbvToPf(_) => true,
            _ => false,
        },
        all_wf(args),
        op_result(op, args, env, mode) is Some,
    ensures
        op_result(op, args, env, mode)->0.wf(),
{
    if args.len() > 0 {
        assert(args[0].wf());
    }
    match op {
        Op::BvConcat => {
            lemma_concat_all_wf(args);
        },
        Op::BvExtract(h, l) => {
            let a = args[0]->BitVector_0;
            lemma_wrap_wf((a.uint / pow2(l as nat)) as int, (h - l + 1) as nat);
        },
        Op::BvBinOp(o) => {
            assert(args[1].wf());
            lemma_bv_binary_wf(o, args[0]->BitVector_0, args[1]->BitVector_0);
        },
        Op::BvUnOp(o) => {
            lemma_bv_unary_wf(o, args[0]->BitVector_0);
        },
        Op::BvNaryOp(o) => {
            lemma_bv_nary_wf(o, args);
        },
        Op::BvSext(n) => {
            lemma_sext_fits(args[0]->BitVector_0, n as nat);
        },
        Op::BvUext(n) => {
            let a = args[0]->BitVector_0;
            lemma_pow2_monotone(a.width, a.width + n as nat);
        },
        Op::UbvToPf(f) => {
            lemma_field_new_wf(f@, args[0]->BitVector_0.uint as int);
        },
        _ => {
            lemma2_to64();
        },
    }
}

/// The well-formedness of what operators on field elements and integers give.
proof fn lemma_number_op_wf(
    op: Op,
    args: Seq<ValueView>,
    env: Map<Seq<char>, ValueView>,
    mode: FieldToBv,
)
    requires
        match op {
            Op::PfUnOp(_)
            | Op::PfDiv
            | Op::PfNaryOp(_)
            | Op::PfToBv(_)
            | Op::PfChallenge(_)
            | Op::IntSize
            | Op::IntToBv(_)
            | Op::IntToPf(_) => true,
            _ => false,
        },
        all_wf(args),
        op_result(op, args, env, mode) is Some,
    ensures
        op_result(op, args, env, mode)->0.wf(),
{
    if args.len() > 0 {
        assert(args[0].wf());
    }
    match op {
        Op::PfUnOp(o) => {
            let a = args[0]->Field_0;
            lemma_field_new_wf(a.ty, -(a.i as int));
            if a.i != 0 && field_recip(a) is Some {
                lemma_recip_wf(a);
            }
        },
        Op::PfDiv => {
            let a = args[0]->Field_0;
            let w = field_recip(args[1]->Field_0)->0;
            lemma_field_new_wf(a.ty, (a.i * w.i) as int);
        },
        Op::PfNaryOp(o) => {
            lemma_pf_nary_wf(o, args);
        },
        Op::PfToBv(w) => {
            lemma_wrap_wf(args[0]->Field_0.i as int, w as nat);
        },
        Op::PfChallenge(c) => {
            law_challenge_in_field(c@.hash, c@.field);
        },
        Op::IntToPf(f) => {
            lemma_field_new_wf(f@, args[0]->Int_0);
        },
        _ => {
            lemma2_to64();
        },
    }
}

/// The well-formedness of what operators on tuples and arrays give.
proof fn lemma_compound_op_wf(
    op: Op,
    args: Seq<ValueView>,
    env: Map<Seq<char>, ValueView>,
    mode: FieldToBv,
)
    requires
        match op {
            Op::Tuple
            | Op::Field(_)
            | Op::Update(_)
            | Op::Array(_)
            | Op::Select
            | Op::Store
            | Op::CStore
            | Op::Fill(_)
            | Op::Rot(_) => true,
            _ => false,
        },
        all_wf(args),
        op_result(op, args, env, mode) is Some,
    ensures
        op_result(op, args, env, mode)->0.wf(),
{
    if args.len() > 0 {
        assert(args[0].wf());
    }
    match op {
        Op::Update(i) => {
            assert(args[1].wf());
            let t = args[0]->Tuple_0;
            let u = t.update(i as int, args[1]);
            assert forall|j: int| 0 <= j < u.len() implies (#[trigger] u[j]).wf() by {
                assert(j != i ==> u[j] == t[j]);
            }
        },
        Op::Array(o) => {
            lemma_default_wf(o.val@);
            let n = index_count(o.key@, args.len())->0;
            let items = args.take(n as int);
            assert forall|i: int| 0 <= i < items.len() implies (#[trigger] items[i]).wf() by {
                assert(items[i] == args[i]);
            }
            lemma_array_of_wf(o.key@, default_of(o.val@), items, args.len());
        },
        Op::Select => {
            lemma_select_wf(args[0]->Array_0, args[1]);
        },
        Op::Store | Op::CStore => {
            assert(args[1].wf() && args[2].wf());
            lemma_store_wf(args[0]->Array_0, args[1], args[2]);
        },
        Op::Rot(n) => {
            let a = args[0]->Array_0;
            let count = index_count(a.key_sort, a.size)->0;
            let items = rot_items(a, n as nat, count);
            lemma_default_wf(value_sort(*a.default));
            assert forall|i: int| 0 <= i < items.len() implies (#[trigger] items[i]).wf() by {
                lemma_select_wf(
                    a,
                    nth_key(a.key_sort, rot_source(i as nat, n as nat, a.size)),
                );
            }
            lemma_array_of_wf(a.key_sort, default_of(value_sort(*a.default)), items, a.size);
        },
        _ => {},
    }
}

/// The well-formedness of what a mapped operator gives.
proof fn lemma_array_map_wf(
    op: Op,
    inner: Op,
    args: Seq<ValueView>,
    env: Map<Seq<char>, ValueView>,
    mode: FieldToBv,
)
    requires
        op == Op::ArrayMap(Box::new(inner)),
        wf_op(inner),
        all_wf(args),
        wf_env(env),
        op_result(op, args, env, mode) is Some,
    ensures
        op_result(op, args, env, mode)->0.wf(),
    decreases inner, 1nat, 0nat,
{
    let s = value_sorts(args);
    assert forall|i: int| 0 <= i < args.len() implies (#[trigger] args[i]) is Array by {
        assert(s[i] is Array);
        assert(s[i] == value_sort(args[i]));
    }
    let sort = op_sort(op, s)->0;
    let (k, v, size) = (*sort->Array_0, *sort->Array_1, sort->Array_2);
    let n = index_count(k, size)->0;
    lemma_map_wf(inner, args, k, n, env, mode);
    lemma_default_wf(v);
    lemma_array_of_wf(k, default_of(v), map_items(inner, args, k, n, env, mode)->0, size);
}

/// Well-formedness: an operator on well-formed values gives a well-formed value, whose numbers
/// fit their widths and fields and whose arrays hold their entries in order.
pub proof fn law_values_stay_well_formed(
    op: Op,
    args: Seq<ValueView>,
    env: Map<Seq<char>, ValueView>,
    mode: FieldToBv,
)
    requires
        wf_op(op),
        all_wf(args),
        wf_env(env),
        op_result(op, args, env, mode) is Some,
    ensures
        op_result(op, args, env, mode)->0.wf(),
    decreases op, 0nat, 0nat,
{
    match op {
        Op::Var(v) => {
            assert(env.contains_key(v.name@));
        },
        Op::Ite => {
            let i = if args[0] == ValueView::Bool(true) {
                1int
            } else {
                2int
            };
            assert(args[i].wf());
        },
        Op::Witness(_) => {
            assert(args[0].wf());
        },
        Op::BvConcat
        | Op::BvExtract(_, _)
        | Op::BvBinOp(_)
        | Op::BvUnOp(_)
        | Op::BvNaryOp(_)
        | Op::BvSext(_)
        | Op::BvUext(_)
        | Op::BoolToBv
        | Op::UbvToPf(_) => {
            lemma_bv_op_wf(op, args, env, mode);
        },
        Op::PfUnOp(_)
        | Op::PfDiv
        | Op::PfNaryOp(_)
        | Op::PfToBv(_)
        | Op::PfChallenge(_)
        | Op::IntSize
        | Op::IntToBv(_)
        | Op::IntToPf(_) => {
            lemma_number_op_wf(op, args, env, mode);
        },
        Op::Tuple
        | Op::Field(_)
        | Op::Update(_)
        | Op::Array(_)
        | Op::Select
        | Op::Store
        | Op::CStore
        | Op::Fill(_)
        | Op::Rot(_) => {
            lemma_compound_op_wf(op, args, env, mode);
        },
        Op::ArrayMap(inner) => {
            lemma_array_map_wf(op, *inner, args, env, mode);
        },
        Op::UndefinedFnCall(c) => {
            lemma_call_wf(c.name@, args);
        },
        _ => {},
    }
}

/// Evaluation of terms keeps values well-formed: over a cache and an environment of well-formed
/// values, the value of every term is well-formed.
pub proof fn law_terms_have_well_formed_values(
    tbl: Seq<NodeView>,
    cache: Map<usize, ValueView>,
    id: usize,
    env: Map<Seq<char>, ValueView>,
    mode: FieldToBv,
)
    requires
        forall|i: int| 0 <= i < tbl.len() ==> wf_op((#[trigger] tbl[i]).op),
        forall|i: usize| #[trigger] cache.contains_key(i) ==> cache[i].wf(),
        wf_env(env),
        cached_result(tbl, cache, id, env, mode) is Some,
    ensures
        cached_result(tbl, cache, id, env, mode)->0.wf(),
    decreases id, tbl[id as int].cs.len() + 1,
{
    if !cache.contains_key(id) {
        let n = tbl[id as int].cs.len();
        lemma_args_well_formed(tbl, cache, id, n, env, mode);
        assert(wf_op(tbl[id as int].op));
        law_values_stay_well_formed(
            tbl[id as int].op,
            cached_args(tbl, cache, id, n, env, mode)->0,
            env,
            mode,
        );
    }
}

/// The same of the first `n` children of a term.
proof fn lemma_args_well_formed(
    tbl: Seq<NodeView>,
    cache: Map<usize, ValueView>,
    id: usize,
    n: nat,
    env: Map<Seq<char>, ValueView>,
    mode: FieldToBv,
)
    requires
        n <= tbl[id as int].cs.len(),
        forall|i: int| 0 <= i < tbl.len() ==> wf_op((#[trigger] tbl[i]).op),
        forall|i: usize| #[trigger] cache.contains_key(i) ==> cache[i].wf(),
        wf_env(env),
        cached_args(tbl, cache, id, n, env, mode) is Some,
    ensures
        all_wf(cached_args(tbl, cache, id, n, env, mode)->0),
    decreases id, n,
{
    if n > 0 {
        lemma_args_well_formed(tbl, cache, id, (n - 1) as nat, env, mode);
        law_terms_have_well_formed_values(tbl, cache, tbl[id as int].cs[n - 1], env, mode);
    }
}

} // verus!
