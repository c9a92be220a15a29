//! Sort soundness: an operator gives a value of the sort that sort checking foretells.

use crate::check::{op_sort, parallel, total_width, value_parts};
use crate::field::FieldTView;
use crate::op::{BvNaryOp, FieldToBv, Op, PfNaryOp};
use crate::outside::sha256_digest;
use crate::semantics::{
    bv_nary, byte_items, byte_values, call_result, concat_all, digest_bytes, flatten_all, map_items,
    op_result, pf_nary, rot_items, rot_source, slice_at,
};
use crate::sort::{key_count, SortView};
use crate::value::{
    array_of, array_select, array_store, default_of, entries_store, has_key, index_count,
    insert_position, key_index, nth_key, value_sort, value_sorts, ArrayView, ValueView,
};
use vstd::prelude::*;

verus! {

/// Whether the arrays in a value hold what their sorts say: keys of the key sort, and values of
/// the sort of the default.
pub open spec fn well_sorted(v: ValueView) -> bool
    decreases v,
{
    match v {
        ValueView::Tuple(t) => forall|i: int| 0 <= i < t.len() ==> well_sorted(#[trigger] t[i]),
        ValueView::Array(a) => {
            &&& well_sorted(*a.default)
            &&& forall|i: int|
                0 <= i < a.entries.len() ==> value_sort((#[trigger] a.entries[i]).0) == a.key_sort
                    && value_sort(a.entries[i].1) == value_sort(*a.default) && well_sorted(
                    a.entries[i].1,
                )
        },
        _ => true,
    }
}

/// Whether what an operator brings along has the sort that it declares: constants, the values
/// of variables, and what functions that are known by their names give.
pub open spec fn as_declared(
    op: Op,
    args: Seq<ValueView>,
    env: Map<Seq<char>, ValueView>,
) -> bool
    decreases op,
{
    match op {
        Op::Const(c) => well_sorted(c@),
        Op::Var(v) => env.contains_key(v.name@) ==> well_sorted(env[v.name@]) && value_sort(
            env[v.name@],
        ) == v.sort@,
        Op::UndefinedFnCall(c) => match call_result(c.name@, args) {
            Some(v) => value_sort(v) == c.ret_sort@,
            None => true,
        },
        Op::ArrayMap(inner) => match op_sort(op, value_sorts(args)) {
            Some(SortView::Array(k, _, size)) => match index_count(*k, size) {
                Some(n) => forall|j: nat|
                    j < n ==> as_declared(*inner, #[trigger] slice_at(args, nth_key(*k, j)), env),
                None => true,
            },
            _ => true,
        },
        _ => true,
    }
}

/// What an array holds has the sort of its default.
proof fn lemma_select_sort(a: ArrayView, k: ValueView)
    requires
        well_sorted(ValueView::Array(a)),
    ensures
        value_sort(array_select(a, k)) == value_sort(*a.default),
        well_sorted(array_select(a, k)),
{
    if has_key(a.entries, k) {
        let i = key_index(a.entries, k);
        assert(0 <= i < a.entries.len());
        assert(value_sort(a.entries[i].1) == value_sort(*a.default));
    }
}

/// The default value of a sort has that sort.
pub proof fn lemma_default_sort(s: SortView)
    ensures
        value_sort(default_of(s)) == s,
        well_sorted(default_of(s)),
    decreases s,
{
    match s {
        SortView::Tuple(t) => {
            let d = default_of(s)->Tuple_0;
            assert forall|i: int| 0 <= i < t.len() implies value_sort(#[trigger] d[i]) == t[i]
                && well_sorted(d[i]) by {
                lemma_default_sort(t[i]);
            }
            assert(value_sorts(d) =~= t);
        },
        SortView::Array(k, v, n) => {
            lemma_default_sort(*v);
        },
        _ => {},
    }
}

/// A key has the sort that it is counted off from.
proof fn lemma_key_sort(s: SortView, i: nat)
    requires
        key_count(s) is Some,
    ensures
        value_sort(nth_key(s, i)) == s,
{
}

/// An array of items of one sort is well-sorted.
proof fn lemma_array_of_sort(
    key: SortView,
    default: ValueView,
    items: Seq<ValueView>,
    size: nat,
)
    requires
        key_count(key) is Some,
        well_sorted(default),
        forall|i: int|
            0 <= i < items.len() ==> value_sort(#[trigger] items[i]) == value_sort(default)
                && well_sorted(items[i]),
    ensures
        well_sorted(ValueView::Array(array_of(key, default, items, size))),
        value_sort(ValueView::Array(array_of(key, default, items, size))) == SortView::Array(
            Box::new(key),
            Box::new(value_sort(default)),
            size,
        ),
{
    let a = array_of(key, default, items, size);
    assert forall|i: int| 0 <= i < a.entries.len() implies value_sort((#[trigger] a.entries[i]).0)
        == a.key_sort && value_sort(a.entries[i].1) == value_sort(*a.default) && well_sorted(
        a.entries[i].1,
    ) by {
        lemma_key_sort(key, i as nat);
        assert(a.entries[i].1 == items[i]);
    }
}

/// A store of a key and a value of the right sorts keeps an array well-sorted.
proof fn lemma_store_sort(a: ArrayView, k: ValueView, v: ValueView)
    requires
        well_sorted(ValueView::Array(a)),
        value_sort(k) == a.key_sort,
        value_sort(v) == value_sort(*a.default),
        well_sorted(v),
    ensures
        well_sorted(ValueView::Array(array_store(a, k, v))),
        value_sort(ValueView::Array(array_store(a, k, v))) == value_sort(ValueView::Array(a)),
{
    let out = entries_store(a.entries, k, v);
    let p = insert_position(a.entries, k) as int;
    lemma_insert_position_bound(a.entries, k);
    assert forall|i: int| 0 <= i < out.len() implies out[i] == (k, v) || (exists|j: int|
        0 <= j < a.entries.len() && out[i] == #[trigger] a.entries[j]) by {
        if p < a.entries.len() && a.entries[p].0 == k {
            if i != p {
                assert(out[i] == a.entries[i]);
            }
        } else if i < p {
            assert(out[i] == a.entries[i]);
        } else if i > p {
            assert(out[i] == a.entries[i - 1]);
        }
    }
    assert forall|i: int| 0 <= i < out.len() implies value_sort((#[trigger] out[i]).0)
        == a.key_sort && value_sort(out[i].1) == value_sort(*a.default) && well_sorted(
        out[i].1,
    ) by {
        if out[i] != (k, v) {
            let j = choose|j: int| 0 <= j < a.entries.len() && out[i] == #[trigger] a.entries[j];
            assert(value_sort(a.entries[j].0) == a.key_sort);
        }
    }
}

/// The insert position lies among the entries.
proof fn lemma_insert_position_bound(entries: Seq<(ValueView, ValueView)>, k: ValueView)
    ensures
        insert_position(entries, k) <= entries.len(),
    decreases entries.len(),
{
    if entries.len() > 0 {
        lemma_insert_position_bound(entries.drop_first(), k);
    }
}

/// Bit-vectors laid side by side have the width that their widths add up to.
proof fn lemma_concat_sort(args: Seq<ValueView>)
    requires
        concat_all(args) is Some,
    ensures
        args.len() > 0,
        total_width(value_sorts(args)) == Some(concat_all(args)->0.width),
    decreases args.len(),
{
    let s = value_sorts(args);
    assert(s.drop_last() =~= value_sorts(args.drop_last()));
    if args.len() > 1 {
        lemma_concat_sort(args.drop_last());
        assert(s.last() == value_sort(args.last()));
    } else {
        assert(args.len() == 1);
        assert(s.last() == value_sort(args[0]));
        assert(total_width(s.drop_last()) == Some(0nat));
    }
}

/// An operator on bit-vectors of one width gives one of that width.
proof fn lemma_bv_nary_sort(o: BvNaryOp, args: Seq<ValueView>)
    requires
        bv_nary(o, args) is Some,
    ensures
        args.len() > 0,
        value_sort(args[0]) == SortView::BitVector(bv_nary(o, args)->0.width),
    decreases args.len(),
{
    if args.len() > 1 {
        lemma_bv_nary_sort(o, args.drop_last());
    }
}

/// An operator on elements of one field gives one of that field.
proof fn lemma_pf_nary_sort(o: PfNaryOp, args: Seq<ValueView>)
    requires
        pf_nary(o, args) is Some,
    ensures
        args.len() > 0,
        value_sort(args[0]) == SortView::Field(pf_nary(o, args)->0.ty),
    decreases args.len(),
{
    if args.len() > 1 {
        lemma_pf_nary_sort(o, args.drop_last());
    }
}

/// The sorts of the elements of arrays are those of their defaults.
proof fn lemma_slice_sorts(args: Seq<ValueView>, k: ValueView)
    requires
        parallel(value_sorts(args)),
        forall|i: int| 0 <= i < args.len() ==> well_sorted(#[trigger] args[i]),
    ensures
        value_sorts(slice_at(args, k)) == value_parts(value_sorts(args)),
        forall|i: int| 0 <= i < args.len() ==> well_sorted(#[trigger] slice_at(args, k)[i]),
{
    let s = value_sorts(args);
    let e = slice_at(args, k);
    assert forall|i: int| 0 <= i < args.len() implies value_sort(#[trigger] e[i]) == *s[i]->Array_1
        && well_sorted(e[i]) by {
        assert(s[i] is Array);
        assert(s[i] == value_sort(args[i]));
        assert(well_sorted(args[i]));
        lemma_select_sort(args[i]->Array_0, k);
    }
    assert(value_sorts(e) =~= value_parts(s));
}

/// The values of an operator on the elements of arrays have the sort that it gives.
proof fn lemma_map_sorts(
    op: Op,
    args: Seq<ValueView>,
    k: SortView,
    n: nat,
    env: Map<Seq<char>, ValueView>,
    mode: FieldToBv,
    sort: SortView,
)
    requires
        map_items(op, args, k, n, env, mode) is Some,
        parallel(value_sorts(args)),
        forall|i: int| 0 <= i < args.len() ==> well_sorted(#[trigger] args[i]),
        forall|j: nat| j < n ==> as_declared(op, #[trigger] slice_at(args, nth_key(k, j)), env),
        op_sort(op, value_parts(value_sorts(args))) == Some(sort),
    ensures
        map_items(op, args, k, n, env, mode)->0.len() == n,
        forall|i: int|
            0 <= i < n ==> value_sort(#[trigger] map_items(op, args, k, n, env, mode)->0[i])
                == sort && well_sorted(map_items(op, args, k, n, env, mode)->0[i]),
    decreases op, 0nat, n,
{
    if n > 0 {
        lemma_map_sorts(op, args, k, (n - 1) as nat, env, mode, sort);
        let e = slice_at(args, nth_key(k, (n - 1) as nat));
        lemma_slice_sorts(args, nth_key(k, (n - 1) as nat));
        assert(as_declared(op, e, env));
        law_sort_soundness(op, e, env, mode);
    }
}

/// Sort soundness of operators on tuples and arrays.
proof fn lemma_compound_sort(
    op: Op,
    args: Seq<ValueView>,
    env: Map<Seq<char>, ValueView>,
    mode: FieldToBv,
)
    requires
        match op {
            Op::Tuple
            | Op::Field(_)
            | Op::Update(_)
            | Op::Array(_)
            | Op::Select
            | Op::Store
            | Op::CStore
            | Op::Fill(_)
            | Op::Rot(_) => true,
            _ => false,
        },
        op_sort(op, value_sorts(args)) is Some,
        op_result(op, args, env, mode) is Some,
        forall|i: int| 0 <= i < args.len() ==> well_sorted(#[trigger] args[i]),
    ensures
        value_sort(op_result(op, args, env, mode)->0) == op_sort(op, value_sorts(args))->0,
        well_sorted(op_result(op, args, env, mode)->0),
{
    let s = value_sorts(args);
    if args.len() > 0 {
        assert(s[0] == value_sort(args[0]));
        assert(well_sorted(args[0]));
    }
    match op {
        Op::Update(i) => {
            assert(well_sorted(args[1]));
            let t = args[0]->Tuple_0;
            let u = t.update(i as int, args[1]);
            assert(value_sorts(u) =~= value_sorts(t));
            assert forall|j: int| 0 <= j < u.len() implies well_sorted(#[trigger] u[j]) by {
                assert(j != i ==> u[j] == t[j]);
            }
        },
        Op::Array(o) => {
            lemma_default_sort(o.val@);
            let n = index_count(o.key@, args.len())->0;
            let items = args.take(n as int);
            assert forall|i: int| 0 <= i < items.len() implies value_sort(#[trigger] items[i])
                == o.val@ && well_sorted(items[i]) by {
                assert(items[i] == args[i]);
            }
            lemma_array_of_sort(o.key@, default_of(o.val@), items, args.len());
        },
        Op::Select => {
            lemma_select_sort(args[0]->Array_0, args[1]);
        },
        Op::Store => {
            assert(well_sorted(args[2]));
            lemma_store_sort(args[0]->Array_0, args[1], args[2]);
        },
        Op::CStore => {
            assert(well_sorted(args[2]));
            if args[3]->Bool_0 {
                lemma_store_sort(args[0]->Array_0, args[1], args[2]);
            }
        },
        Op::Rot(n) => {
            let a = args[0]->Array_0;
            let count = index_count(a.key_sort, a.size)->0;
            let items = rot_items(a, n as nat, count);
            let val = value_sort(*a.default);
            lemma_default_sort(val);
            assert forall|i: int| 0 <= i < items.len() implies value_sort(#[trigger] items[i])
                == val && well_sorted(items[i]) by {
                lemma_select_sort(
                    a,
                    nth_key(a.key_sort, rot_source(i as nat, n as nat, a.size)),
                );
            }
            lemma_array_of_sort(a.key_sort, default_of(val), items, a.size);
        },
        _ => {},
    }
}

/// Sort soundness of a mapped operator.
proof fn lemma_array_map_sort(
    op: Op,
    inner: Op,
    args: Seq<ValueView>,
    env: Map<Seq<char>, ValueView>,
    mode: FieldToBv,
)
    requires
        op == Op::ArrayMap(Box::new(inner)),
        op_sort(op, value_sorts(args)) is Some,
        op_result(op, args, env, mode) is Some,
        forall|i: int| 0 <= i < args.len() ==> well_sorted(#[trigger] args[i]),
        as_declared(op, args, env),
    ensures
        value_sort(op_result(op, args, env, mode)->0) == op_sort(op, value_sorts(args))->0,
        well_sorted(op_result(op, args, env, mode)->0),
    decreases inner, 1nat, 0nat,
{
    let s = value_sorts(args);
    let k = *s[0]->Array_0;
    let v = op_sort(inner, value_parts(s))->0;
    let size = s[0]->Array_2;
    let n = index_count(k, size)->0;
    lemma_map_sorts(inner, args, k, n, env, mode, v);
    lemma_default_sort(v);
    let items = map_items(inner, args, k, n, env, mode)->0;
    lemma_array_of_sort(k, default_of(v), items, size);
}

/// Sort soundness: an operator that has a value, on arguments of sorts that it takes, gives a
/// value of the sort that sort checking foretells.
pub proof fn law_sort_soundness(
    op: Op,
    args: Seq<ValueView>,
    env: Map<Seq<char>, ValueView>,
    mode: FieldToBv,
)
    requires
        op_sort(op, value_sorts(args)) is Some,
        op_result(op, args, env, mode) is Some,
        forall|i: int| 0 <= i < args.len() ==> well_sorted(#[trigger] args[i]),
        as_declared(op, args, env),
    ensures
        value_sort(op_result(op, args, env, mode)->0) == op_sort(op, value_sorts(args))->0,
        well_sorted(op_result(op, args, env, mode)->0),
    decreases op, 0nat, 0nat,
{
    let s = value_sorts(args);
    if args.len() > 0 {
        assert(s[0] == value_sort(args[0]));
    }
    match op {
        Op::Ite => {
            assert(s[1] == value_sort(args[1]) && s[2] == value_sort(args[2]));
            assert(well_sorted(args[1]) && well_sorted(args[2]));
        },
        Op::Witness(_) => {
            assert(well_sorted(args[0]));
        },
        Op::BvConcat => {
            lemma_concat_sort(args);
        },
        Op::BvNaryOp(o) => {
            lemma_bv_nary_sort(o, args);
        },
        Op::PfNaryOp(o) => {
            lemma_pf_nary_sort(o, args);
        },
        Op::ArrayMap(inner) => {
            lemma_array_map_sort(op, *inner, args, env, mode);
        },
        Op::UndefinedFnCall(c) => {
            lemma_call_sorted(c.name@, args);
        },
        Op::Tuple
        | Op::Field(_)
        | Op::Update(_)
        | Op::Array(_)
        | Op::Select
        | Op::Store
        | Op::CStore
        | Op::Fill(_)
        | Op::Rot(_) => {
            lemma_compound_sort(op, args, env, mode);
        },
        _ => {},
    }
}

/// What a function that is known by its name gives is well-sorted.
proof fn lemma_call_sorted(name: Seq<char>, args: Seq<ValueView>)
    requires
        call_result(name, args) is Some,
    ensures
        well_sorted(call_result(name, args)->0),
{
    match call_result(name, args)->0 {
        ValueView::Array(a) => {
            let s = flatten_all(args, args.len())->0;
            let d = digest_bytes(sha256_digest(byte_values(s)));
            let items = byte_items(d);
            lemma_array_of_sort(
                SortView::Field(FieldTView::FBls12381),
                default_of(SortView::BitVector(8)),
                items,
                d.len(),
            );
        },
        _ => {},
    }
}

} // verus!
