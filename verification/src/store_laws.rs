//! What operators on tuples and arrays give, told part by part.

use crate::array_laws::{
    law_elements_of_array, law_elements_of_map, law_full_rotation, law_rotation_moves_elements,
};
use crate::bv::BvView;
use crate::check::{op_sort, parallel};
use crate::field::FieldVView;
use crate::op::{ArrayOp, FieldToBv, FillOp, Op};
use crate::semantics::{map_items, op_result, rot_result, slice_at};
use crate::sort::{key_count, SortView};
use crate::value::{
    array_select, default_of, entries_store, in_order, index_count, inhabited, insert_position,
    key_before, lemma_insert_position, lemma_key_before, lemma_store_in_order, nth_key, value_sort,
    value_sorts, ArrayView, ValueView,
};
use vstd::arithmetic::power2::pow2;
use vstd::prelude::*;

verus! {

/// The sort of a value tells its kind, its width or field, and the sorts of its parts.
pub proof fn law_sorts_of_values(
    b: bool,
    v: BvView,
    n: int,
    f: FieldVView,
    t: Seq<ValueView>,
    a: ArrayView,
    i: int,
)
    ensures
        value_sort(ValueView::Bool(b)) == SortView::Bool,
        value_sort(ValueView::BitVector(v)) == SortView::BitVector(v.width),
        value_sort(ValueView::Int(n)) == SortView::Int,
        value_sort(ValueView::Field(f)) == SortView::Field(f.ty),
        value_sort(ValueView::Tuple(t)) is Tuple,
        value_sort(ValueView::Tuple(t))->Tuple_0.len() == t.len(),
        0 <= i < t.len() ==> value_sort(ValueView::Tuple(t))->Tuple_0[i] == value_sort(t[i]),
        value_sort(ValueView::Array(a)) == SortView::Array(
            Box::new(a.key_sort),
            Box::new(value_sort(*a.default)),
            a.size,
        ),
{
}

/// The default of a sort is false, zero, the tuple of the defaults of its parts, or the array
/// without entries that holds the default of its values; it is there where every field in the
/// sort has elements.
pub proof fn law_defaults(s: SortView, i: int)
    ensures
        s is Bool ==> default_of(s) == ValueView::Bool(false),
        s is BitVector ==> default_of(s) == ValueView::BitVector(
            BvView { uint: 0, width: s->BitVector_0 },
        ),
        s is Int ==> default_of(s) == ValueView::Int(0),
        s is Field ==> default_of(s) == ValueView::Field(FieldVView { ty: s->Field_0, i: 0 }),
        s is Field ==> (inhabited(s) <==> s->Field_0.modulus() > 0),
        s is Bool || s is BitVector || s is Int ==> inhabited(s),
        s is Tuple ==> default_of(s) is Tuple && default_of(s)->Tuple_0.len() == s->Tuple_0.len(),
        s is Tuple && 0 <= i < s->Tuple_0.len() ==> default_of(s)->Tuple_0[i] == default_of(
            s->Tuple_0[i],
        ),
        s is Tuple && inhabited(s) && 0 <= i < s->Tuple_0.len() ==> inhabited(s->Tuple_0[i]),
        s is Tuple && (forall|j: int|
            0 <= j < s->Tuple_0.len() ==> inhabited(#[trigger] s->Tuple_0[j])) ==> inhabited(s),
        s is Array ==> default_of(s) is Array && default_of(s)->Array_0.key_sort == *s->Array_0
            && default_of(s)->Array_0.size == s->Array_2 && default_of(s)->Array_0.entries.len()
            == 0 && *default_of(s)->Array_0.default == default_of(*s->Array_1),
        s is Array ==> (inhabited(s) <==> inhabited(*s->Array_1)),
{
}

/// A tuple has its arguments for fields. A field of a tuple is there where its index is below
/// the length. An updated tuple differs in one field only, and is there where that field is and
/// the new value has the sort of the old one.
pub proof fn law_tuples(
    i: usize,
    j: int,
    args: Seq<ValueView>,
    t: Seq<ValueView>,
    env: Map<Seq<char>, ValueView>,
    mode: FieldToBv,
)
    requires
        args.len() >= 2,
        args[0] == ValueView::Tuple(t),
    ensures
        op_result(Op::Tuple, t, env, mode) == Some(ValueView::Tuple(t)),
        op_result(Op::Field(i), args, env, mode) is Some <==> i < t.len(),
        i < t.len() ==> op_result(Op::Field(i), args, env, mode) == Some(t[i as int]),
        op_result(Op::Update(i), args, env, mode) is Some <==> i < t.len() && value_sort(
            t[i as int],
        ) == value_sort(args[1]),
        op_result(Op::Update(i), args, env, mode) is Some ==> op_result(
            Op::Update(i),
            args,
            env,
            mode,
        )->0 is Tuple && op_result(Op::Update(i), args, env, mode)->0->Tuple_0.len() == t.len(),
        op_result(Op::Update(i), args, env, mode) is Some && 0 <= j < t.len() && j != i
            ==> op_result(Op::Update(i), args, env, mode)->0->Tuple_0[j] == t[j],
        op_result(Op::Update(i), args, env, mode) is Some ==> op_result(
            Op::Update(i),
            args,
            env,
            mode,
        )->0->Tuple_0[i as int] == args[1],
{
}

/// Operators on tuples and arrays have values for tuples and arrays only.
pub proof fn law_compound_operands(
    i: usize,
    args: Seq<ValueView>,
    env: Map<Seq<char>, ValueView>,
    mode: FieldToBv,
)
    ensures
        op_result(Op::Field(i), args, env, mode) is Some ==> args.len() > 0 && args[0] is Tuple,
        op_result(Op::Update(i), args, env, mode) is Some ==> args.len() > 1 && args[0] is Tuple,
        op_result(Op::Select, args, env, mode) is Some ==> args.len() > 1 && args[0] is Array,
        op_result(Op::Store, args, env, mode) is Some ==> args.len() > 2 && args[0] is Array,
        op_result(Op::CStore, args, env, mode) is Some ==> args.len() > 3 && args[0] is Array
            && args[3] is Bool,
        op_result(Op::Rot(i), args, env, mode) is Some ==> args.len() > 0 && args[0] is Array,
{
}

/// A select is there for a key of the sort of the keys, and gives what the array holds there.
pub proof fn law_select(
    args: Seq<ValueView>,
    a: ArrayView,
    env: Map<Seq<char>, ValueView>,
    mode: FieldToBv,
)
    requires
        args.len() >= 2,
        args[0] == ValueView::Array(a),
    ensures
        op_result(Op::Select, args, env, mode) is Some <==> value_sort(args[1]) == a.key_sort,
        value_sort(args[1]) == a.key_sort ==> op_result(Op::Select, args, env, mode) == Some(
            array_select(a, args[1]),
        ),
{
}

/// Which entries there are after a store.
proof fn lemma_entries_after_store(
    s: Seq<(ValueView, ValueView)>,
    k: ValueView,
    v: ValueView,
    j: ValueView,
    x: ValueView,
)
    requires
        in_order(s),
    ensures
        entries_store(s, k, v).contains((j, x)) == (if j == k {
            x == v
        } else {
            s.contains((j, x))
        }),
{
    let out = entries_store(s, k, v);
    let p = insert_position(s, k) as int;
    lemma_insert_position(s, k);
    lemma_store_in_order(s, k, v);
    let hit = p < s.len() && s[p].0 == k;
    assert(out[p] == (k, v));
    if out.contains((j, x)) {
        let i = choose|i: int| 0 <= i < out.len() && out[i] == (j, x);
        if j == k {
            if i != p {
                lemma_key_before(k, k);
                if i < p {
                    assert(key_before(out[i].0, out[p].0));
                } else {
                    assert(key_before(out[p].0, out[i].0));
                }
            }
        } else {
            let i2 = if hit || i < p {
                i
            } else {
                i - 1
            };
            assert(s[i2] == out[i]);
        }
    }
    if j != k && s.contains((j, x)) {
        let i = choose|i: int| 0 <= i < s.len() && s[i] == (j, x);
        let i2 = if hit || i < p {
            i
        } else {
            i + 1
        };
        assert(out[i2] == s[i]);
    }
}

/// A store is there where the key and the value have the sorts that the array holds. It changes
/// neither the sort of the keys nor the size nor the default. Afterwards there is one entry for
/// its key, with its value, and for every other key there is what there was; the entries are in
/// order. A conditional store is that store where the fourth argument holds, and otherwise the
/// array as it was.
pub proof fn law_store(
    args: Seq<ValueView>,
    a: ArrayView,
    r: ArrayView,
    j: ValueView,
    x: ValueView,
    env: Map<Seq<char>, ValueView>,
    mode: FieldToBv,
)
    requires
        args.len() >= 3,
        args[0] == ValueView::Array(a),
        in_order(a.entries),
    ensures
        op_result(Op::Store, args, env, mode) is Some <==> value_sort(args[1]) == a.key_sort
            && value_sort(args[2]) == value_sort(*a.default),
        op_result(Op::Store, args, env, mode) is Some ==> op_result(Op::Store, args, env, mode)->0
            is Array,
        op_result(Op::Store, args, env, mode) == Some(ValueView::Array(r)) ==> r.key_sort
            == a.key_sort && r.size == a.size && r.default == a.default && in_order(r.entries) && (
        r.entries.contains((j, x)) <==> (if j == args[1] {
            x == args[2]
        } else {
            a.entries.contains((j, x))
        })),
        args.len() >= 4 && args[3] == ValueView::Bool(true) ==> op_result(
            Op::CStore,
            args,
            env,
            mode,
        ) == op_result(Op::Store, args, env, mode),
        args.len() >= 4 && args[3] == ValueView::Bool(false) ==> op_result(
            Op::CStore,
            args,
            env,
            mode,
        ) == Some(args[0]),
{
    lemma_entries_after_store(a.entries, args[1], args[2], j, x);
    lemma_store_in_order(a.entries, args[1], args[2]);
}

/// A filled array has its argument for default and no entries, and the keys and the size that
/// the operator says.
pub proof fn law_fill(
    o: FillOp,
    args: Seq<ValueView>,
    k: ValueView,
    env: Map<Seq<char>, ValueView>,
    mode: FieldToBv,
)
    ensures
        op_result(Op::Fill(Box::new(o)), args, env, mode) is Some <==> args.len() > 0,
        args.len() > 0 ==> op_result(Op::Fill(Box::new(o)), args, env, mode)->0 is Array,
        args.len() > 0 ==> op_result(Op::Fill(Box::new(o)), args, env, mode)->0->Array_0.key_sort
            == o.key_sort@,
        args.len() > 0 ==> op_result(Op::Fill(Box::new(o)), args, env, mode)->0->Array_0.size
            == o.size,
        args.len() > 0 ==> op_result(
            Op::Fill(Box::new(o)),
            args,
            env,
            mode,
        )->0->Array_0.entries.len() == 0,
        args.len() > 0 ==> array_select(
            op_result(Op::Fill(Box::new(o)), args, env, mode)->0->Array_0,
            k,
        ) == args[0],
{
}

/// An array of arguments is there where they all have the sort of the values, and the keys can
/// be counted off. Its size is how many they are, and it holds the `i`-th of them at the `i`-th
/// key, as far as there are keys, and no more entries.
pub proof fn law_array_of_arguments(
    o: ArrayOp,
    args: Seq<ValueView>,
    i: nat,
    env: Map<Seq<char>, ValueView>,
    mode: FieldToBv,
)
    ensures
        op_result(Op::Array(Box::new(o)), args, env, mode) is Some <==> key_count(o.key@) is Some
            && inhabited(o.val@) && forall|j: int|
            0 <= j < args.len() ==> value_sort(#[trigger] args[j]) == o.val@,
        op_result(Op::Array(Box::new(o)), args, env, mode) is Some ==> op_result(
            Op::Array(Box::new(o)),
            args,
            env,
            mode,
        )->0 is Array,
        op_result(Op::Array(Box::new(o)), args, env, mode) is Some ==> op_result(
            Op::Array(Box::new(o)),
            args,
            env,
            mode,
        )->0->Array_0.key_sort == o.key@,
        op_result(Op::Array(Box::new(o)), args, env, mode) is Some ==> op_result(
            Op::Array(Box::new(o)),
            args,
            env,
            mode,
        )->0->Array_0.size == args.len(),
        op_result(Op::Array(Box::new(o)), args, env, mode) is Some ==> *op_result(
            Op::Array(Box::new(o)),
            args,
            env,
            mode,
        )->0->Array_0.default == default_of(o.val@),
        op_result(Op::Array(Box::new(o)), args, env, mode) is Some ==> op_result(
            Op::Array(Box::new(o)),
            args,
            env,
            mode,
        )->0->Array_0.entries.len() == (if args.len() <= key_count(o.key@)->0 {
            args.len()
        } else {
            key_count(o.key@)->0
        }),
        op_result(Op::Array(Box::new(o)), args, env, mode) is Some && i < args.len() && i
            < key_count(o.key@)->0 ==> array_select(
            op_result(Op::Array(Box::new(o)), args, env, mode)->0->Array_0,
            nth_key(o.key@, i),
        ) == args[i as int],
{
    if op_result(Op::Array(Box::new(o)), args, env, mode) is Some && i < args.len() && i
        < key_count(o.key@)->0 {
        law_elements_of_array(o.key@, o.val@, args, i);
    }
}

/// A rotation by `n` places is there for arrays that are not empty and have bit-vectors for
/// keys, wide enough for every index where anything moves. It changes neither the keys nor the
/// size. The element at each index goes `n` places up, counted round the end.
pub proof fn law_rotation(
    n: usize,
    args: Seq<ValueView>,
    a: ArrayView,
    w: nat,
    r: ArrayView,
    i: nat,
    env: Map<Seq<char>, ValueView>,
    mode: FieldToBv,
)
    requires
        args.len() >= 1,
        args[0] == ValueView::Array(a),
    ensures
        op_result(Op::Rot(n), args, env, mode) is Some <==> a.key_sort is BitVector && a.size > 0
            && (a.size <= pow2(a.key_sort->BitVector_0) || n as nat % a.size == 0) && inhabited(
            value_sort(*a.default),
        ),
        op_result(Op::Rot(n), args, env, mode) is Some ==> op_result(Op::Rot(n), args, env, mode)->0
            is Array,
        a.key_sort == SortView::BitVector(w) && op_result(Op::Rot(n), args, env, mode) == Some(
            ValueView::Array(r),
        ) ==> r.key_sort == a.key_sort && r.size == a.size && *r.default == default_of(
            value_sort(*a.default),
        ) && r.entries.len() == (if a.size <= pow2(w) {
            a.size
        } else {
            pow2(w)
        }),
        a.key_sort == SortView::BitVector(w) && op_result(Op::Rot(n), args, env, mode) == Some(
            ValueView::Array(r),
        ) && i < a.size && a.size <= pow2(w) ==> array_select(
            r,
            ValueView::BitVector(BvView { uint: (i + n as nat) % a.size, width: w }),
        ) == array_select(a, ValueView::BitVector(BvView { uint: i, width: w })),
        a.key_sort == SortView::BitVector(w) && op_result(Op::Rot(n), args, env, mode) == Some(
            ValueView::Array(r),
        ) && i < a.size && i < pow2(w) && n as nat % a.size == 0 ==> array_select(
            r,
            ValueView::BitVector(BvView { uint: i, width: w }),
        ) == array_select(a, ValueView::BitVector(BvView { uint: i, width: w })),
{
    if a.key_sort == SortView::BitVector(w) && op_result(Op::Rot(n), args, env, mode) == Some(
        ValueView::Array(r),
    ) {
        assert(rot_result(n as nat, a) == Some(r));
        if i < a.size && a.size <= pow2(w) {
            law_rotation_moves_elements(a, n as nat, i);
        }
        if i < a.size && i < pow2(w) && n as nat % a.size == 0 {
            law_full_rotation(a, n as nat, i);
        }
    }
}

/// Items at the first keys are there where each of them is.
proof fn lemma_all_items(
    op: Op,
    args: Seq<ValueView>,
    k: SortView,
    n: nat,
    env: Map<Seq<char>, ValueView>,
    mode: FieldToBv,
)
    requires
        forall|j: nat|
            j < n ==> op_result(op, #[trigger] slice_at(args, nth_key(k, j)), env, mode) is Some,
    ensures
        map_items(op, args, k, n, env, mode) is Some,
    decreases n,
{
    if n > 0 {
        lemma_all_items(op, args, k, (n - 1) as nat, env, mode);
        let last = slice_at(args, nth_key(k, (n - 1) as nat));
        assert(op_result(op, last, env, mode) is Some);
    }
}

/// An operator mapped over arrays gives an array with the keys and the size of the first one. At
/// each index it holds the value of the operator on the elements of the arguments there, in the
/// order of the arguments.
pub proof fn law_map(
    inner: Op,
    args: Seq<ValueView>,
    r: ArrayView,
    j: nat,
    elements: Seq<ValueView>,
    env: Map<Seq<char>, ValueView>,
    mode: FieldToBv,
)
    requires
        op_result(Op::ArrayMap(Box::new(inner)), args, env, mode) == Some(ValueView::Array(r)),
        elements.len() == args.len(),
        forall|k: int|
            0 <= k < args.len() ==> #[trigger] elements[k] == array_select(
                args[k]->Array_0,
                nth_key(args[0]->Array_0.key_sort, j),
            ),
    ensures
        args.len() > 0,
        args[0] is Array,
        r.key_sort == args[0]->Array_0.key_sort,
        r.size == args[0]->Array_0.size,
        j < r.size && j < key_count(r.key_sort)->0 ==> op_result(inner, elements, env, mode)
            == Some(array_select(r, nth_key(r.key_sort, j))),
{
    let op = Op::ArrayMap(Box::new(inner));
    let s = value_sorts(args);
    assert(parallel(s));
    assert(s[0] == value_sort(args[0]));
    assert(args[0] is Array);
    if j < r.size && j < key_count(r.key_sort)->0 {
        law_elements_of_map(inner, args, j, env, mode);
        assert(slice_at(args, nth_key(args[0]->Array_0.key_sort, j)) =~= elements);
    }
}

/// A mapped operator has an array for its value, and only where sort checking accepts it; it has
/// one wherever the operator has a value at every index and the values have a default.
pub proof fn law_map_is_there(
    inner: Op,
    args: Seq<ValueView>,
    env: Map<Seq<char>, ValueView>,
    mode: FieldToBv,
)
    ensures
        op_result(Op::ArrayMap(Box::new(inner)), args, env, mode) is Some ==> op_result(
            Op::ArrayMap(Box::new(inner)),
            args,
            env,
            mode,
        )->0 is Array && op_sort(Op::ArrayMap(Box::new(inner)), value_sorts(args)) is Some,
        op_result(Op::ArrayMap(Box::new(inner)), args, env, mode) is Some ==> *op_result(
            Op::ArrayMap(Box::new(inner)),
            args,
            env,
            mode,
        )->0->Array_0.default == default_of(
            *op_sort(Op::ArrayMap(Box::new(inner)), value_sorts(args))->0->Array_1,
        ),
        match op_sort(Op::ArrayMap(Box::new(inner)), value_sorts(args)) {
            Some(SortView::Array(k, v, size)) => key_count(*k) is Some && inhabited(*v) && (
            forall|j: nat|
                j < size && j < key_count(*k)->0 ==> op_result(
                    inner,
                    #[trigger] slice_at(args, nth_key(*k, j)),
                    env,
                    mode,
                ) is Some) ==> op_result(Op::ArrayMap(Box::new(inner)), args, env, mode) is Some,
            _ => true,
        },
{
    let op = Op::ArrayMap(Box::new(inner));
    match op_sort(op, value_sorts(args)) {
        Some(SortView::Array(k, v, size)) => {
            if key_count(*k) is Some && inhabited(*v) && (forall|j: nat|
                j < size && j < key_count(*k)->0 ==> op_result(
                    inner,
                    #[trigger] slice_at(args, nth_key(*k, j)),
                    env,
                    mode,
                ) is Some) {
                lemma_all_items(inner, args, *k, index_count(*k, size)->0, env, mode);
            }
        },
        _ => {},
    }
}

} // verus!
