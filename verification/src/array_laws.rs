//! What holds of operators on tuples and arrays together.

use crate::check::{op_sort, parallel};
use crate::op::{FieldToBv, Op};
use crate::semantics::{
    array_result, map_items, op_result, rot_items, rot_result, rot_source, slice_at,
};
use crate::sort::{key_count, SortView};
use crate::value::{
    array_fill, array_of, array_select, array_store, default_of, entries_store, has_key, in_order,
    index_count, insert_position, key_index, lemma_array_of_in_order, lemma_insert_position,
    lemma_key_index, lemma_store_in_order, nth_key, value_sort, value_sorts, ArrayView, ValueView,
};
use vstd::arithmetic::div_mod::{
    lemma_add_mod_noop, lemma_add_mod_noop_right, lemma_mod_add_multiples_vanish, lemma_mod_bound,
    lemma_mod_twice, lemma_small_mod,
};
use vstd::prelude::*;

verus! {

/// What a store put at a key is what the array then holds there; at every other key it holds
/// what it held.
pub proof fn law_select_of_store(a: ArrayView, k: ValueView, v: ValueView, j: ValueView)
    requires
        in_order(a.entries),
    ensures
        array_select(array_store(a, k, v), j) == (if j == k {
            v
        } else {
            array_select(a, j)
        }),
{
    let s = a.entries;
    let out = entries_store(s, k, v);
    let p = insert_position(s, k) as int;
    lemma_insert_position(s, k);
    lemma_store_in_order(s, k, v);
    let hit = p < s.len() && s[p].0 == k;
    assert(out[p] == (k, v));
    lemma_key_index(out, p);
    if j != k {
        if has_key(s, j) {
            let i = key_index(s, j);
            assert(0 <= i < s.len() && s[i].0 == j);
            lemma_key_index(s, i);
            let i2 = if hit || i < p {
                i
            } else {
                i + 1
            };
            assert(out[i2] == s[i]);
            lemma_key_index(out, i2);
        } else if has_key(out, j) {
            let i = key_index(out, j);
            assert(0 <= i < out.len() && out[i].0 == j);
            let i2 = if hit || i < p {
                i
            } else {
                i - 1
            };
            assert(i != p);
            assert(s[i2] == out[i]);
        }
    }
}

/// The array that a store gives holds its entries in order, one for each key.
pub proof fn law_store_keeps_order(a: ArrayView, k: ValueView, v: ValueView)
    requires
        in_order(a.entries),
    ensures
        in_order(array_store(a, k, v).entries),
{
    lemma_store_in_order(a.entries, k, v);
}

/// Selecting from the result of a store gives the stored value at the key of the store, and at
/// another key of that sort what selecting from the array gives.
pub proof fn law_select_store_operators(
    a: ArrayView,
    k: ValueView,
    v: ValueView,
    j: ValueView,
    env: Map<Seq<char>, ValueView>,
    mode: FieldToBv,
)
    requires
        in_order(a.entries),
        op_result(Op::Store, seq![ValueView::Array(a), k, v], env, mode) is Some,
        value_sort(j) == a.key_sort,
    ensures
        op_result(
            Op::Select,
            seq![op_result(Op::Store, seq![ValueView::Array(a), k, v], env, mode)->0, j],
            env,
            mode,
        ) == (if j == k {
            Some(v)
        } else {
            op_result(Op::Select, seq![ValueView::Array(a), j], env, mode)
        }),
{
    law_select_of_store(a, k, v, j);
}

/// A conditional store is a store where the condition holds, and changes nothing where it does
/// not.
pub proof fn law_conditional_store(
    a: ArrayView,
    k: ValueView,
    v: ValueView,
    c: bool,
    env: Map<Seq<char>, ValueView>,
    mode: FieldToBv,
)
    ensures
        op_result(
            Op::CStore,
            seq![ValueView::Array(a), k, v, ValueView::Bool(c)],
            env,
            mode,
        ) == (if c {
            op_result(Op::Store, seq![ValueView::Array(a), k, v], env, mode)
        } else {
            Some(ValueView::Array(a))
        }),
{
}

/// A filled array holds the same value at every key.
pub proof fn law_select_of_fill(key_sort: SortView, v: ValueView, size: nat, k: ValueView)
    ensures
        array_select(array_fill(key_sort, v, size), k) == v,
{
}

/// An array made of items holds the `i`-th of them at the `i`-th key.
pub proof fn law_select_of_items(
    key: SortView,
    default: ValueView,
    items: Seq<ValueView>,
    size: nat,
    i: nat,
)
    requires
        key_count(key) is Some,
        i < items.len() <= key_count(key)->0,
    ensures
        array_select(array_of(key, default, items, size), nth_key(key, i)) == items[i as int],
{
    let a = array_of(key, default, items, size);
    lemma_array_of_in_order(key, default, items, size);
    assert(a.entries[i as int].0 == nth_key(key, i));
    lemma_key_index(a.entries, i as int);
}

/// The array of several arguments holds the `i`-th of them at the `i`-th key, as far as there
/// are keys.
pub proof fn law_elements_of_array(
    key: SortView,
    val: SortView,
    args: Seq<ValueView>,
    i: nat,
)
    requires
        array_result(key, val, args) is Some,
        i < args.len(),
        i < key_count(key)->0,
    ensures
        array_select(array_result(key, val, args)->0, nth_key(key, i)) == args[i as int],
{
    let n = index_count(key, args.len())->0;
    law_select_of_items(
        key,
        default_of(val),
        args.take(n as int),
        args.len(),
        i,
    );
}

/// The items of a map stand for the first keys, one for each.
proof fn lemma_map_items(
    op: Op,
    args: Seq<ValueView>,
    k: SortView,
    n: nat,
    env: Map<Seq<char>, ValueView>,
    mode: FieldToBv,
)
    requires
        map_items(op, args, k, n, env, mode) is Some,
    ensures
        map_items(op, args, k, n, env, mode)->0.len() == n,
        forall|j: int|
            0 <= j < n ==> op_result(op, slice_at(args, nth_key(k, j as nat)), env, mode) == Some(
                #[trigger] map_items(op, args, k, n, env, mode)->0[j],
            ),
    decreases n,
{
    if n > 0 {
        lemma_map_items(op, args, k, (n - 1) as nat, env, mode);
    }
}

/// An operator mapped over arrays gives, at each index, its value on the elements there.
pub proof fn law_elements_of_map(
    inner: Op,
    args: Seq<ValueView>,
    j: nat,
    env: Map<Seq<char>, ValueView>,
    mode: FieldToBv,
)
    requires
        op_result(Op::ArrayMap(Box::new(inner)), args, env, mode) is Some,
        j < args[0]->Array_0.size,
        j < key_count(args[0]->Array_0.key_sort)->0,
    ensures
        op_result(Op::ArrayMap(Box::new(inner)), args, env, mode)->0 is Array,
        op_result(
            inner,
            slice_at(args, nth_key(args[0]->Array_0.key_sort, j)),
            env,
            mode,
        ) == Some(
            array_select(
                op_result(Op::ArrayMap(Box::new(inner)), args, env, mode)->0->Array_0,
                nth_key(args[0]->Array_0.key_sort, j),
            ),
        ),
{
    let op = Op::ArrayMap(Box::new(inner));
    let s = value_sorts(args);
    let sort = op_sort(op, s)->0;
    assert(parallel(s));
    assert(s[0] == value_sort(args[0]));
    assert(args[0] is Array);
    let k = args[0]->Array_0.key_sort;
    let size = args[0]->Array_0.size;
    let n = index_count(k, size)->0;
    let items = map_items(inner, args, k, n, env, mode)->0;
    lemma_map_items(inner, args, k, n, env, mode);
    law_select_of_items(k, default_of(*sort->Array_1), items, size, j);
    assert(op_result(inner, slice_at(args, nth_key(k, j)), env, mode) == Some(items[j as int]));
}

/// Where an element goes when all are moved up by `n` places, and where what stands there came
/// from, undo each other.
proof fn lemma_rot_source(i: nat, n: nat, size: nat)
    requires
        i < size,
    ensures
        rot_source((i + n) % size, n, size) == i,
        (i + n) % size < size,
{
    let j = (i + n) % size;
    let r = n % size;
    let m = size as int;
    // j + size - r and i leave the same remainder
    lemma_add_mod_noop_right(i as int, n as int, m);
    assert((i + n) % size == (i + r) % size);
    if i + r < size {
        lemma_small_mod(i + r, size);
        lemma_mod_add_multiples_vanish(i as int, m);
        assert(j + m - r == m + i);
    } else {
        lemma_mod_add_multiples_vanish(i + r - m, m);
        lemma_small_mod((i + r - m) as nat, size);
        assert(j + m - r == i as int);
    }
    lemma_small_mod(i, size);
}

/// A rotation by `n` places moves the element at the index `i` to the index `i + n`, counted
/// round the end.
pub proof fn law_rotation_moves_elements(a: ArrayView, n: nat, i: nat)
    requires
        rot_result(n, a) is Some,
        a.size <= key_count(a.key_sort)->0,
        i < a.size,
    ensures
        array_select(rot_result(n, a)->0, nth_key(a.key_sort, (i + n) % a.size)) == array_select(
            a,
            nth_key(a.key_sort, i),
        ),
{
    let j = (i + n) % a.size;
    lemma_rot_source(i, n, a.size);
    let items = rot_items(a, n, a.size);
    law_select_of_items(
        a.key_sort,
        default_of(value_sort(*a.default)),
        items,
        a.size,
        j,
    );
    assert(items[j as int] == array_select(a, nth_key(a.key_sort, i)));
}

/// A rotation by a multiple of the size leaves every element at its index.
pub proof fn law_full_rotation(a: ArrayView, n: nat, i: nat)
    requires
        rot_result(n, a) is Some,
        n % a.size == 0,
        i < a.size,
        i < key_count(a.key_sort)->0,
    ensures
        array_select(rot_result(n, a)->0, nth_key(a.key_sort, i)) == array_select(
            a,
            nth_key(a.key_sort, i),
        ),
{
    let count = index_count(a.key_sort, a.size)->0;
    let items = rot_items(a, n, count);
    lemma_mod_add_multiples_vanish(i as int, a.size as int);
    lemma_small_mod(i, a.size);
    law_select_of_items(
        a.key_sort,
        default_of(value_sort(*a.default)),
        items,
        a.size,
        i,
    );
    assert(items[i as int] == array_select(a, nth_key(a.key_sort, i)));
}

/// Two rotations one after the other move the elements as one by the sum of their places does.
pub proof fn law_rotations_add_up(a: ArrayView, m: nat, n: nat, i: nat)
    requires
        rot_result(m, a) is Some,
        rot_result(n, rot_result(m, a)->0) is Some,
        a.size <= key_count(a.key_sort)->0,
        i < a.size,
    ensures
        array_select(
            rot_result(n, rot_result(m, a)->0)->0,
            nth_key(a.key_sort, i),
        ) == array_select(rot_result(m + n, a)->0, nth_key(a.key_sort, i)),
{
    let size = a.size;
    let b = rot_result(m, a)->0;
    // the index in `a` that the element at `i` comes from
    let s = rot_source(i, m + n, size);
    lemma_rot_target(i, m + n, size);
    assert((s + (m + n)) % size == i);
    law_rotation_moves_elements(a, m + n, s);
    law_rotation_moves_elements(a, m, s);
    let j = (s + m) % size;
    law_rotation_moves_elements(b, n, j);
    lemma_mod_bound((s + m) as int, size as int);
    lemma_add_mod_noop((s + m) as int, n as int, size as int);
    lemma_mod_twice((s + m) as int, size as int);
    lemma_add_mod_noop(j as int, n as int, size as int);
    assert((j + n) % size == ((s + m) + n) % size);
    assert((s + m) + n == s + (m + n));
}

/// The element that comes to an index goes there from where it came.
proof fn lemma_rot_target(j: nat, n: nat, size: nat)
    requires
        j < size,
    ensures
        rot_source(j, n, size) < size,
        (rot_source(j, n, size) + n) % size == j,
{
    let r = n % size;
    let m = size as int;
    let i = rot_source(j, n, size);
    if j >= r {
        lemma_mod_add_multiples_vanish(j - r, m);
        lemma_small_mod((j - r) as nat, size);
        assert(i == j - r);
        lemma_add_mod_noop_right(i as int, n as int, m);
        assert((i + n) % size == (i + r) % size);
        lemma_small_mod(j, size);
    } else {
        lemma_small_mod((j + m - r) as nat, size);
        assert(i == j + m - r);
        lemma_add_mod_noop_right(i as int, n as int, m);
        assert((i + n) % size == (i + r) % size);
        lemma_mod_add_multiples_vanish(j as int, m);
        lemma_small_mod(j, size);
    }
}

/// A field of a tuple of arguments is the argument at its place.
pub proof fn law_field_of_tuple(
    args: Seq<ValueView>,
    i: usize,
    env: Map<Seq<char>, ValueView>,
    mode: FieldToBv,
)
    requires
        i < args.len(),
    ensures
        op_result(
            Op::Field(i),
            seq![op_result(Op::Tuple, args, env, mode)->0],
            env,
            mode,
        ) == Some(args[i as int]),
{
}

/// An updated tuple has the new value for the updated field, and every other field as it was.
pub proof fn law_field_of_update(
    t: Seq<ValueView>,
    v: ValueView,
    i: usize,
    j: usize,
    env: Map<Seq<char>, ValueView>,
    mode: FieldToBv,
)
    requires
        op_result(Op::Update(i), seq![ValueView::Tuple(t), v], env, mode) is Some,
        j < t.len(),
    ensures
        op_result(
            Op::Field(j),
            seq![op_result(Op::Update(i), seq![ValueView::Tuple(t), v], env, mode)->0],
            env,
            mode,
        ) == Some(
            if i == j {
                v
            } else {
                t[j as int]
            },
        ),
{
}

} // verus!
