//! Operators that make tuples and arrays, or take them apart.

use crate::args::{arg_views, copies, nth, nth_array, nth_bool, nth_tuple, value_option};
use crate::semantics::{
    array_result, checked_store, cond_store_result, rot_items, rot_result, rot_source,
    select_result, slice_at, store_result, update_result,
};
use crate::sort::{key_count, sort_view, sort_views, Sort};
use crate::value::{
    index_count, nth_key, value_sort, value_sorts, value_view, value_views, Array, ArrayView, Value,
};
use vstd::arithmetic::div_mod::{lemma_mod_add_multiples_vanish, lemma_small_mod};
use vstd::prelude::*;

verus! {

/// The view of an array that may be missing.
pub open spec fn array_option(r: Option<Array>) -> Option<ArrayView> {
    match r {
        Some(a) => Some(a@),
        None => None,
    }
}

/// A copy of several values.
pub fn copy_values(t: &Vec<Value>) -> (r: Vec<Value>)
    ensures
        value_views(r@) == value_views(t@),
{
    let mut out: Vec<Value> = Vec::new();
    let mut i: usize = 0;
    while i < t.len()
        invariant
            i <= t@.len(),
            out@.len() == i,
            forall|j: int| 0 <= j < i ==> value_view(#[trigger] out@[j]) == value_view(t@[j]),
        decreases t@.len() - i,
    {
        out.push(t[i].clone());
        i = i + 1;
    }
    assert(value_views(out@) =~= value_views(t@));
    out
}

/// The tuple of the first argument with the second one for its field `i`.
pub fn eval_update(i: usize, args: &[&Value]) -> (r: Option<Vec<Value>>)
    ensures
        match r {
            Some(t) => update_result(i as int, arg_views(args@)) == Some(value_views(t@)),
            None => update_result(i as int, arg_views(args@)) is None,
        },
{
    match (nth_tuple(args, 0), nth(args, 1)) {
        (Some(t), Some(v)) => {
            if i >= t.len() {
                return None;
            }
            assert(value_views(t@)[i as int] == t@[i as int]@);
            if !t[i].sort().same(&v.sort()) {
                return None;
            }
            let mut out: Vec<Value> = copy_values(t);
            let ghost before = value_views(out@);
            out.set(i, v.clone());
            assert(value_views(out@) =~= before.update(i as int, v@));
            Some(out)
        },
        _ => None,
    }
}

/// The array `a` with `v` at the key `k`, where both have the sorts that the array holds.
fn eval_checked_store(a: &Array, k: &Value, v: &Value) -> (r: Option<Array>)
    ensures
        array_option(r) == checked_store(a@, k@, v@),
{
    if k.sort().same(a.key_sort()) && v.sort().same(&a.default_value().sort()) {
        Some(a.clone().store(k.clone(), v.clone()))
    } else {
        None
    }
}

/// The first argument with the third one at the key that the second one is.
pub fn eval_store(args: &[&Value]) -> (r: Option<Array>)
    ensures
        array_option(r) == store_result(arg_views(args@)),
{
    match (nth_array(args, 0), nth(args, 1), nth(args, 2)) {
        (Some(a), Some(k), Some(v)) => eval_checked_store(a, k, v),
        _ => None,
    }
}

/// The same where the fourth argument holds.
pub fn eval_cond_store(args: &[&Value]) -> (r: Option<Array>)
    ensures
        array_option(r) == cond_store_result(arg_views(args@)),
{
    match (nth_array(args, 0), nth(args, 1), nth(args, 2), nth_bool(args, 3)) {
        (Some(a), Some(k), Some(v), Some(c)) => if c {
            eval_checked_store(a, k, v)
        } else {
            Some(a.clone())
        },
        _ => None,
    }
}

/// What the first argument holds at the key that the second one is.
pub fn eval_select(args: &[&Value]) -> (r: Option<Value>)
    ensures
        value_option(r) == select_result(arg_views(args@)),
{
    match (nth_array(args, 0), nth(args, 1)) {
        (Some(a), Some(k)) => if k.sort().same(a.key_sort()) {
            Some(a.select(k).clone())
        } else {
            None
        },
        _ => None,
    }
}

/// The array of the arguments.
pub fn eval_array(key: &Sort, val: &Sort, args: &[&Value]) -> (r: Option<Array>)
    ensures
        array_option(r) == array_result(key@, val@, arg_views(args@)),
{
    let ghost s = arg_views(args@);
    let size: usize = args.len();
    let mut i: usize = 0;
    while i < size
        invariant
            size == args@.len(),
            s == arg_views(args@),
            i <= size,
            forall|j: int| 0 <= j < i ==> value_sort(#[trigger] s[j]) == val@,
        decreases size - i,
    {
        assert(s[i as int] == args@[i as int]@);
        if !args[i].sort().same(val) {
            return None;
        }
        i = i + 1;
    }
    match (key.keys_up_to(size), val.default_value()) {
        (Some(n), Some(d)) => Some(Array::of_items(key.clone(), d, copies(args, n), size)),
        _ => None,
    }
}

/// The index that an element at `j` comes from.
fn source_index(j: usize, n: usize, size: usize) -> (r: usize)
    requires
        j < size,
    ensures
        r == rot_source(j as nat, n as nat, size as nat),
        r < size,
{
    let rot: usize = n % size;
    if j >= rot {
        proof {
            lemma_mod_add_multiples_vanish(j - rot, size as int);
            lemma_small_mod((j - rot) as nat, size as nat);
        }
        j - rot
    } else {
        proof {
            lemma_small_mod((j + size - rot) as nat, size as nat);
        }
        j + (size - rot)
    }
}

/// The array with its elements moved up by `n` places.
pub fn eval_rot(n: usize, a: &Array) -> (r: Option<Array>)
    ensures
        array_option(r) == rot_result(n as nat, a@),
{
    let size: usize = a.size();
    let w: usize = match a.key_sort() {
        Sort::BitVector(w) => *w,
        _ => {
            return None;
        },
    };
    if size == 0 {
        return None;
    }
    let count: usize = match a.index_count() {
        Some(count) => count,
        None => {
            return None;
        },
    };
    if count < size && n % size != 0 {
        return None;
    }
    let default: Value = match a.default_value().sort().default_value() {
        Some(d) => d,
        None => {
            return None;
        },
    };
    let mut items: Vec<Value> = Vec::new();
    let ghost expected = rot_items(a@, n as nat, count as nat);
    let mut j: usize = 0;
    while j < count
        invariant
            j <= count <= size,
            size == a@.size,
            count == size || n % size == 0,
            key_count(a@.key_sort) is Some,
            count <= key_count(a@.key_sort)->0,
            items@.len() == j,
            expected == rot_items(a@, n as nat, count as nat),
            forall|l: int| 0 <= l < j ==> value_view(#[trigger] items@[l]) == expected[l],
        decreases count - j,
    {
        let source: usize = source_index(j, n, size);
        proof {
            if n % size == 0 {
                lemma_mod_add_multiples_vanish(j as int, size as int);
                lemma_small_mod(j as nat, size as nat);
            }
        }
        let key: Value = a.key_sort().nth_key(source);
        items.push(a.select(&key).clone());
        j = j + 1;
    }
    assert(value_views(items@) =~= expected);
    Some(Array::of_items(a.key_sort().clone(), default, items, size))
}

/// The elements of several arrays at one key.
pub fn eval_slice<'a>(args: &[&'a Value], k: &Value) -> (r: Vec<&'a Value>)
    requires
        forall|i: int| 0 <= i < args@.len() ==> (#[trigger] args@[i])@ is Array,
    ensures
        arg_views(r@) == slice_at(arg_views(args@), k@),
{
    let ghost s = slice_at(arg_views(args@), k@);
    let mut out: Vec<&'a Value> = Vec::new();
    let mut i: usize = 0;
    while i < args.len()
        invariant
            i <= args@.len(),
            s == slice_at(arg_views(args@), k@),
            out@.len() == i,
            forall|j: int| 0 <= j < args@.len() ==> (#[trigger] args@[j])@ is Array,
            forall|j: int| 0 <= j < i ==> (#[trigger] out@[j])@ == s[j],
        decreases args@.len() - i,
    {
        assert(args@[i as int]@ is Array);
        match args[i] {
            Value::Array(a) => {
                out.push(a.select(k));
            },
            _ => {},
        }
        i = i + 1;
    }
    assert(arg_views(out@) =~= s);
    out
}

/// The sorts of arguments.
pub fn arg_sorts(args: &[&Value]) -> (r: Vec<Sort>)
    ensures
        sort_views(r@) == value_sorts(arg_views(args@)),
{
    let mut out: Vec<Sort> = Vec::new();
    let mut i: usize = 0;
    while i < args.len()
        invariant
            i <= args@.len(),
            out@.len() == i,
            forall|j: int| 0 <= j < i ==> sort_view(#[trigger] out@[j]) == value_sort(args@[j]@),
        decreases args@.len() - i,
    {
        out.push(args[i].sort());
        i = i + 1;
    }
    assert(sort_views(out@) =~= value_sorts(arg_views(args@)));
    out
}

} // verus!
