//! What holds of the evaluation of terms as a whole.

use crate::check::op_sort;
use crate::interp::{
    cache_extends, cache_views, cached_args, cached_result, held, holds_all, needs, term_result,
};
use crate::op::{FieldToBv, Op, Var};
use crate::semantics::{map_items, op_result, slice_at};
use crate::sort::SortView;
use crate::term::NodeView;
use crate::value::{index_count, nth_key, value_sorts, Value, ValueView};
use vstd::prelude::*;

verus! {

/// Whether a cache holds only values that the terms have.
pub open spec fn right_cache(
    tbl: Seq<NodeView>,
    cache: Map<usize, ValueView>,
    env: Map<Seq<char>, ValueView>,
    mode: FieldToBv,
) -> bool {
    forall|id: usize| #[trigger]
        cache.contains_key(id) ==> term_result(tbl, id, env, mode) == Some(cache[id])
}

/// A term has the same value over every cache that holds only values that the terms have.
pub proof fn law_right_cache_changes_nothing(
    tbl: Seq<NodeView>,
    cache: Map<usize, ValueView>,
    id: usize,
    env: Map<Seq<char>, ValueView>,
    mode: FieldToBv,
)
    requires
        right_cache(tbl, cache, env, mode),
    ensures
        cached_result(tbl, cache, id, env, mode) == term_result(tbl, id, env, mode),
    decreases id, tbl[id as int].cs.len() + 1,
{
    if !cache.contains_key(id) && id < tbl.len() {
        lemma_right_cache_args(tbl, cache, id, tbl[id as int].cs.len(), env, mode);
    }
}

/// The same of the first `n` children of a term.
proof fn lemma_right_cache_args(
    tbl: Seq<NodeView>,
    cache: Map<usize, ValueView>,
    id: usize,
    n: nat,
    env: Map<Seq<char>, ValueView>,
    mode: FieldToBv,
)
    requires
        right_cache(tbl, cache, env, mode),
        n <= tbl[id as int].cs.len(),
    ensures
        cached_args(tbl, cache, id, n, env, mode) == cached_args(
            tbl,
            Map::empty(),
            id,
            n,
            env,
            mode,
        ),
    decreases id, n,
{
    if n > 0 && tbl[id as int].cs[n - 1] < id {
        lemma_right_cache_args(tbl, cache, id, (n - 1) as nat, env, mode);
        law_right_cache_changes_nothing(tbl, cache, tbl[id as int].cs[n - 1], env, mode);
    }
}

/// Evaluating a term leaves a cache that holds only values that the terms have, where it was
/// such a cache before.
pub proof fn law_cache_stays_right(
    tbl: Seq<NodeView>,
    before: Map<usize, ValueView>,
    cache: Map<usize, ValueView>,
    t: usize,
    env: Map<Seq<char>, ValueView>,
    mode: FieldToBv,
)
    requires
        right_cache(tbl, before, env, mode),
        cache_extends(tbl, before, cache, t, env, mode),
    ensures
        right_cache(tbl, cache, env, mode),
{
    assert forall|id: usize| #[trigger] cache.contains_key(id) implies term_result(
        tbl,
        id,
        env,
        mode,
    ) == Some(cache[id]) by {
        law_right_cache_changes_nothing(tbl, before, id, env, mode);
        if before.contains_key(id) {
            assert(cache[id] == before[id]);
        }
    }
}

/// Evaluating a term changes the value of no term: each has the same value over the cache after
/// it as over the cache before it.
pub proof fn law_evaluation_changes_no_value(
    tbl: Seq<NodeView>,
    before: Map<usize, ValueView>,
    cache: Map<usize, ValueView>,
    t: usize,
    id: usize,
    env: Map<Seq<char>, ValueView>,
    mode: FieldToBv,
)
    requires
        cache_extends(tbl, before, cache, t, env, mode),
    ensures
        cached_result(tbl, cache, id, env, mode) == cached_result(tbl, before, id, env, mode),
    decreases id, tbl[id as int].cs.len() + 1,
{
    if cache.contains_key(id) {
        if before.contains_key(id) {
            assert(cache[id] == before[id]);
        }
    } else {
        assert(!before.contains_key(id));
        if id < tbl.len() {
            lemma_evaluation_args(
                tbl,
                before,
                cache,
                t,
                id,
                tbl[id as int].cs.len(),
                env,
                mode,
            );
        }
    }
}

/// The same of the first `n` children of a term.
proof fn lemma_evaluation_args(
    tbl: Seq<NodeView>,
    before: Map<usize, ValueView>,
    cache: Map<usize, ValueView>,
    t: usize,
    id: usize,
    n: nat,
    env: Map<Seq<char>, ValueView>,
    mode: FieldToBv,
)
    requires
        cache_extends(tbl, before, cache, t, env, mode),
        n <= tbl[id as int].cs.len(),
    ensures
        cached_args(tbl, cache, id, n, env, mode) == cached_args(tbl, before, id, n, env, mode),
    decreases id, n,
{
    if n > 0 && tbl[id as int].cs[n - 1] < id {
        lemma_evaluation_args(tbl, before, cache, t, id, (n - 1) as nat, env, mode);
        law_evaluation_changes_no_value(
            tbl,
            before,
            cache,
            t,
            tbl[id as int].cs[n - 1],
            env,
            mode,
        );
    }
}

/// A term that the cache holds needs nothing: no term is evaluated for it.
pub proof fn law_cached_needs_nothing(
    tbl: Seq<NodeView>,
    cache: Map<usize, ValueView>,
    t: usize,
    id: usize,
)
    requires
        cache.contains_key(t),
    ensures
        !needs(tbl, cache, t, id),
{
}

/// A new term in the table changes the value of no earlier term.
pub proof fn law_new_term_changes_no_value(
    tbl: Seq<NodeView>,
    node: NodeView,
    cache: Map<usize, ValueView>,
    id: usize,
    env: Map<Seq<char>, ValueView>,
    mode: FieldToBv,
)
    requires
        id < tbl.len(),
    ensures
        cached_result(tbl.push(node), cache, id, env, mode) == cached_result(
            tbl,
            cache,
            id,
            env,
            mode,
        ),
    decreases id, tbl[id as int].cs.len() + 1,
{
    if !cache.contains_key(id) {
        lemma_new_term_args(tbl, node, cache, id, tbl[id as int].cs.len(), env, mode);
    }
}

/// The same of the first `n` children of a term.
proof fn lemma_new_term_args(
    tbl: Seq<NodeView>,
    node: NodeView,
    cache: Map<usize, ValueView>,
    id: usize,
    n: nat,
    env: Map<Seq<char>, ValueView>,
    mode: FieldToBv,
)
    requires
        id < tbl.len(),
        n <= tbl[id as int].cs.len(),
    ensures
        cached_args(tbl.push(node), cache, id, n, env, mode) == cached_args(
            tbl,
            cache,
            id,
            n,
            env,
            mode,
        ),
    decreases id, n,
{
    if n > 0 && tbl[id as int].cs[n - 1] < id {
        lemma_new_term_args(tbl, node, cache, id, (n - 1) as nat, env, mode);
        law_new_term_changes_no_value(tbl, node, cache, tbl[id as int].cs[n - 1], env, mode);
    }
}

/// Whether an operator reads the variable `name`.
pub open spec fn reads(op: Op, name: Seq<char>) -> bool
    decreases op,
{
    match op {
        Op::Var(v) => v.name@ == name,
        Op::ArrayMap(inner) => reads(*inner, name),
        _ => false,
    }
}

/// Whether two environments give the variable `name` the same value, or both none.
pub open spec fn agree(
    a: Map<Seq<char>, ValueView>,
    b: Map<Seq<char>, ValueView>,
    name: Seq<char>,
) -> bool {
    a.contains_key(name) == b.contains_key(name) && (a.contains_key(name) ==> a[name] == b[name])
}

/// The value of an operator depends on no variable but those that it reads.
pub proof fn law_operator_reads_its_variables(
    op: Op,
    args: Seq<ValueView>,
    a: Map<Seq<char>, ValueView>,
    b: Map<Seq<char>, ValueView>,
    mode: FieldToBv,
)
    requires
        forall|name: Seq<char>| reads(op, name) ==> #[trigger] agree(a, b, name),
    ensures
        op_result(op, args, a, mode) == op_result(op, args, b, mode),
    decreases op, 0nat,
{
    match op {
        Op::Var(v) => {
            assert(agree(a, b, v.name@));
        },
        Op::ArrayMap(inner) => {
            assert forall|name: Seq<char>| reads(*inner, name) implies #[trigger] agree(
                a,
                b,
                name,
            ) by {
                assert(reads(op, name));
            }
            match op_sort(op, value_sorts(args)) {
                Some(SortView::Array(k, v, size)) => {
                    match index_count(*k, size) {
                        Some(n) => {
                            lemma_map_reads(*inner, args, *k, n, a, b, mode);
                        },
                        None => {},
                    }
                },
                _ => {},
            }
        },
        _ => {},
    }
}

/// The same of an operator applied to arrays element by element.
proof fn lemma_map_reads(
    op: Op,
    args: Seq<ValueView>,
    k: SortView,
    n: nat,
    a: Map<Seq<char>, ValueView>,
    b: Map<Seq<char>, ValueView>,
    mode: FieldToBv,
)
    requires
        forall|name: Seq<char>| reads(op, name) ==> #[trigger] agree(a, b, name),
    ensures
        map_items(op, args, k, n, a, mode) == map_items(op, args, k, n, b, mode),
    decreases op, n,
{
    if n > 0 {
        lemma_map_reads(op, args, k, (n - 1) as nat, a, b, mode);
        let elements = slice_at(args, nth_key(k, (n - 1) as nat));
        law_operator_reads_its_variables(op, elements, a, b, mode);
    }
}

/// The value of a term depends on no variable but those that the operators of the terms that
/// it needs read.
pub proof fn law_term_reads_its_variables(
    tbl: Seq<NodeView>,
    cache: Map<usize, ValueView>,
    id: usize,
    a: Map<Seq<char>, ValueView>,
    b: Map<Seq<char>, ValueView>,
    mode: FieldToBv,
)
    requires
        forall|i: usize, name: Seq<char>|
            #![trigger tbl[i as int], agree(a, b, name)]
            i < tbl.len() && needs(tbl, cache, id, i) && reads(tbl[i as int].op, name) ==> agree(
                a,
                b,
                name,
            ),
    ensures
        cached_result(tbl, cache, id, a, mode) == cached_result(tbl, cache, id, b, mode),
    decreases id, tbl[id as int].cs.len() + 1,
{
    if !cache.contains_key(id) && id < tbl.len() {
        assert(needs(tbl, cache, id, id));
        lemma_args_read(tbl, cache, id, tbl[id as int].cs.len(), a, b, mode);
        match cached_args(tbl, cache, id, tbl[id as int].cs.len(), a, mode) {
            Some(args) => {
                assert forall|name: Seq<char>|
                    reads(tbl[id as int].op, name) implies #[trigger] agree(a, b, name) by {
                    let node = tbl[id as int];
                }
                law_operator_reads_its_variables(tbl[id as int].op, args, a, b, mode);
            },
            None => {},
        }
    }
}

/// The same of the first `n` children of a term.
proof fn lemma_args_read(
    tbl: Seq<NodeView>,
    cache: Map<usize, ValueView>,
    id: usize,
    n: nat,
    a: Map<Seq<char>, ValueView>,
    b: Map<Seq<char>, ValueView>,
    mode: FieldToBv,
)
    requires
        id < tbl.len(),
        !cache.contains_key(id),
        n <= tbl[id as int].cs.len(),
        forall|i: usize, name: Seq<char>|
            #![trigger tbl[i as int], agree(a, b, name)]
            i < tbl.len() && needs(tbl, cache, id, i) && reads(tbl[i as int].op, name) ==> agree(
                a,
                b,
                name,
            ),
    ensures
        cached_args(tbl, cache, id, n, a, mode) == cached_args(tbl, cache, id, n, b, mode),
    decreases id, n,
{
    if n > 0 && tbl[id as int].cs[n - 1] < id {
        lemma_args_read(tbl, cache, id, (n - 1) as nat, a, b, mode);
        let c = tbl[id as int].cs[n - 1];
        assert forall|i: usize, name: Seq<char>|
            #![trigger tbl[i as int], agree(a, b, name)]
            i < tbl.len() && needs(tbl, cache, c, i) && reads(
                tbl[i as int].op,
                name,
            ) implies agree(a, b, name) by {
            assert(tbl[id as int].cs[n - 1] < id && needs(tbl, cache, c, i));
            assert(needs(tbl, cache, id, i));
        }
        law_term_reads_its_variables(tbl, cache, c, a, b, mode);
    }
}

/// A variable has the value that the environment gives it, whatever it gives others, and none
/// where it gives none.
pub proof fn law_variables(
    v: Var,
    x: ValueView,
    name: Seq<char>,
    args: Seq<ValueView>,
    env: Map<Seq<char>, ValueView>,
    mode: FieldToBv,
)
    ensures
        op_result(Op::Var(Box::new(v)), args, env.insert(v.name@, x), mode) == Some(x),
        name != v.name@ ==> op_result(Op::Var(Box::new(v)), args, env.insert(name, x), mode)
            == op_result(Op::Var(Box::new(v)), args, env, mode),
        op_result(Op::Var(Box::new(v)), args, env.remove(v.name@), mode) is None,
{
}

/// A constant has its value, and a witness that of its argument.
pub proof fn law_constants_and_witnesses(
    c: Value,
    name: String,
    args: Seq<ValueView>,
    env: Map<Seq<char>, ValueView>,
    mode: FieldToBv,
)
    ensures
        op_result(Op::Const(Box::new(c)), args, env, mode) == Some(c@),
        args.len() > 0 ==> op_result(Op::Witness(name), args, env, mode) == Some(args[0]),
        args.len() == 0 ==> op_result(Op::Witness(name), args, env, mode) is None,
{
}

/// The values of the first children, put together.
proof fn lemma_child_values(
    tbl: Seq<NodeView>,
    cache: Map<usize, ValueView>,
    id: usize,
    vals: Seq<ValueView>,
    n: nat,
    env: Map<Seq<char>, ValueView>,
    mode: FieldToBv,
)
    requires
        id < tbl.len(),
        vals.len() == tbl[id as int].cs.len(),
        n <= vals.len(),
        forall|i: int|
            #![trigger tbl[id as int].cs[i]]
            0 <= i < vals.len() ==> tbl[id as int].cs[i] < id && cached_result(
                tbl,
                cache,
                tbl[id as int].cs[i],
                env,
                mode,
            ) == Some(vals[i]),
    ensures
        cached_args(tbl, cache, id, n, env, mode) == Some(vals.take(n as int)),
    decreases n,
{
    if n > 0 {
        lemma_child_values(tbl, cache, id, vals, (n - 1) as nat, env, mode);
        assert(tbl[id as int].cs[n - 1] < id);
        assert(vals.take(n - 1).push(vals[n - 1]) =~= vals.take(n as int));
    } else {
        assert(vals.take(0) =~= Seq::empty());
    }
}

/// A child without a value leaves the arguments without one.
proof fn lemma_child_missing(
    tbl: Seq<NodeView>,
    cache: Map<usize, ValueView>,
    id: usize,
    i: int,
    n: nat,
    env: Map<Seq<char>, ValueView>,
    mode: FieldToBv,
)
    requires
        id < tbl.len(),
        0 <= i < n <= tbl[id as int].cs.len(),
        cached_result(tbl, cache, tbl[id as int].cs[i], env, mode) is None,
    ensures
        cached_args(tbl, cache, id, n, env, mode) is None,
    decreases n,
{
    if i < n - 1 {
        lemma_child_missing(tbl, cache, id, i, (n - 1) as nat, env, mode);
    }
}

/// The value of a term is that of its operator on the values of its children, in their order. A
/// term with a child that has none has none, and nor has one that is not in the table. A term
/// that the cache holds has the value that it holds.
pub proof fn law_value_of_a_term(
    tbl: Seq<NodeView>,
    cache: Map<usize, ValueView>,
    id: usize,
    vals: Seq<ValueView>,
    i: int,
    env: Map<Seq<char>, ValueView>,
    mode: FieldToBv,
)
    ensures
        cache.contains_key(id) ==> cached_result(tbl, cache, id, env, mode) == Some(cache[id]),
        !cache.contains_key(id) && id >= tbl.len() ==> cached_result(tbl, cache, id, env, mode)
            is None,
        !cache.contains_key(id) && id < tbl.len() && vals.len() == tbl[id as int].cs.len() && (
        forall|i: int|
            #![trigger tbl[id as int].cs[i]]
            0 <= i < vals.len() ==> tbl[id as int].cs[i] < id && cached_result(
                tbl,
                cache,
                tbl[id as int].cs[i],
                env,
                mode,
            ) == Some(vals[i])) ==> cached_result(tbl, cache, id, env, mode) == op_result(
            tbl[id as int].op,
            vals,
            env,
            mode,
        ),
        !cache.contains_key(id) && id < tbl.len() && 0 <= i < tbl[id as int].cs.len()
            && cached_result(tbl, cache, tbl[id as int].cs[i], env, mode) is None
            ==> cached_result(tbl, cache, id, env, mode) is None,
        term_result(tbl, id, env, mode) == cached_result(tbl, Map::empty(), id, env, mode),
{
    if !cache.contains_key(id) && id < tbl.len() {
        let n = tbl[id as int].cs.len();
        if vals.len() == n && (forall|i: int|
            #![trigger tbl[id as int].cs[i]]
            0 <= i < vals.len() ==> tbl[id as int].cs[i] < id && cached_result(
                tbl,
                cache,
                tbl[id as int].cs[i],
                env,
                mode,
            ) == Some(vals[i])) {
            lemma_child_values(tbl, cache, id, vals, n, env, mode);
            assert(vals.take(n as int) =~= vals);
        }
        if 0 <= i < n && cached_result(tbl, cache, tbl[id as int].cs[i], env, mode) is None {
            lemma_child_missing(tbl, cache, id, i, n, env, mode);
        }
    }
}

/// A term that the cache does not hold needs itself, and what its children need; it needs
/// nothing else.
pub proof fn law_needed_terms(
    tbl: Seq<NodeView>,
    cache: Map<usize, ValueView>,
    t: usize,
    i: int,
    id: usize,
)
    requires
        t < tbl.len(),
        !cache.contains_key(t),
    ensures
        needs(tbl, cache, t, t),
        0 <= i < tbl[t as int].cs.len() && tbl[t as int].cs[i] < t && needs(
            tbl,
            cache,
            tbl[t as int].cs[i],
            id,
        ) ==> needs(tbl, cache, t, id),
        needs(tbl, cache, t, id) && id != t ==> exists|j: int|
            0 <= j < tbl[t as int].cs.len() && needs(
                tbl,
                cache,
                #[trigger] tbl[t as int].cs[j],
                id,
            ),
{
    if 0 <= i < tbl[t as int].cs.len() && tbl[t as int].cs[i] < t && needs(
        tbl,
        cache,
        tbl[t as int].cs[i],
        id,
    ) {
        assert(needs(tbl, cache, tbl[t as int].cs[i], id));
    }
    if needs(tbl, cache, t, id) && id != t {
        let j = choose|j: int|
            0 <= j < tbl[t as int].cs.len() && (#[trigger] tbl[t as int].cs[j]) < t && needs(
                tbl,
                cache,
                tbl[t as int].cs[j],
                id,
            );
        assert(needs(tbl, cache, tbl[t as int].cs[j], id));
    }
}

/// After the evaluation of a term the cache holds what it held, and what it holds besides are
/// values of terms that the term needed.
pub proof fn law_cache_keeps_and_gains(
    tbl: Seq<NodeView>,
    before: Map<usize, ValueView>,
    cache: Map<usize, ValueView>,
    t: usize,
    id: usize,
    env: Map<Seq<char>, ValueView>,
    mode: FieldToBv,
)
    requires
        cache_extends(tbl, before, cache, t, env, mode),
    ensures
        before.contains_key(id) ==> cache.contains_key(id) && cache[id] == before[id],
        cache.contains_key(id) && !before.contains_key(id) ==> needs(tbl, before, t, id)
            && cached_result(tbl, before, id, env, mode) == Some(cache[id]),
{
}

/// What a cache holds for several terms is what it holds for each of them, in their order.
pub proof fn law_held_in_order(
    cache: Map<usize, ValueView>,
    m: Map<usize, Value>,
    cs: Seq<usize>,
    i: int,
)
    requires
        0 <= i < cs.len(),
    ensures
        held(cache, cs).len() == cs.len(),
        held(cache, cs)[i] == cache[cs[i]],
        holds_all(cache, cs) ==> cache.contains_key(cs[i]),
        cache_views(m).contains_key(cs[i]) <==> m.contains_key(cs[i]),
        m.contains_key(cs[i]) ==> cache_views(m)[cs[i]] == m[cs[i]]@,
{
}

} // verus!
