//! Evaluation of terms, with a cache of the values of terms.

use crate::args::{arg_views, value_option};
use crate::env::Env;
use crate::eval::try_eval_op;
use crate::op::FieldToBv;
use crate::semantics::op_result;
use crate::term::{term_views, NodeView, Term, TermMap, TermTable};
use crate::value::{Value, ValueView};
use vstd::prelude::*;

verus! {

/// The values that a cache holds.
pub open spec fn cache_views(m: Map<usize, Value>) -> Map<usize, ValueView> {
    m.map_values(|v: Value| v@)
}

/// The value of the term at `id` over a cache: a term in the cache has the value that the cache
/// holds for it, and any other term that of its operator on the values of its children.
pub open spec fn cached_result(
    tbl: Seq<NodeView>,
    cache: Map<usize, ValueView>,
    id: usize,
    env: Map<Seq<char>, ValueView>,
    mode: FieldToBv,
) -> Option<ValueView>
    decreases id, tbl[id as int].cs.len() + 1,
{
    if cache.contains_key(id) {
        Some(cache[id])
    } else if id >= tbl.len() {
        None
    } else {
        match cached_args(tbl, cache, id, tbl[id as int].cs.len(), env, mode) {
            Some(args) => op_result(tbl[id as int].op, args, env, mode),
            None => None,
        }
    }
}

/// The values of the first `n` children of the term at `id` over a cache.
pub open spec fn cached_args(
    tbl: Seq<NodeView>,
    cache: Map<usize, ValueView>,
    id: usize,
    n: nat,
    env: Map<Seq<char>, ValueView>,
    mode: FieldToBv,
) -> Option<Seq<ValueView>>
    decreases id, n,
{
    if n == 0 {
        Some(Seq::empty())
    } else {
        let c = tbl[id as int].cs[n - 1];
        if c < id {
            match (
                cached_args(tbl, cache, id, (n - 1) as nat, env, mode),
                cached_result(tbl, cache, c, env, mode),
            ) {
                (Some(args), Some(v)) => Some(args.push(v)),
                _ => None,
            }
        } else {
            None
        }
    }
}

/// The value of the term at `id`.
pub open spec fn term_result(
    tbl: Seq<NodeView>,
    id: usize,
    env: Map<Seq<char>, ValueView>,
    mode: FieldToBv,
) -> Option<ValueView> {
    cached_result(tbl, Map::empty(), id, env, mode)
}

/// Whether the term at `id` has to be evaluated for the value of the term at `t`: the way down
/// to it leads through no term that is in the cache.
pub open spec fn needs(
    tbl: Seq<NodeView>,
    cache: Map<usize, ValueView>,
    t: usize,
    id: usize,
) -> bool
    decreases t,
{
    &&& !cache.contains_key(t)
    &&& t < tbl.len()
    &&& (id == t || exists|i: int|
        0 <= i < tbl[t as int].cs.len() && (#[trigger] tbl[t as int].cs[i]) < t && needs(
            tbl,
            cache,
            tbl[t as int].cs[i],
            id,
        ))
}

/// Whether a cache holds what the cache `before` held, and besides only values of terms that the
/// term at `t` needs.
pub open spec fn cache_extends(
    tbl: Seq<NodeView>,
    before: Map<usize, ValueView>,
    cache: Map<usize, ValueView>,
    t: usize,
    env: Map<Seq<char>, ValueView>,
    mode: FieldToBv,
) -> bool {
    &&& forall|id: usize| #[trigger]
        before.contains_key(id) ==> cache.contains_key(id) && cache[id] == before[id]
    &&& forall|id: usize| #[trigger]
        cache.contains_key(id) && !before.contains_key(id) ==> needs(tbl, before, t, id)
            && cached_result(tbl, before, id, env, mode) == Some(cache[id])
}

/// The values that a cache holds for several terms.
pub open spec fn held(cache: Map<usize, ValueView>, cs: Seq<usize>) -> Seq<ValueView> {
    Seq::new(cs.len(), |i: int| cache[cs[i]])
}

/// Whether a cache holds values for several terms.
pub open spec fn holds_all(cache: Map<usize, ValueView>, cs: Seq<usize>) -> bool {
    forall|i: int| 0 <= i < cs.len() ==> cache.contains_key(#[trigger] cs[i])
}

/// Evaluates one term whose children are in the cache, and puts its value there; nothing
/// happens where it has no value.
fn try_eval_value(
    tbl: &TermTable,
    vs: &mut TermMap<Value>,
    h: &Env,
    mode: FieldToBv,
    t: Term,
) -> (r: Option<Value>)
    requires
        t@ < tbl@.len(),
        holds_all(cache_views(old(vs)@), tbl@[t@ as int].cs),
    ensures
        value_option(r) == op_result(
            tbl@[t@ as int].op,
            held(cache_views(old(vs)@), tbl@[t@ as int].cs),
            h@,
            mode,
        ),
        match r {
            Some(v) => cache_views(final(vs)@) == cache_views(old(vs)@).insert(t@, v@),
            None => cache_views(final(vs)@) == cache_views(old(vs)@),
        },
{
    let cs: &Vec<Term> = tbl.cs(t);
    let ghost ids = tbl@[t@ as int].cs;
    let ghost cache = cache_views(vs@);
    let result: Option<Value> = {
        let mut args: Vec<&Value> = Vec::new();
        let mut i: usize = 0;
        while i < cs.len()
            invariant
                i <= cs@.len(),
                ids == term_views(cs@),
                cache == cache_views(vs@),
                holds_all(cache, ids),
                args@.len() == i,
                forall|j: int| 0 <= j < i ==> (#[trigger] args@[j])@ == cache[ids[j]],
            decreases cs@.len() - i,
        {
            assert(cache.contains_key(ids[i as int]));
            args.push(vs.get(cs[i]).unwrap());
            i = i + 1;
        }
        assert(arg_views(args@) =~= held(cache, ids));
        try_eval_op(tbl.op(t), args.as_slice(), h, mode)
    };
    match result {
        Some(v) => {
            let out: Value = v.clone();
            vs.insert(t, v);
            assert(cache_views(vs@) =~= cache.insert(t@, out@));
            Some(out)
        },
        None => None,
    }
}

/// Evaluates one term whose children are in the cache, and puts its value there. The operator
/// of the term must accept what the cache holds for them.
pub fn eval_value(
    tbl: &TermTable,
    vs: &mut TermMap<Value>,
    h: &Env,
    mode: FieldToBv,
    t: Term,
) -> (r: Value)
    requires
        t@ < tbl@.len(),
        holds_all(cache_views(old(vs)@), tbl@[t@ as int].cs),
        op_result(
            tbl@[t@ as int].op,
            held(cache_views(old(vs)@), tbl@[t@ as int].cs),
            h@,
            mode,
        ) is Some,
    ensures
        op_result(
            tbl@[t@ as int].op,
            held(cache_views(old(vs)@), tbl@[t@ as int].cs),
            h@,
            mode,
        ) == Some(r@),
        cache_views(final(vs)@) == cache_views(old(vs)@).insert(t@, r@),
{
    try_eval_value(tbl, vs, h, mode, t).unwrap()
}

/// The children of a term that has a value come before it and have values: those that its
/// operator is applied to.
proof fn lemma_cached_args(
    tbl: Seq<NodeView>,
    cache: Map<usize, ValueView>,
    id: usize,
    n: nat,
    env: Map<Seq<char>, ValueView>,
    mode: FieldToBv,
)
    requires
        cached_args(tbl, cache, id, n, env, mode) is Some,
        n <= tbl[id as int].cs.len(),
    ensures
        cached_args(tbl, cache, id, n, env, mode)->0.len() == n,
        forall|i: int|
            0 <= i < n ==> (#[trigger] tbl[id as int].cs[i]) < id && cached_result(
                tbl,
                cache,
                tbl[id as int].cs[i],
                env,
                mode,
            ) == Some(cached_args(tbl, cache, id, n, env, mode)->0[i]),
    decreases n,
{
    if n > 0 {
        lemma_cached_args(tbl, cache, id, (n - 1) as nat, env, mode);
    }
}

/// What a needed term needs is needed too.
proof fn lemma_needs_chain(
    tbl: Seq<NodeView>,
    cache: Map<usize, ValueView>,
    t: usize,
    a: usize,
    b: usize,
)
    requires
        needs(tbl, cache, t, a),
        needs(tbl, cache, a, b),
    ensures
        needs(tbl, cache, t, b),
    decreases t,
{
    if a != t {
        let i = choose|i: int|
            0 <= i < tbl[t as int].cs.len() && (#[trigger] tbl[t as int].cs[i]) < t && needs(
                tbl,
                cache,
                tbl[t as int].cs[i],
                a,
            );
        lemma_needs_chain(tbl, cache, tbl[t as int].cs[i], a, b);
    }
}

/// Whether each term that a cache has over an earlier one has its children in the cache.
spec fn closed_over(
    tbl: Seq<NodeView>,
    before: Map<usize, ValueView>,
    cache: Map<usize, ValueView>,
) -> bool {
    forall|id: usize| #[trigger]
        cache.contains_key(id) && !before.contains_key(id) ==> id < tbl.len() && holds_all(
            cache,
            tbl[id as int].cs,
        )
}

/// A cache that has a term, and the children of all its new terms, has what the term needs.
proof fn lemma_needed_held(
    tbl: Seq<NodeView>,
    before: Map<usize, ValueView>,
    cache: Map<usize, ValueView>,
    t: usize,
    id: usize,
)
    requires
        closed_over(tbl, before, cache),
        cache.contains_key(t),
        needs(tbl, before, t, id),
    ensures
        cache.contains_key(id),
    decreases t,
{
    if id != t {
        let i = choose|i: int|
            0 <= i < tbl[t as int].cs.len() && (#[trigger] tbl[t as int].cs[i]) < t && needs(
                tbl,
                before,
                tbl[t as int].cs[i],
                id,
            );
        lemma_needed_held(tbl, before, cache, tbl[t as int].cs[i], id);
    }
}

/// How many steps the evaluation of a term takes at most.
spec fn weight(tbl: Seq<NodeView>, id: usize) -> nat
    decreases id, tbl[id as int].cs.len() + 1,
{
    2 + child_weight(tbl, id, tbl[id as int].cs.len())
}

/// The same for its first `n` children.
spec fn child_weight(tbl: Seq<NodeView>, id: usize, n: nat) -> nat
    decreases id, n,
{
    if n == 0 {
        0
    } else {
        let c = tbl[id as int].cs[n - 1];
        child_weight(tbl, id, (n - 1) as nat) + (if c < id {
            weight(tbl, c)
        } else {
            0
        })
    }
}

/// The same for what waits on the stack.
spec fn stack_weight(tbl: Seq<NodeView>, stack: Seq<(bool, Term)>) -> nat
    decreases stack.len(),
{
    if stack.len() == 0 {
        0
    } else {
        stack_weight(tbl, stack.drop_last()) + (if stack.last().0 {
            1
        } else {
            weight(tbl, stack.last().1@)
        })
    }
}

/// Whether a term stands on the stack above the place `p`.
spec fn above(stack: Seq<(bool, Term)>, p: int, id: usize) -> bool {
    exists|q: int| p < q < stack.len() && (#[trigger] stack[q]).1@ == id
}

/// Whether a child of the term at the place `p` of the stack stands before it in the table, and
/// is done or waits above it.
spec fn settled(
    tbl: Seq<NodeView>,
    cache: Map<usize, ValueView>,
    stack: Seq<(bool, Term)>,
    p: int,
    i: int,
) -> bool {
    let n = stack[p].1@;
    let c = tbl[n as int].cs[i];
    c < n && (cache.contains_key(c) || above(stack, p, c))
}

/// How many children the term at the place `p` of the stack has.
spec fn child_count(tbl: Seq<NodeView>, stack: Seq<(bool, Term)>, p: int) -> nat {
    tbl[stack[p].1@ as int].cs.len()
}

/// What holds between the steps of an evaluation of the term at `t`, which began with the cache
/// `before`.
spec fn in_progress(
    tbl: Seq<NodeView>,
    before: Map<usize, ValueView>,
    cache: Map<usize, ValueView>,
    stack: Seq<(bool, Term)>,
    t: usize,
    env: Map<Seq<char>, ValueView>,
    mode: FieldToBv,
) -> bool {
    &&& cache_extends(tbl, before, cache, t, env, mode)
    &&& closed_over(tbl, before, cache)
    // what waits is needed
    &&& forall|p: int|
        0 <= p < stack.len() ==> before.contains_key((#[trigger] stack[p]).1@) || needs(
            tbl,
            before,
            t,
            stack[p].1@,
        )
    // the children of a term that was expanded stand before it, and are done or wait above it
    &&& forall|p: int, i: int|
        0 <= p < stack.len() && stack[p].0 && 0 <= i < child_count(tbl, stack, p)
            ==> #[trigger] settled(tbl, cache, stack, p, i)
    // the term itself is done, or waits
    &&& cache.contains_key(t) || above(stack, -1, t)
}

/// A term on top of the stack that is in the cache can be dropped.
proof fn lemma_drop_done(
    tbl: Seq<NodeView>,
    before: Map<usize, ValueView>,
    cache: Map<usize, ValueView>,
    stack: Seq<(bool, Term)>,
    t: usize,
    env: Map<Seq<char>, ValueView>,
    mode: FieldToBv,
)
    requires
        in_progress(tbl, before, cache, stack, t, env, mode),
        stack.len() > 0,
        cache.contains_key(stack.last().1@),
    ensures
        in_progress(tbl, before, cache, stack.drop_last(), t, env, mode),
{
    let rest = stack.drop_last();
    assert forall|p: int, i: int|
        0 <= p < rest.len() && rest[p].0 && 0 <= i < child_count(
            tbl,
            rest,
            p,
        ) implies #[trigger] settled(tbl, cache, rest, p, i) by {
        assert(rest[p] == stack[p]);
        assert(settled(tbl, cache, stack, p, i));
        lemma_above_drop(stack, p, tbl[stack[p].1@ as int].cs[i]);
    }
    lemma_above_drop(stack, -1, t);
}

/// What stands above a place of the stack is its top, or stands there without the top.
proof fn lemma_above_drop(stack: Seq<(bool, Term)>, p: int, id: usize)
    requires
        stack.len() > 0,
        p >= -1,
    ensures
        above(stack, p, id) ==> stack.last().1@ == id || above(stack.drop_last(), p, id),
{
    if above(stack, p, id) {
        let q = choose|q: int| p < q < stack.len() && (#[trigger] stack[q]).1@ == id;
        if q < stack.len() - 1 {
            assert(stack.drop_last()[q] == stack[q]);
        }
    }
}

/// The values of children that a cache holds are those that the operator is applied to.
proof fn lemma_held_args(
    tbl: Seq<NodeView>,
    before: Map<usize, ValueView>,
    cache: Map<usize, ValueView>,
    id: usize,
    n: nat,
    env: Map<Seq<char>, ValueView>,
    mode: FieldToBv,
)
    requires
        n <= tbl[id as int].cs.len(),
        forall|i: int|
            0 <= i < n ==> (#[trigger] tbl[id as int].cs[i]) < id && cached_result(
                tbl,
                before,
                tbl[id as int].cs[i],
                env,
                mode,
            ) == Some(cache[tbl[id as int].cs[i]]),
    ensures
        cached_args(tbl, before, id, n, env, mode) == Some(
            held(cache, tbl[id as int].cs).take(n as int),
        ),
    decreases n,
{
    let all = held(cache, tbl[id as int].cs);
    if n == 0 {
        assert(all.take(0) =~= Seq::empty());
    } else {
        lemma_held_args(tbl, before, cache, id, (n - 1) as nat, env, mode);
        assert(tbl[id as int].cs[n - 1] < id);
        assert(all.take(n as int) =~= all.take(n - 1).push(all[n - 1]));
    }
}

/// The children of an expanded term on top of the stack are in the cache, and the term has the
/// value that its operator has on what the cache holds.
proof fn lemma_ready(
    tbl: Seq<NodeView>,
    before: Map<usize, ValueView>,
    cache: Map<usize, ValueView>,
    stack: Seq<(bool, Term)>,
    t: usize,
    env: Map<Seq<char>, ValueView>,
    mode: FieldToBv,
)
    requires
        in_progress(tbl, before, cache, stack, t, env, mode),
        stack.len() > 0,
        stack.last().0,
        !cache.contains_key(stack.last().1@),
    ensures
        stack.last().1@ < tbl.len(),
        holds_all(cache, tbl[stack.last().1@ as int].cs),
        op_result(
            tbl[stack.last().1@ as int].op,
            held(cache, tbl[stack.last().1@ as int].cs),
            env,
            mode,
        ) == cached_result(tbl, before, stack.last().1@, env, mode),
{
    let top = stack.len() - 1;
    let n = stack[top].1@;
    let cs = tbl[n as int].cs;
    assert(!before.contains_key(n));
    assert(needs(tbl, before, t, n));
    lemma_needs_bound(tbl, before, t, n);
    assert forall|i: int| 0 <= i < cs.len() implies cs[i] < n && cache.contains_key(
        #[trigger] cs[i],
    ) by {
        assert(settled(tbl, cache, stack, top, i));
        assert(!above(stack, top, cs[i]));
    }
    assert forall|i: int| 0 <= i < cs.len() implies (#[trigger] cs[i]) < n && cached_result(
        tbl,
        before,
        cs[i],
        env,
        mode,
    ) == Some(cache[cs[i]]) by {
        assert(cache.contains_key(cs[i]));
        if before.contains_key(cs[i]) {
            assert(cache[cs[i]] == before[cs[i]]);
        }
    }
    lemma_held_args(tbl, before, cache, n, cs.len(), env, mode);
    assert(held(cache, cs).take(cs.len() as int) =~= held(cache, cs));
}

/// A needed term stands in the table, and not in the cache.
proof fn lemma_needs_bound(tbl: Seq<NodeView>, cache: Map<usize, ValueView>, t: usize, id: usize)
    requires
        needs(tbl, cache, t, id),
    ensures
        id < tbl.len(),
        !cache.contains_key(id),
        needs(tbl, cache, id, id),
    decreases t,
{
    if id != t {
        let i = choose|i: int|
            0 <= i < tbl[t as int].cs.len() && (#[trigger] tbl[t as int].cs[i]) < t && needs(
                tbl,
                cache,
                tbl[t as int].cs[i],
                id,
            );
        lemma_needs_bound(tbl, cache, tbl[t as int].cs[i], id);
    }
}

/// The value of an expanded term on top of the stack goes into the cache.
proof fn lemma_put(
    tbl: Seq<NodeView>,
    before: Map<usize, ValueView>,
    cache: Map<usize, ValueView>,
    stack: Seq<(bool, Term)>,
    t: usize,
    env: Map<Seq<char>, ValueView>,
    mode: FieldToBv,
    v: ValueView,
)
    requires
        in_progress(tbl, before, cache, stack, t, env, mode),
        stack.len() > 0,
        stack.last().0,
        !cache.contains_key(stack.last().1@),
        cached_result(tbl, before, stack.last().1@, env, mode) == Some(v),
    ensures
        in_progress(
            tbl,
            before,
            cache.insert(stack.last().1@, v),
            stack.drop_last(),
            t,
            env,
            mode,
        ),
{
    let n = stack.last().1@;
    let next = cache.insert(n, v);
    lemma_ready(tbl, before, cache, stack, t, env, mode);
    assert(stack[stack.len() - 1].1@ == n);
    assert(!before.contains_key(n));
    assert(needs(tbl, before, t, n));
    assert forall|id: usize| #[trigger]
        next.contains_key(id) && !before.contains_key(id) implies id < tbl.len() && holds_all(
        next,
        tbl[id as int].cs,
    ) by {
        if id != n {
            assert(cache.contains_key(id));
        }
        assert(holds_all(cache, tbl[id as int].cs));
    }
    assert forall|id: usize| #[trigger]
        next.contains_key(id) && !before.contains_key(id) implies needs(tbl, before, t, id)
        && cached_result(tbl, before, id, env, mode) == Some(next[id]) by {
        if id != n {
            assert(cache.contains_key(id));
        }
    }
    assert forall|p: int, i: int|
        0 <= p < stack.len() && stack[p].0 && 0 <= i < child_count(
            tbl,
            stack,
            p,
        ) implies #[trigger] settled(tbl, next, stack, p, i) by {
        assert(settled(tbl, cache, stack, p, i));
    }
    assert(in_progress(tbl, before, next, stack, t, env, mode));
    lemma_drop_done(tbl, before, next, stack, t, env, mode);
}

/// Whether `stack` is `base` with the term at `n` expanded on top: above it stand children of
/// it that are not in the cache, among them all such of the first `m`.
spec fn expanded(
    tbl: Seq<NodeView>,
    cache: Map<usize, ValueView>,
    base: Seq<(bool, Term)>,
    stack: Seq<(bool, Term)>,
    n: usize,
    m: int,
) -> bool {
    &&& stack.len() > base.len()
    &&& stack.take(base.len() as int) == base
    &&& stack[base.len() as int].0
    &&& stack[base.len() as int].1@ == n
    &&& forall|q: int|
        base.len() < q < stack.len() ==> !(#[trigger] stack[q]).0 && !cache.contains_key(
            stack[q].1@,
        ) && tbl[n as int].cs.contains(stack[q].1@)
    &&& forall|i: int|
        0 <= i < m ==> tbl[n as int].cs[i] < n && (cache.contains_key(
            #[trigger] tbl[n as int].cs[i],
        ) || above(stack, base.len() as int, tbl[n as int].cs[i]))
}

/// One more child of an expanded term that is not in the cache goes onto the stack.
proof fn lemma_push_child(
    tbl: Seq<NodeView>,
    cache: Map<usize, ValueView>,
    base: Seq<(bool, Term)>,
    stack: Seq<(bool, Term)>,
    n: usize,
    m: int,
    c: Term,
)
    requires
        expanded(tbl, cache, base, stack, n, m),
        0 <= m < tbl[n as int].cs.len(),
        c@ == tbl[n as int].cs[m],
        c@ < n,
        !cache.contains_key(c@),
    ensures
        expanded(tbl, cache, base, stack.push((false, c)), n, m + 1),
{
    let next = stack.push((false, c));
    assert(next.take(base.len() as int) =~= base);
    assert forall|q: int| base.len() < q < next.len() implies !(#[trigger] next[q]).0
        && !cache.contains_key(next[q].1@) && tbl[n as int].cs.contains(next[q].1@) by {
        if q < stack.len() {
            assert(next[q] == stack[q]);
        } else {
            assert(tbl[n as int].cs[m] == c@);
        }
    }
    assert forall|i: int| 0 <= i < m + 1 implies tbl[n as int].cs[i] < n && (cache.contains_key(
        #[trigger] tbl[n as int].cs[i],
    ) || above(next, base.len() as int, tbl[n as int].cs[i])) by {
        let d = tbl[n as int].cs[i];
        if i < m {
            if above(stack, base.len() as int, d) {
                let q = choose|q: int|
                    base.len() < q < stack.len() && (#[trigger] stack[q]).1@ == d;
                assert(next[q] == stack[q]);
            }
        } else {
            assert(next[stack.len() as int].1@ == d);
        }
    }
}

/// A child of a needed term is in the cache, or is needed.
proof fn lemma_child_needed(
    tbl: Seq<NodeView>,
    before: Map<usize, ValueView>,
    t: usize,
    n: usize,
    i: int,
)
    requires
        needs(tbl, before, t, n),
        0 <= i < tbl[n as int].cs.len(),
        tbl[n as int].cs[i] < n,
        !before.contains_key(tbl[n as int].cs[i]),
    ensures
        needs(tbl, before, t, tbl[n as int].cs[i]),
{
    let c = tbl[n as int].cs[i];
    lemma_needs_bound(tbl, before, t, n);
    assert(needs(tbl, before, c, c));
    assert(needs(tbl, before, n, c));
    lemma_needs_chain(tbl, before, t, n, c);
}

/// A term that needs one without a value has none.
proof fn lemma_no_value(
    tbl: Seq<NodeView>,
    before: Map<usize, ValueView>,
    t: usize,
    n: usize,
    env: Map<Seq<char>, ValueView>,
    mode: FieldToBv,
)
    requires
        needs(tbl, before, t, n),
        cached_result(tbl, before, n, env, mode) is None,
    ensures
        cached_result(tbl, before, t, env, mode) is None,
    decreases t,
{
    if n != t {
        let cs = tbl[t as int].cs;
        let i = choose|i: int|
            0 <= i < tbl[t as int].cs.len() && (#[trigger] tbl[t as int].cs[i]) < t && needs(
                tbl,
                before,
                tbl[t as int].cs[i],
                n,
            );
        lemma_no_value(tbl, before, cs[i], n, env, mode);
        if cached_args(tbl, before, t, cs.len(), env, mode) is Some {
            lemma_cached_args(tbl, before, t, cs.len(), env, mode);
            assert(tbl[t as int].cs[i] < t);
        }
    }
}

/// A term on top of the stack is expanded.
#[verifier::rlimit(30)]
proof fn lemma_expand(
    tbl: Seq<NodeView>,
    before: Map<usize, ValueView>,
    cache: Map<usize, ValueView>,
    stack: Seq<(bool, Term)>,
    next: Seq<(bool, Term)>,
    t: usize,
    env: Map<Seq<char>, ValueView>,
    mode: FieldToBv,
)
    requires
        in_progress(tbl, before, cache, stack, t, env, mode),
        stack.len() > 0,
        !cache.contains_key(stack.last().1@),
        expanded(
            tbl,
            cache,
            stack.drop_last(),
            next,
            stack.last().1@,
            tbl[stack.last().1@ as int].cs.len() as int,
        ),
    ensures
        in_progress(tbl, before, cache, next, t, env, mode),
{
    let base = stack.drop_last();
    let top = base.len() as int;
    let n = stack.last().1@;
    let cs = tbl[n as int].cs;
    assert(stack[top].1@ == n);
    assert(!before.contains_key(n));
    assert(needs(tbl, before, t, n));
    assert forall|p: int| 0 <= p < top implies #[trigger] next[p] == stack[p] by {
        assert(next.take(top)[p] == base[p]);
    }
    assert forall|p: int| 0 <= p < next.len() implies before.contains_key(
        (#[trigger] next[p]).1@,
    ) || needs(tbl, before, t, next[p].1@) by {
        if p < top {
            assert(next[p] == stack[p]);
        } else if p > top {
            let c = next[p].1@;
            let i = choose|i: int| 0 <= i < cs.len() && cs[i] == c;
            assert(!before.contains_key(c));
            assert(tbl[n as int].cs[i] < n);
            lemma_child_needed(tbl, before, t, n, i);
        }
    }
    assert forall|p: int, i: int|
        0 <= p < next.len() && next[p].0 && 0 <= i < child_count(
            tbl,
            next,
            p,
        ) implies #[trigger] settled(tbl, cache, next, p, i) by {
        let c = tbl[next[p].1@ as int].cs[i];
        if p < top {
            assert(next[p] == stack[p]);
            assert(settled(tbl, cache, stack, p, i));
            lemma_above_kept(stack, next, p, c);
        } else {
            assert(p == top);
        }
    }
    lemma_above_kept(stack, next, -1, t);
}

/// What stands above a place of the stack stays there where the terms on the stack are kept.
proof fn lemma_above_kept(stack: Seq<(bool, Term)>, next: Seq<(bool, Term)>, p: int, id: usize)
    requires
        next.len() >= stack.len(),
        p >= -1,
        forall|q: int| 0 <= q < stack.len() ==> (#[trigger] next[q]).1@ == stack[q].1@,
    ensures
        above(stack, p, id) ==> above(next, p, id),
{
    if above(stack, p, id) {
        let q = choose|q: int| p < q < stack.len() && (#[trigger] stack[q]).1@ == id;
        assert(next[q].1@ == id);
    }
}

/// Evaluates a term over a cache, and puts the values of the terms that it needs there; nothing
/// where the term has no value.
///
/// A term that the cache holds is not evaluated again. What the cache held it still holds. Where
/// the term has no value, some of the terms that it needs may have been put into the cache.
pub fn try_eval_cached<'a>(
    tbl: &TermTable,
    t: Term,
    h: &Env,
    mode: FieldToBv,
    vs: &'a mut TermMap<Value>,
) -> (r: Option<&'a Value>)
    ensures
        match r {
            Some(v) => cached_result(tbl@, cache_views(old(vs)@), t@, h@, mode) == Some(v@),
            None => cached_result(tbl@, cache_views(old(vs)@), t@, h@, mode) is None,
        },
        cache_extends(
            tbl@,
            cache_views(old(vs)@),
            cache_views(final(vs)@),
            t@,
            h@,
            mode,
        ),
        r is Some ==> forall|id: usize| #[trigger]
            needs(tbl@, cache_views(old(vs)@), t@, id) ==> cache_views(final(vs)@).contains_key(
                id,
            ),
{
    let ghost before = cache_views(vs@);
    let ghost env = h@;
    if !vs.contains_key(t) && t.place() >= tbl.len() {
        return None;
    }
    // for each term, whether its children have been pushed
    let mut stack: Vec<(bool, Term)> = Vec::new();
    stack.push((false, t));
    proof {
        assert(stack@[0].1@ == t@);
        if !before.contains_key(t@) {
            assert(needs(tbl@, before, t@, t@));
        }
        assert(in_progress(tbl@, before, before, stack@, t@, env, mode));
    }
    while stack.len() > 0
        invariant
            env == h@,
            before == cache_views(old(vs)@),
            in_progress(tbl@, before, cache_views(vs@), stack@, t@, env, mode),
        decreases stack_weight(tbl@, stack@),
    {
        let ghost waiting = stack@;
        let ghost cache = cache_views(vs@);
        let (children_pushed, node): (bool, Term) = stack.pop().unwrap();
        let ghost base = stack@;
        proof {
            assert(base =~= waiting.drop_last());
            assert(waiting[waiting.len() - 1] == (children_pushed, node));
        }
        if vs.contains_key(node) {
            proof {
                lemma_drop_done(tbl@, before, cache, waiting, t@, env, mode);
            }
            continue ;
        }
        proof {
            lemma_needs_bound(tbl@, before, t@, node@);
        }
        if children_pushed {
            proof {
                lemma_ready(tbl@, before, cache, waiting, t@, env, mode);
            }
            match try_eval_value(tbl, vs, h, mode, node) {
                Some(v) => {
                    proof {
                        lemma_put(tbl@, before, cache, waiting, t@, env, mode, v@);
                    }
                },
                None => {
                    proof {
                        lemma_no_value(tbl@, before, t@, node@, env, mode);
                    }
                    return None;
                },
            }
        } else {
            stack.push((true, node));
            let cs: &Vec<Term> = tbl.cs(node);
            let ghost ids = tbl@[node@ as int].cs;
            let mut i: usize = 0;
            proof {
                assert(stack@.drop_last() =~= base);
                assert(stack@.take(base.len() as int) =~= base);
            }
            while i < cs.len()
                invariant
                    env == h@,
                    before == cache_views(old(vs)@),
                    in_progress(tbl@, before, cache, waiting, t@, env, mode),
                    needs(tbl@, before, t@, node@),
                    !before.contains_key(node@),
                    node@ < tbl@.len(),
                    i <= cs@.len(),
                    ids == tbl@[node@ as int].cs,
                    ids == term_views(cs@),
                    cache == cache_views(vs@),
                    expanded(tbl@, cache, base, stack@, node@, i as int),
                    stack_weight(tbl@, stack@) <= stack_weight(tbl@, base) + 1 + child_weight(
                        tbl@,
                        node@,
                        i as nat,
                    ),
                decreases cs@.len() - i,
            {
                let c: Term = cs[i];
                assert(c@ == ids[i as int]);
                if c.place() >= node.place() {
                    proof {
                        if cached_args(tbl@, before, node@, ids.len(), env, mode) is Some {
                            lemma_cached_args(tbl@, before, node@, ids.len(), env, mode);
                        }
                        lemma_no_value(tbl@, before, t@, node@, env, mode);
                    }
                    return None;
                }
                if !vs.contains_key(c) {
                    proof {
                        lemma_push_child(tbl@, cache, base, stack@, node@, i as int, c);
                    }
                    let ghost old_stack = stack@;
                    stack.push((false, c));
                    assert(stack@.drop_last() =~= old_stack);
                }
                i = i + 1;
            }
            proof {
                lemma_expand(tbl@, before, cache, waiting, stack@, t@, env, mode);
            }
        }
    }
    proof {
        let cache = cache_views(vs@);
        assert(!above(stack@, -1, t@));
        assert forall|id: usize| #[trigger]
            needs(tbl@, before, t@, id) implies cache.contains_key(id) by {
            lemma_needed_held(tbl@, before, cache, t@, id);
        }
        assert(cache.contains_key(t@));
    }
    vs.get(t)
}

/// Evaluates a term over a cache, and puts the values of the terms that it needs there. The
/// term must have a value over the cache.
///
/// A term that the cache holds is not evaluated again. What the cache held it still holds.
pub fn eval_cached<'a>(
    tbl: &TermTable,
    t: Term,
    h: &Env,
    mode: FieldToBv,
    vs: &'a mut TermMap<Value>,
) -> (r: &'a Value)
    requires
        cached_result(tbl@, cache_views(old(vs)@), t@, h@, mode) is Some,
    ensures
        cached_result(tbl@, cache_views(old(vs)@), t@, h@, mode) == Some(r@),
        cache_extends(
            tbl@,
            cache_views(old(vs)@),
            cache_views(final(vs)@),
            t@,
            h@,
            mode,
        ),
        forall|id: usize| #[trigger]
            needs(tbl@, cache_views(old(vs)@), t@, id) ==> cache_views(final(vs)@).contains_key(
                id,
            ),
{
    try_eval_cached(tbl, t, h, mode, vs).unwrap()
}

/// Evaluates a term; nothing where it has no value.
pub fn try_eval(tbl: &TermTable, t: Term, h: &Env, mode: FieldToBv) -> (r: Option<Value>)
    ensures
        value_option(r) == term_result(tbl@, t@, h@, mode),
{
    let mut vs: TermMap<Value> = TermMap::new();
    assert(cache_views(vs@) =~= Map::empty());
    match try_eval_cached(tbl, t, h, mode, &mut vs) {
        Some(v) => Some(v.clone()),
        None => None,
    }
}

/// Evaluates a term, which must have a value.
pub fn eval(tbl: &TermTable, t: Term, h: &Env, mode: FieldToBv) -> (r: Value)
    requires
        term_result(tbl@, t@, h@, mode) is Some,
    ensures
        term_result(tbl@, t@, h@, mode) == Some(r@),
{
    let mut vs: TermMap<Value> = TermMap::new();
    assert(cache_views(vs@) =~= Map::empty());
    eval_cached(tbl, t, h, mode, &mut vs).clone()
}

} // verus!
