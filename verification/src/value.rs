//! Values: what terms of the IR evaluate to.

use crate::bigint::BigInt;
use crate::bignat::{flip, int_rank, BigNat, Rank};
use crate::bv::{bv_rank, BitVector, BvView};
use crate::field::{element_rank, FieldV, FieldVView};
use crate::sort::{
    key_count, lemma_sort_rank, lemma_sort_rank_chain, sort_rank, sort_view, sort_views, usize_rank,
    ArraySort, Sort, SortView,
};
use vstd::arithmetic::div_mod::lemma_small_mod;
use vstd::arithmetic::power2::{lemma_pow2_pos, pow2};
use vstd::prelude::*;

verus! {

/// A value of the IR.
#[derive(Debug)]
pub enum Value {
    Bool(bool),
    BitVector(BitVector),
    Int(BigInt),
    Field(FieldV),
    Tuple(Vec<Value>),
    Array(Array),
}

/// An array: a default value, and the entries that were stored over it.
///
/// The entries are held in the order of their keys, one for each key. The size says how many
/// keys count as indices of the array.
#[derive(Debug)]
pub struct Array {
    key_sort: Sort,
    default: Box<Value>,
    entries: Vec<(Value, Value)>,
    size: usize,
}

/// What a [`Value`] stands for.
pub enum ValueView {
    Bool(bool),
    BitVector(BvView),
    Int(int),
    Field(FieldVView),
    Tuple(Seq<ValueView>),
    Array(ArrayView),
}

/// What an [`Array`] stands for.
pub struct ArrayView {
    pub key_sort: SortView,
    pub default: Box<ValueView>,
    pub entries: Seq<(ValueView, ValueView)>,
    pub size: nat,
}

/// The view of a value, with those of its parts.
pub open spec fn value_view(v: Value) -> ValueView
    decreases v,
{
    match v {
        Value::Bool(b) => ValueView::Bool(b),
        Value::BitVector(b) => ValueView::BitVector(b@),
        Value::Int(i) => ValueView::Int(i@),
        Value::Field(f) => ValueView::Field(f@),
        Value::Tuple(t) => ValueView::Tuple(value_views(t@)),
        Value::Array(a) => ValueView::Array(array_view(a)),
    }
}

/// The views of several values.
pub open spec fn value_views(s: Seq<Value>) -> Seq<ValueView>
    decreases s,
{
    Seq::new(
        s.len(),
        |i: int|
            if 0 <= i < s.len() {
                value_view(s[i])
            } else {
                ValueView::Bool(false)
            },
    )
}

/// The view of an array.
pub closed spec fn array_view(a: Array) -> ArrayView
    decreases a,
{
    ArrayView {
        key_sort: a.key_sort@,
        default: Box::new(value_view(*a.default)),
        entries: entry_views(a.entries@),
        size: a.size as nat,
    }
}

/// The views of the entries of an array.
spec fn entry_views(s: Seq<(Value, Value)>) -> Seq<(ValueView, ValueView)>
    decreases s,
{
    Seq::new(
        s.len(),
        |i: int|
            if 0 <= i < s.len() {
                (value_view(s[i].0), value_view(s[i].1))
            } else {
                (ValueView::Bool(false), ValueView::Bool(false))
            },
    )
}

impl View for Value {
    type V = ValueView;

    open spec fn view(&self) -> ValueView {
        value_view(*self)
    }
}

impl View for Array {
    type V = ArrayView;

    open spec fn view(&self) -> ArrayView {
        array_view(*self)
    }
}

/// Which kind of value it is, as a number.
pub open spec fn value_tag(v: ValueView) -> int {
    match v {
        ValueView::Bool(_) => 0,
        ValueView::BitVector(_) => 1,
        ValueView::Int(_) => 2,
        ValueView::Field(_) => 3,
        ValueView::Tuple(_) => 4,
        ValueView::Array(_) => 5,
    }
}

/// A truth value as a number.
pub open spec fn bool_int(b: bool) -> int {
    if b {
        1
    } else {
        0
    }
}

/// An order on values: by kind, then by the parts from left to right.
pub open spec fn value_rank(a: ValueView, b: ValueView) -> Rank
    decreases a,
{
    match (a, b) {
        (ValueView::Bool(x), ValueView::Bool(y)) => int_rank(bool_int(x), bool_int(y)),
        (ValueView::BitVector(x), ValueView::BitVector(y)) => bv_rank(x, y),
        (ValueView::Int(x), ValueView::Int(y)) => int_rank(x, y),
        (ValueView::Field(x), ValueView::Field(y)) => element_rank(x, y),
        (ValueView::Tuple(x), ValueView::Tuple(y)) => values_rank(x, y),
        (ValueView::Array(x), ValueView::Array(y)) => match sort_rank(x.key_sort, y.key_sort) {
            Rank::Same => match value_rank(*x.default, *y.default) {
                Rank::Same => match entries_rank(x.entries, y.entries) {
                    Rank::Same => int_rank(x.size as int, y.size as int),
                    r => r,
                },
                r => r,
            },
            r => r,
        },
        _ => int_rank(value_tag(a), value_tag(b)),
    }
}

/// The order on sequences of values that goes by the first difference.
pub open spec fn values_rank(a: Seq<ValueView>, b: Seq<ValueView>) -> Rank
    decreases a,
{
    if a.len() == 0 || b.len() == 0 {
        int_rank(a.len() as int, b.len() as int)
    } else {
        match value_rank(a[0], b[0]) {
            Rank::Same => values_rank(a.drop_first(), b.drop_first()),
            r => r,
        }
    }
}

/// The order on sequences of entries that goes by the first difference.
pub open spec fn entries_rank(
    a: Seq<(ValueView, ValueView)>,
    b: Seq<(ValueView, ValueView)>,
) -> Rank
    decreases a,
{
    if a.len() == 0 || b.len() == 0 {
        int_rank(a.len() as int, b.len() as int)
    } else {
        match value_rank(a[0].0, b[0].0) {
            Rank::Same => match value_rank(a[0].1, b[0].1) {
                Rank::Same => entries_rank(a.drop_first(), b.drop_first()),
                r => r,
            },
            r => r,
        }
    }
}

/// Values that compare as the same are the same, and the order has two sides.
pub proof fn lemma_value_rank(a: ValueView, b: ValueView)
    ensures
        (value_rank(a, b) == Rank::Same) == (a == b),
        value_rank(b, a) == flip(value_rank(a, b)),
    decreases a,
{
    match (a, b) {
        (ValueView::Tuple(x), ValueView::Tuple(y)) => {
            lemma_values_rank(x, y);
        },
        (ValueView::Array(x), ValueView::Array(y)) => {
            lemma_sort_rank(x.key_sort, y.key_sort);
            lemma_value_rank(*x.default, *y.default);
            lemma_entries_rank(x.entries, y.entries);
        },
        _ => {},
    }
}

/// The same of sequences of values.
proof fn lemma_values_rank(a: Seq<ValueView>, b: Seq<ValueView>)
    ensures
        (values_rank(a, b) == Rank::Same) == (a == b),
        values_rank(b, a) == flip(values_rank(a, b)),
    decreases a,
{
    if a.len() == 0 || b.len() == 0 {
        if a.len() == b.len() {
            assert(a =~= b);
        }
    } else {
        lemma_value_rank(a[0], b[0]);
        lemma_values_rank(a.drop_first(), b.drop_first());
        assert(a =~= seq![a[0]] + a.drop_first());
        assert(b =~= seq![b[0]] + b.drop_first());
    }
}

/// The same of sequences of entries.
proof fn lemma_entries_rank(a: Seq<(ValueView, ValueView)>, b: Seq<(ValueView, ValueView)>)
    ensures
        (entries_rank(a, b) == Rank::Same) == (a == b),
        entries_rank(b, a) == flip(entries_rank(a, b)),
    decreases a,
{
    if a.len() == 0 || b.len() == 0 {
        if a.len() == b.len() {
            assert(a =~= b);
        }
    } else {
        lemma_value_rank(a[0].0, b[0].0);
        lemma_value_rank(a[0].1, b[0].1);
        lemma_entries_rank(a.drop_first(), b.drop_first());
        assert(a =~= seq![a[0]] + a.drop_first());
        assert(b =~= seq![b[0]] + b.drop_first());
    }
}

/// The order on values is transitive.
pub proof fn lemma_value_rank_chain(a: ValueView, b: ValueView, c: ValueView)
    requires
        value_rank(a, b) == Rank::Below,
        value_rank(b, c) == Rank::Below,
    ensures
        value_rank(a, c) == Rank::Below,
    decreases a,
{
    match (a, b, c) {
        (ValueView::Tuple(x), ValueView::Tuple(y), ValueView::Tuple(z)) => {
            lemma_values_rank_chain(x, y, z);
        },
        (ValueView::Array(x), ValueView::Array(y), ValueView::Array(z)) => {
            lemma_sort_rank(x.key_sort, y.key_sort);
            lemma_sort_rank(y.key_sort, z.key_sort);
            lemma_value_rank(*x.default, *y.default);
            lemma_value_rank(*y.default, *z.default);
            lemma_entries_rank(x.entries, y.entries);
            lemma_entries_rank(y.entries, z.entries);
            if sort_rank(x.key_sort, y.key_sort) == Rank::Below && sort_rank(
                y.key_sort,
                z.key_sort,
            ) == Rank::Below {
                lemma_sort_rank_chain(x.key_sort, y.key_sort, z.key_sort);
            } else if value_rank(*x.default, *y.default) == Rank::Below && value_rank(
                *y.default,
                *z.default,
            ) == Rank::Below {
                lemma_value_rank_chain(*x.default, *y.default, *z.default);
            } else if entries_rank(x.entries, y.entries) == Rank::Below && entries_rank(
                y.entries,
                z.entries,
            ) == Rank::Below {
                lemma_entries_rank_chain(x.entries, y.entries, z.entries);
            }
        },
        _ => {},
    }
}

/// The same of sequences of values.
proof fn lemma_values_rank_chain(a: Seq<ValueView>, b: Seq<ValueView>, c: Seq<ValueView>)
    requires
        values_rank(a, b) == Rank::Below,
        values_rank(b, c) == Rank::Below,
    ensures
        values_rank(a, c) == Rank::Below,
    decreases a,
{
    if a.len() > 0 && b.len() > 0 && c.len() > 0 {
        lemma_value_rank(a[0], b[0]);
        lemma_value_rank(b[0], c[0]);
        if value_rank(a[0], b[0]) == Rank::Below && value_rank(b[0], c[0]) == Rank::Below {
            lemma_value_rank_chain(a[0], b[0], c[0]);
        } else if value_rank(a[0], b[0]) == Rank::Same && value_rank(b[0], c[0]) == Rank::Same {
            lemma_values_rank_chain(a.drop_first(), b.drop_first(), c.drop_first());
        }
    }
}

/// The same of sequences of entries.
proof fn lemma_entries_rank_chain(
    a: Seq<(ValueView, ValueView)>,
    b: Seq<(ValueView, ValueView)>,
    c: Seq<(ValueView, ValueView)>,
)
    requires
        entries_rank(a, b) == Rank::Below,
        entries_rank(b, c) == Rank::Below,
    ensures
        entries_rank(a, c) == Rank::Below,
    decreases a,
{
    if a.len() > 0 && b.len() > 0 && c.len() > 0 {
        lemma_value_rank(a[0].0, b[0].0);
        lemma_value_rank(b[0].0, c[0].0);
        lemma_value_rank(a[0].1, b[0].1);
        lemma_value_rank(b[0].1, c[0].1);
        let (k1, k2) = (value_rank(a[0].0, b[0].0), value_rank(b[0].0, c[0].0));
        let (v1, v2) = (value_rank(a[0].1, b[0].1), value_rank(b[0].1, c[0].1));
        if k1 == Rank::Below && k2 == Rank::Below {
            lemma_value_rank_chain(a[0].0, b[0].0, c[0].0);
        } else if k1 == Rank::Same && k2 == Rank::Same {
            if v1 == Rank::Below && v2 == Rank::Below {
                lemma_value_rank_chain(a[0].1, b[0].1, c[0].1);
            } else if v1 == Rank::Same && v2 == Rank::Same {
                lemma_entries_rank_chain(a.drop_first(), b.drop_first(), c.drop_first());
            }
        }
    }
}

/// Whether the key `a` comes before the key `b`.
#[verifier::opaque]
pub open spec fn key_before(a: ValueView, b: ValueView) -> bool {
    value_rank(a, b) == Rank::Below
}

/// Of two different keys one comes before the other, and never both.
pub proof fn lemma_key_before(a: ValueView, b: ValueView)
    ensures
        a == b ==> !key_before(a, b),
        a != b ==> key_before(a, b) != key_before(b, a),
{
    reveal(key_before);
    lemma_value_rank(a, b);
}

/// What comes before is transitive.
pub proof fn lemma_key_before_chain(a: ValueView, b: ValueView, c: ValueView)
    requires
        key_before(a, b),
        key_before(b, c),
    ensures
        key_before(a, c),
{
    reveal(key_before);
    lemma_value_rank_chain(a, b, c);
}

/// Whether the entries stand in the order of their keys.
pub open spec fn in_order(entries: Seq<(ValueView, ValueView)>) -> bool {
    forall|i: int, j: int|
        0 <= i < j < entries.len() ==> key_before(
            (#[trigger] entries[i]).0,
            (#[trigger] entries[j]).0,
        )
}

impl ValueView {
    /// Whether some value has this view: numbers fit their widths and fields, and the entries
    /// of arrays are in order.
    pub open spec fn wf(self) -> bool
        decreases self,
    {
        match self {
            ValueView::Bool(_) => true,
            ValueView::BitVector(b) => b.wf(),
            ValueView::Int(_) => true,
            ValueView::Field(f) => f.wf(),
            ValueView::Tuple(t) => forall|i: int| 0 <= i < t.len() ==> (#[trigger] t[i]).wf(),
            ValueView::Array(a) => {
                &&& a.default.wf()
                &&& in_order(a.entries)
                &&& forall|i: int|
                    0 <= i < a.entries.len() ==> (#[trigger] a.entries[i]).0.wf()
                        && a.entries[i].1.wf()
            },
        }
    }
}

/// The sort of a value.
pub open spec fn value_sort(v: ValueView) -> SortView
    decreases v,
{
    match v {
        ValueView::Bool(_) => SortView::Bool,
        ValueView::BitVector(b) => SortView::BitVector(b.width),
        ValueView::Int(_) => SortView::Int,
        ValueView::Field(f) => SortView::Field(f.ty),
        ValueView::Tuple(t) => SortView::Tuple(value_sorts(t)),
        ValueView::Array(a) => array_sort(a),
    }
}

/// The sorts of several values.
pub open spec fn value_sorts(s: Seq<ValueView>) -> Seq<SortView>
    decreases s,
{
    Seq::new(
        s.len(),
        |i: int|
            if 0 <= i < s.len() {
                value_sort(s[i])
            } else {
                SortView::Bool
            },
    )
}

/// The sort of an array: its values have the sort of the default.
pub open spec fn array_sort(a: ArrayView) -> SortView
    decreases a,
{
    SortView::Array(Box::new(a.key_sort), Box::new(value_sort(*a.default)), a.size)
}

/// Whether some entry has the key `k`.
pub open spec fn has_key(entries: Seq<(ValueView, ValueView)>, k: ValueView) -> bool {
    exists|i: int| 0 <= i < entries.len() && (#[trigger] entries[i]).0 == k
}

/// The place of the entry with the key `k`.
pub open spec fn key_index(entries: Seq<(ValueView, ValueView)>, k: ValueView) -> int {
    choose|i: int| 0 <= i < entries.len() && (#[trigger] entries[i]).0 == k
}

/// What an array holds at the key `k`: the entry there, or else the default.
pub open spec fn array_select(a: ArrayView, k: ValueView) -> ValueView {
    if has_key(a.entries, k) {
        a.entries[key_index(a.entries, k)].1
    } else {
        *a.default
    }
}

/// How many entries at the front have a key below `k`.
pub open spec fn insert_position(entries: Seq<(ValueView, ValueView)>, k: ValueView) -> nat
    decreases entries.len(),
{
    if entries.len() > 0 && key_before(entries[0].0, k) {
        1 + insert_position(entries.drop_first(), k)
    } else {
        0
    }
}

/// The entries with `v` at the key `k`.
pub open spec fn entries_store(
    entries: Seq<(ValueView, ValueView)>,
    k: ValueView,
    v: ValueView,
) -> Seq<(ValueView, ValueView)> {
    let p = insert_position(entries, k) as int;
    if p < entries.len() && entries[p].0 == k {
        entries.update(p, (k, v))
    } else {
        entries.insert(p, (k, v))
    }
}

/// The array with `v` at the key `k`.
pub open spec fn array_store(a: ArrayView, k: ValueView, v: ValueView) -> ArrayView {
    ArrayView { entries: entries_store(a.entries, k, v), ..a }
}

/// The array of the given size that holds `default` at every key.
pub open spec fn array_fill(key_sort: SortView, default: ValueView, size: nat) -> ArrayView {
    ArrayView { key_sort, default: Box::new(default), entries: Seq::empty(), size }
}

/// The `i`-th key of a sort whose keys can be counted off.
pub open spec fn nth_key(s: SortView, i: nat) -> ValueView {
    match s {
        SortView::Bool => ValueView::Bool(i == 1),
        SortView::BitVector(w) => ValueView::BitVector(BvView { uint: i, width: w }),
        SortView::Field(f) => ValueView::Field(FieldVView { ty: f, i }),
        _ => ValueView::Bool(false),
    }
}

/// How many indices an array has: its size, but no more than there are keys.
pub open spec fn index_count(key_sort: SortView, size: nat) -> Option<nat> {
    match key_count(key_sort) {
        Some(n) => Some(
            if n < size {
                n
            } else {
                size
            },
        ),
        None => None,
    }
}

/// The array that holds `items` at its first keys, and `default` elsewhere.
pub open spec fn array_of(
    key_sort: SortView,
    default: ValueView,
    items: Seq<ValueView>,
    size: nat,
) -> ArrayView {
    ArrayView {
        key_sort,
        default: Box::new(default),
        entries: Seq::new(items.len(), |i: int| (nth_key(key_sort, i as nat), items[i])),
        size,
    }
}

/// Whether a sort has a default value: the fields in it are not empty.
pub open spec fn inhabited(s: SortView) -> bool
    decreases s,
{
    match s {
        SortView::Field(f) => f.modulus() > 0,
        SortView::Tuple(t) => forall|i: int| 0 <= i < t.len() ==> inhabited(#[trigger] t[i]),
        SortView::Array(_, v, _) => inhabited(*v),
        _ => true,
    }
}

/// The default value of a sort: false, zero, and whatever is made of them.
pub open spec fn default_of(s: SortView) -> ValueView
    decreases s,
{
    match s {
        SortView::Bool => ValueView::Bool(false),
        SortView::BitVector(w) => ValueView::BitVector(BvView { uint: 0, width: w }),
        SortView::Int => ValueView::Int(0),
        SortView::Field(f) => ValueView::Field(FieldVView { ty: f, i: 0 }),
        SortView::Tuple(t) => ValueView::Tuple(
            Seq::new(
                t.len(),
                |i: int|
                    if 0 <= i < t.len() {
                        default_of(t[i])
                    } else {
                        ValueView::Bool(false)
                    },
            ),
        ),
        SortView::Array(k, v, n) => ValueView::Array(array_fill(*k, default_of(*v), n)),
    }
}

/// In an ordered sequence, the entries before the insert position have keys below `k`, and
/// those from there on have not.
pub proof fn lemma_insert_position(entries: Seq<(ValueView, ValueView)>, k: ValueView)
    requires
        in_order(entries),
    ensures
        insert_position(entries, k) <= entries.len(),
        forall|i: int|
            0 <= i < insert_position(entries, k) ==> key_before((#[trigger] entries[i]).0, k),
        forall|i: int|
            insert_position(entries, k) < i < entries.len() ==> key_before(
                k,
                (#[trigger] entries[i]).0,
            ),
        insert_position(entries, k) < entries.len() ==> !key_before(
            entries[insert_position(entries, k) as int].0,
            k,
        ),
    decreases entries.len(),
{
    if entries.len() > 0 {
        if key_before(entries[0].0, k) {
            let rest = entries.drop_first();
            assert forall|i: int, j: int| 0 <= i < j < rest.len() implies key_before(
                (#[trigger] rest[i]).0,
                (#[trigger] rest[j]).0,
            ) by {
                assert(rest[i] == entries[i + 1]);
                assert(rest[j] == entries[j + 1]);
            }
            lemma_insert_position(rest, k);
            let p = insert_position(rest, k) as int;
            assert forall|i: int| 0 <= i < p + 1 implies key_before(
                (#[trigger] entries[i]).0,
                k,
            ) by {
                if i > 0 {
                    assert(rest[i - 1] == entries[i]);
                }
            }
            assert forall|i: int| p + 1 < i < entries.len() implies key_before(
                k,
                (#[trigger] entries[i]).0,
            ) by {
                assert(rest[i - 1] == entries[i]);
            }
            if p < rest.len() {
                assert(rest[p] == entries[p + 1]);
            }
        } else {
            lemma_key_before(entries[0].0, k);
            assert forall|i: int| 0 < i < entries.len() implies key_before(
                k,
                (#[trigger] entries[i]).0,
            ) by {
                assert(key_before(entries[0].0, entries[i].0));
                if key_before(k, entries[0].0) {
                    lemma_key_before_chain(k, entries[0].0, entries[i].0);
                }
            }
        }
    }
}

/// Storing keeps the entries in order.
pub proof fn lemma_store_in_order(
    entries: Seq<(ValueView, ValueView)>,
    k: ValueView,
    v: ValueView,
)
    requires
        in_order(entries),
    ensures
        in_order(entries_store(entries, k, v)),
{
    lemma_insert_position(entries, k);
    let p = insert_position(entries, k) as int;
    let out = entries_store(entries, k, v);
    if p < entries.len() {
        lemma_key_before(entries[p].0, k);
    }
    assert forall|i: int, j: int| 0 <= i < j < out.len() implies key_before(
        (#[trigger] out[i]).0,
        (#[trigger] out[j]).0,
    ) by {
        if p < entries.len() && entries[p].0 == k {
            assert(out[i].0 == entries[i].0);
            assert(out[j].0 == entries[j].0);
        } else {
            if i < p {
                assert(out[i] == entries[i]);
            } else if i > p {
                assert(out[i] == entries[i - 1]);
            }
            if j < p {
                assert(out[j] == entries[j]);
            } else if j > p {
                assert(out[j] == entries[j - 1]);
            }
        }
    }
}

/// A key stands in an ordered sequence at one place at most.
pub proof fn lemma_key_index(entries: Seq<(ValueView, ValueView)>, i: int)
    requires
        in_order(entries),
        0 <= i < entries.len(),
    ensures
        has_key(entries, entries[i].0),
        key_index(entries, entries[i].0) == i,
{
    let k = entries[i].0;
    let j = key_index(entries, k);
    assert(0 <= j < entries.len() && entries[j].0 == k);
    lemma_key_before(k, k);
    if i < j {
        assert(key_before(entries[i].0, entries[j].0));
    } else if j < i {
        assert(key_before(entries[j].0, entries[i].0));
    }
}

/// The keys of a sort are counted off in their order.
pub proof fn lemma_nth_key_order(s: SortView, i: nat, j: nat)
    requires
        key_count(s) is Some,
        i < j < key_count(s)->0,
    ensures
        key_before(nth_key(s, i), nth_key(s, j)),
{
    reveal(key_before);
}

/// The entries of [`array_of`] are in order.
pub proof fn lemma_array_of_in_order(
    key_sort: SortView,
    default: ValueView,
    items: Seq<ValueView>,
    size: nat,
)
    requires
        key_count(key_sort) is Some,
        items.len() <= key_count(key_sort)->0,
    ensures
        in_order(array_of(key_sort, default, items, size).entries),
{
    let entries = array_of(key_sort, default, items, size).entries;
    assert forall|i: int, j: int| 0 <= i < j < entries.len() implies key_before(
        (#[trigger] entries[i]).0,
        (#[trigger] entries[j]).0,
    ) by {
        lemma_nth_key_order(key_sort, i as nat, j as nat);
    }
}

/// A copy of a value.
fn copy_value(v: &Value) -> (r: Value)
    ensures
        r@ == v@,
    decreases v,
{
    match v {
        Value::Bool(b) => Value::Bool(*b),
        Value::BitVector(b) => Value::BitVector(b.clone()),
        Value::Int(i) => Value::Int(i.clone()),
        Value::Field(f) => Value::Field(f.clone()),
        Value::Tuple(t) => {
            let mut out: Vec<Value> = Vec::new();
            let mut i: usize = 0;
            while i < t.len()
                invariant
                    i <= t@.len(),
                    out@.len() == i,
                    forall|j: int| 0 <= j < i ==> value_view(out@[j]) == value_view(t@[j]),
                    *v == Value::Tuple(*t),
                decreases t@.len() - i,
            {
                assert(decreases_to!(*v => v->Tuple_0));
                assert(decreases_to!(*t => t@));
                assert(decreases_to!(t@ => t@[i as int]));
                out.push(copy_value(&t[i]));
                i = i + 1;
            }
            assert(value_views(out@) =~= value_views(t@));
            Value::Tuple(out)
        },
        Value::Array(a) => Value::Array(copy_array(a)),
    }
}

/// A copy of an array.
fn copy_array(a: &Array) -> (r: Array)
    ensures
        r@ == a@,
    decreases a,
{
    proof {
        use_type_invariant(a);
    }
    let mut entries: Vec<(Value, Value)> = Vec::new();
    let mut i: usize = 0;
    while i < a.entries.len()
        invariant
            i <= a.entries@.len(),
            entries@.len() == i,
            forall|j: int|
                0 <= j < i ==> value_view((#[trigger] entries@[j]).0) == value_view(
                    a.entries@[j].0,
                ) && value_view(entries@[j].1) == value_view(a.entries@[j].1),
        decreases a.entries@.len() - i,
    {
        let e: &(Value, Value) = &a.entries[i];
        assert(decreases_to!(*a => a.entries));
        assert(decreases_to!(a.entries => a.entries@));
        assert(decreases_to!(a.entries@ => a.entries@[i as int]));
        assert(decreases_to!(a.entries@[i as int] => a.entries@[i as int].0));
        assert(decreases_to!(a.entries@[i as int] => a.entries@[i as int].1));
        entries.push((copy_value(&e.0), copy_value(&e.1)));
        i = i + 1;
    }
    assert(entry_views(entries@) =~= entry_views(a.entries@));
    assert(decreases_to!(*a => a.default));
    let default: Box<Value> = Box::new(copy_value(&a.default));
    Array { key_sort: a.key_sort.clone(), default, entries, size: a.size }
}

impl Clone for Value {
    fn clone(&self) -> (r: Self)
        ensures
            r@ == self@,
    {
        copy_value(self)
    }
}

impl Clone for Array {
    fn clone(&self) -> (r: Self)
        ensures
            r@ == self@,
    {
        copy_array(self)
    }
}

/// The number of the kind of value.
fn tag(v: &Value) -> (r: usize)
    ensures
        r == value_tag(v@),
{
    match v {
        Value::Bool(_) => 0,
        Value::BitVector(_) => 1,
        Value::Int(_) => 2,
        Value::Field(_) => 3,
        Value::Tuple(_) => 4,
        Value::Array(_) => 5,
    }
}

/// How two values compare.
fn compare_values(a: &Value, b: &Value) -> (r: Rank)
    ensures
        r == value_rank(a@, b@),
    decreases a,
{
    match (a, b) {
        (Value::Bool(x), Value::Bool(y)) => if *x == *y {
            Rank::Same
        } else if *y {
            Rank::Below
        } else {
            Rank::Above
        },
        (Value::BitVector(x), Value::BitVector(y)) => x.compare(y),
        (Value::Int(x), Value::Int(y)) => x.compare(y),
        (Value::Field(x), Value::Field(y)) => x.compare(y),
        (Value::Tuple(s), Value::Tuple(t)) => {
            let mut i: usize = 0;
            assert(value_views(s@).skip(0) =~= value_views(s@));
            assert(value_views(t@).skip(0) =~= value_views(t@));
            while i < s.len() && i < t.len()
                invariant
                    i <= s@.len(),
                    i <= t@.len(),
                    *a == Value::Tuple(*s),
                    *b == Value::Tuple(*t),
                    values_rank(value_views(s@), value_views(t@)) == values_rank(
                        value_views(s@).skip(i as int),
                        value_views(t@).skip(i as int),
                    ),
                decreases s@.len() - i,
            {
                assert(decreases_to!(*a => a->Tuple_0));
                assert(decreases_to!(*s => s@));
                assert(decreases_to!(s@ => s@[i as int]));
                let r: Rank = compare_values(&s[i], &t[i]);
                proof {
                    let x = value_views(s@).skip(i as int);
                    let y = value_views(t@).skip(i as int);
                    assert(x[0] == s@[i as int]@);
                    assert(y[0] == t@[i as int]@);
                    assert(x.drop_first() =~= value_views(s@).skip(i + 1));
                    assert(y.drop_first() =~= value_views(t@).skip(i + 1));
                }
                match r {
                    Rank::Same => {},
                    _ => {
                        return r;
                    },
                }
                i = i + 1;
            }
            usize_rank(s.len(), t.len())
        },
        (Value::Array(x), Value::Array(y)) => {
            match x.key_sort.compare(&y.key_sort) {
                Rank::Same => {},
                r => {
                    return r;
                },
            }
            assert(decreases_to!(*x => x.default));
            match compare_values(&x.default, &y.default) {
                Rank::Same => {},
                r => {
                    return r;
                },
            }
            match compare_entries(x, y) {
                Rank::Same => {},
                r => {
                    return r;
                },
            }
            usize_rank(x.size, y.size)
        },
        _ => usize_rank(tag(a), tag(b)),
    }
}

/// How the entries of two arrays compare.
fn compare_entries(a: &Array, b: &Array) -> (r: Rank)
    ensures
        r == entries_rank(a@.entries, b@.entries),
    decreases a,
{
    let ghost s = entry_views(a.entries@);
    let ghost t = entry_views(b.entries@);
    let mut i: usize = 0;
    assert(s.skip(0) =~= s);
    assert(t.skip(0) =~= t);
    while i < a.entries.len() && i < b.entries.len()
        invariant
            s == entry_views(a.entries@),
            t == entry_views(b.entries@),
            i <= s.len(),
            i <= t.len(),
            entries_rank(s, t) == entries_rank(s.skip(i as int), t.skip(i as int)),
        decreases s.len() - i,
    {
        let x: &(Value, Value) = &a.entries[i];
        let y: &(Value, Value) = &b.entries[i];
        proof {
            assert(s.skip(i as int)[0] == (x.0@, x.1@));
            assert(t.skip(i as int)[0] == (y.0@, y.1@));
            assert(s.skip(i as int).drop_first() =~= s.skip(i + 1));
            assert(t.skip(i as int).drop_first() =~= t.skip(i + 1));
        }
        assert(decreases_to!(*a => a.entries));
        assert(decreases_to!(a.entries => a.entries@));
        assert(decreases_to!(a.entries@ => a.entries@[i as int]));
        assert(decreases_to!(a.entries@[i as int] => a.entries@[i as int].0));
        assert(decreases_to!(a.entries@[i as int] => a.entries@[i as int].1));
        match compare_values(&x.0, &y.0) {
            Rank::Same => {},
            r => {
                return r;
            },
        }
        match compare_values(&x.1, &y.1) {
            Rank::Same => {},
            r => {
                return r;
            },
        }
        i = i + 1;
    }
    usize_rank(a.entries.len(), b.entries.len())
}

impl Value {
    /// How two values compare.
    pub fn compare(&self, other: &Value) -> (r: Rank)
        ensures
            r == value_rank(self@, other@),
    {
        compare_values(self, other)
    }

    /// Whether two values are the same.
    pub fn same(&self, other: &Value) -> (r: bool)
        ensures
            r == (self@ == other@),
    {
        proof {
            lemma_value_rank(self@, other@);
        }
        match self.compare(other) {
            Rank::Same => true,
            _ => false,
        }
    }

    /// The sort of the value.
    pub fn sort(&self) -> (r: Sort)
        ensures
            r@ == value_sort(self@),
        decreases self,
    {
        match self {
            Value::Bool(_) => Sort::Bool,
            Value::BitVector(b) => Sort::BitVector(b.width()),
            Value::Int(_) => Sort::Int,
            Value::Field(f) => Sort::Field(f.ty().clone()),
            Value::Tuple(t) => {
                let mut out: Vec<Sort> = Vec::new();
                let mut i: usize = 0;
                while i < t.len()
                    invariant
                        i <= t@.len(),
                        out@.len() == i,
                        forall|j: int|
                            0 <= j < i ==> sort_view(out@[j]) == value_sort(value_view(t@[j])),
                        *self == Value::Tuple(*t),
                    decreases t@.len() - i,
                {
                    assert(decreases_to!(*self => self->Tuple_0));
                    assert(decreases_to!(*t => t@));
                    assert(decreases_to!(t@ => t@[i as int]));
                    out.push(t[i].sort());
                    i = i + 1;
                }
                assert(sort_views(out@) =~= value_sorts(value_views(t@)));
                Sort::Tuple(out)
            },
            Value::Array(a) => {
                assert(decreases_to!(*a => a.default));
                Sort::Array(
                    Box::new(
                        ArraySort {
                            key: a.key_sort.clone(),
                            val: a.default.sort(),
                            size: a.size,
                        },
                    ),
                )
            },
        }
    }
}

impl Array {
    #[verifier::type_invariant]
    spec fn inv(self) -> bool {
        in_order(entry_views(self.entries@))
    }

    /// The array of the given size that holds `default` at every key.
    pub fn fill(key_sort: Sort, default: Value, size: usize) -> (r: Array)
        ensures
            r@ == array_fill(key_sort@, default@, size as nat),
    {
        let entries: Vec<(Value, Value)> = Vec::new();
        assert(entry_views(entries@) =~= Seq::empty());
        Array { key_sort, default: Box::new(default), entries, size }
    }

    /// The array that holds `items` at its first keys, and `default` elsewhere.
    pub fn of_items(key_sort: Sort, default: Value, items: Vec<Value>, size: usize) -> (r: Array)
        requires
            key_count(key_sort@) is Some,
            items@.len() <= key_count(key_sort@)->0,
        ensures
            r@ == array_of(key_sort@, default@, value_views(items@), size as nat),
    {
        let n: usize = items.len();
        let mut entries: Vec<(Value, Value)> = Vec::new();
        let mut i: usize = 0;
        while i < n
            invariant
                i <= n,
                n == items@.len(),
                key_count(key_sort@) is Some,
                n <= key_count(key_sort@)->0,
                entries@.len() == i,
                forall|j: int|
                    0 <= j < i ==> value_view((#[trigger] entries@[j]).0) == nth_key(
                        key_sort@,
                        j as nat,
                    ) && value_view(entries@[j].1) == value_view(items@[j]),
            decreases n - i,
        {
            entries.push((key_sort.nth_key(i), items[i].clone()));
            i = i + 1;
        }
        proof {
            let view = array_of(key_sort@, default@, value_views(items@), size as nat);
            assert(entry_views(entries@) =~= view.entries);
            lemma_array_of_in_order(key_sort@, default@, value_views(items@), size as nat);
        }
        Array { key_sort, default: Box::new(default), entries, size }
    }

    /// The sort of the keys.
    pub fn key_sort(&self) -> (r: &Sort)
        ensures
            r@ == self@.key_sort,
    {
        &self.key_sort
    }

    /// The value at the keys where nothing was stored.
    pub fn default_value(&self) -> (r: &Value)
        ensures
            r@ == *self@.default,
    {
        &self.default
    }

    /// How many keys count as indices.
    pub fn size(&self) -> (r: usize)
        ensures
            r == self@.size,
    {
        self.size
    }

    /// The place of the first entry whose key is not below `k`.
    fn position(&self, k: &Value) -> (r: usize)
        ensures
            r == insert_position(self@.entries, k@),
    {
        let ghost s = entry_views(self.entries@);
        let mut i: usize = 0;
        assert(s.skip(0) =~= s);
        while i < self.entries.len()
            invariant
                s == entry_views(self.entries@),
                i <= s.len(),
                insert_position(s, k@) == i + insert_position(s.skip(i as int), k@),
            decreases s.len() - i,
        {
            proof {
                reveal(key_before);
                assert(s.skip(i as int)[0].0 == self.entries@[i as int].0@);
                assert(s.skip(i as int).drop_first() =~= s.skip(i + 1));
            }
            match self.entries[i].0.compare(k) {
                Rank::Below => {},
                _ => {
                    return i;
                },
            }
            i = i + 1;
        }
        i
    }

    /// What the array holds at the key `k`.
    pub fn select(&self, k: &Value) -> (r: &Value)
        ensures
            r@ == array_select(self@, k@),
            in_order(self@.entries),
    {
        let p: usize = self.position(k);
        let ghost s = self@.entries;
        proof {
            use_type_invariant(self);
            lemma_insert_position(s, k@);
        }
        if p < self.entries.len() && self.entries[p].0.same(k) {
            proof {
                lemma_key_index(s, p as int);
            }
            &self.entries[p].1
        } else {
            proof {
                if has_key(s, k@) {
                    let i = key_index(s, k@);
                    lemma_key_before(k@, k@);
                    assert(0 <= i < s.len() && s[i].0 == k@);
                }
            }
            &self.default
        }
    }

    /// The array with `v` at the key `k`.
    pub fn store(self, k: Value, v: Value) -> (r: Array)
        ensures
            r@ == array_store(self@, k@, v@),
    {
        let p: usize = self.position(&k);
        let hit: bool = p < self.entries.len() && self.entries[p].0.same(&k);
        let ghost s = self@.entries;
        let ghost out = entries_store(s, k@, v@);
        proof {
            use_type_invariant(&self);
            lemma_insert_position(s, k@);
            lemma_store_in_order(s, k@, v@);
        }
        let Array { key_sort, default, entries, size } = self;
        let mut entries: Vec<(Value, Value)> = entries;
        if hit {
            entries.set(p, (k, v));
        } else {
            entries.insert(p, (k, v));
        }
        assert(entry_views(entries@) =~= out);
        Array { key_sort, default, entries, size }
    }

    /// How many indices the array has; nothing where its keys cannot be counted off.
    pub fn index_count(&self) -> (r: Option<usize>)
        ensures
            match r {
                Some(n) => index_count(self@.key_sort, self@.size) == Some(n as nat),
                None => index_count(self@.key_sort, self@.size) is None,
            },
    {
        self.key_sort.keys_up_to(self.size)
    }
}

impl Sort {
    /// The `i`-th key.
    pub fn nth_key(&self, i: usize) -> (r: Value)
        requires
            key_count(self@) is Some,
            i < key_count(self@)->0,
        ensures
            r@ == nth_key(self@, i as nat),
    {
        match self {
            Sort::BitVector(w) => {
                let v: BitVector = BitVector::wrap(&BigNat::from_usize(i), *w);
                proof {
                    lemma_small_mod(i as nat, pow2(*w as nat));
                }
                Value::BitVector(v)
            },
            Sort::Field(f) => {
                let v: FieldV = f.new_v(&BigInt::from_nat(BigNat::from_usize(i)));
                proof {
                    lemma_small_mod(i as nat, f@.modulus());
                }
                Value::Field(v)
            },
            _ => Value::Bool(i == 1),
        }
    }

    /// The default value, where the sort has one.
    pub fn default_value(&self) -> (r: Option<Value>)
        ensures
            match r {
                Some(v) => inhabited(self@) && v@ == default_of(self@),
                None => !inhabited(self@),
            },
        decreases self,
    {
        match self {
            Sort::Bool => Some(Value::Bool(false)),
            Sort::BitVector(w) => {
                let v: BitVector = BitVector::wrap(&BigNat::zero(), *w);
                proof {
                    lemma_pow2_pos(*w as nat);
                    lemma_small_mod(0, pow2(*w as nat));
                }
                Some(Value::BitVector(v))
            },
            Sort::Int => Some(Value::Int(BigInt::from_i128(0))),
            Sort::Field(f) => {
                if f.modulus().is_zero() {
                    return None;
                }
                let v: FieldV = f.new_v(&BigInt::from_i128(0));
                proof {
                    lemma_small_mod(0, f@.modulus());
                }
                Some(Value::Field(v))
            },
            Sort::Tuple(t) => {
                let mut out: Vec<Value> = Vec::new();
                let mut i: usize = 0;
                while i < t.len()
                    invariant
                        i <= t@.len(),
                        out@.len() == i,
                        forall|j: int|
                            0 <= j < i ==> inhabited(sort_view(#[trigger] t@[j])) && value_view(
                                out@[j],
                            ) == default_of(sort_view(t@[j])),
                        *self == Sort::Tuple(*t),
                    decreases t@.len() - i,
                {
                    assert(decreases_to!(*self => self->Tuple_0));
                    assert(decreases_to!(*t => t@));
                    assert(decreases_to!(t@ => t@[i as int]));
                    match t[i].default_value() {
                        Some(v) => {
                            out.push(v);
                        },
                        None => {
                            assert(!inhabited(sort_views(t@)[i as int]));
                            return None;
                        },
                    }
                    i = i + 1;
                }
                proof {
                    let views = sort_views(t@);
                    assert(self@ == SortView::Tuple(views));
                    assert forall|j: int| 0 <= j < views.len() implies inhabited(
                        #[trigger] views[j],
                    ) by {
                        assert(views[j] == sort_view(t@[j]));
                    }
                    let defaults = default_of(self@)->Tuple_0;
                    assert forall|j: int| 0 <= j < views.len() implies value_views(out@)[j]
                        == #[trigger] defaults[j] by {
                        assert(defaults[j] == default_of(views[j]));
                        assert(views[j] == sort_view(t@[j]));
                    }
                    assert(value_views(out@) =~= defaults);
                }
                Some(Value::Tuple(out))
            },
            Sort::Array(a) => match a.val.default_value() {
                Some(v) => Some(Value::Array(Array::fill(a.key.clone(), v, a.size))),
                None => None,
            },
        }
    }
}

} // verus!
