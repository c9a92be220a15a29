//! In which order the bytes and field elements in a value come.

use crate::array_laws::law_elements_of_array;
use crate::bv::BvView;
use crate::field::{FieldTView, FieldVView};
use crate::op::{ArrayOp, FieldToBv, Op};
use crate::semantics::{
    array_result, flatten, flatten_all, flatten_all_bytes, flatten_bytes, flatten_element_bytes,
    flatten_elements, op_result,
};
use crate::sort::{key_count, SortView};
use crate::value::{
    array_select, has_key, in_order, inhabited, key_index, lemma_key_index, nth_key, value_sort,
    ArrayView, ValueView,
};
use vstd::arithmetic::power2::pow2;
use vstd::prelude::*;

verus! {

/// Booleans, bit-vectors and field elements can be counted off as keys, in the order of their
/// numbers from zero up; there are as many keys as numbers, and no other sort has any.
pub proof fn law_keys_in_order(w: nat, f: FieldTView, i: nat, s: SortView)
    ensures
        nth_key(SortView::Bool, 0) == ValueView::Bool(false),
        nth_key(SortView::Bool, 1) == ValueView::Bool(true),
        key_count(SortView::Bool) == Some(2nat),
        nth_key(SortView::BitVector(w), i) == ValueView::BitVector(BvView { uint: i, width: w }),
        key_count(SortView::BitVector(w)) == Some(pow2(w)),
        nth_key(SortView::Field(f), i) == ValueView::Field(FieldVView { ty: f, i }),
        key_count(SortView::Field(f)) == Some(f.modulus()),
        key_count(s) is Some ==> s is Bool || s is BitVector || s is Field,
{
}

/// An array holds at the key of each entry the value of that entry, and at every key without an
/// entry its default.
pub proof fn law_entries_are_held(a: ArrayView, i: int, k: ValueView)
    requires
        in_order(a.entries),
    ensures
        0 <= i < a.entries.len() ==> array_select(a, a.entries[i].0) == a.entries[i].1,
        (forall|j: int| 0 <= j < a.entries.len() ==> (#[trigger] a.entries[j]).0 != k)
            ==> array_select(a, k) == *a.default,
{
    if 0 <= i < a.entries.len() {
        lemma_key_index(a.entries, i);
    }
    if has_key(a.entries, k) {
        let j = key_index(a.entries, k);
        assert(0 <= j < a.entries.len() && a.entries[j].0 == k);
    }
}

/// A field element or a bit-vector is all there is in it. It is a byte where it is a bit-vector
/// of width 8. Nothing comes of booleans and integers.
pub proof fn law_single_leaves(f: FieldVView, b: BvView, c: bool, n: int)
    ensures
        flatten(ValueView::Field(f)) == Some(seq![ValueView::Field(f)]),
        flatten(ValueView::BitVector(b)) == Some(seq![ValueView::BitVector(b)]),
        flatten(ValueView::Bool(c)) is None,
        flatten(ValueView::Int(n)) is None,
        flatten_bytes(ValueView::BitVector(b)) is Some <==> b.width == 8,
        b.width == 8 && b.uint < 256 ==> flatten_bytes(ValueView::BitVector(b))->0.len() == 1
            && flatten_bytes(ValueView::BitVector(b))->0[0] == b.uint,
        flatten_bytes(ValueView::Field(f)) is None,
        flatten_bytes(ValueView::Bool(c)) is None,
        flatten_bytes(ValueView::Int(n)) is None,
{
}

/// A further value changes nothing in what comes of those before it.
proof fn lemma_prefix_of_leaves(s: Seq<ValueView>, x: ValueView, n: nat)
    requires
        n <= s.len(),
    ensures
        flatten_all(s.push(x), n) == flatten_all(s, n),
        flatten_all_bytes(s.push(x), n) == flatten_all_bytes(s, n),
    decreases n,
{
    if n > 0 {
        lemma_prefix_of_leaves(s, x, (n - 1) as nat);
        assert(s.push(x)[n - 1] == s[n - 1]);
    }
}

/// Nothing is in an empty tuple. What is in the last field of a tuple comes after what is in the
/// others, and nothing comes of a tuple with a field of which nothing comes.
pub proof fn law_leaves_of_tuples(s: Seq<ValueView>, x: ValueView)
    ensures
        flatten(ValueView::Tuple(Seq::empty())) == Some(Seq::<ValueView>::empty()),
        flatten(ValueView::Tuple(s.push(x))) is Some <==> flatten(ValueView::Tuple(s)) is Some
            && flatten(x) is Some,
        flatten(ValueView::Tuple(s.push(x))) is Some ==> flatten(ValueView::Tuple(s.push(x)))->0
            == flatten(ValueView::Tuple(s))->0 + flatten(x)->0,
        flatten_bytes(ValueView::Tuple(Seq::empty())) == Some(Seq::<u8>::empty()),
        flatten_bytes(ValueView::Tuple(s.push(x))) is Some <==> flatten_bytes(
            ValueView::Tuple(s),
        ) is Some && flatten_bytes(x) is Some,
        flatten_bytes(ValueView::Tuple(s.push(x))) is Some ==> flatten_bytes(
            ValueView::Tuple(s.push(x)),
        )->0 == flatten_bytes(ValueView::Tuple(s))->0 + flatten_bytes(x)->0,
{
    lemma_prefix_of_leaves(s, x, s.len());
    let t = s.push(x);
    assert(t[t.len() - 1] == x);
    assert(flatten_all(t, t.len()) == match (flatten_all(t, s.len()), flatten(x)) {
        (Some(p), Some(q)) => Some(p + q),
        _ => None,
    });
    assert(flatten_all_bytes(t, t.len()) == match (
        flatten_all_bytes(t, s.len()),
        flatten_bytes(x),
    ) {
        (Some(p), Some(q)) => Some(p + q),
        _ => None,
    });
}

/// The first `n` elements of an array have in them what the first `n` of a list of them have.
proof fn lemma_leaves_of_elements(a: ArrayView, items: Seq<ValueView>, n: nat)
    requires
        n <= items.len(),
        forall|i: int|
            0 <= i < items.len() ==> #[trigger] items[i] == array_select(
                a,
                nth_key(a.key_sort, i as nat),
            ),
    ensures
        flatten_elements(a, n) == flatten_all(items, n),
        flatten_element_bytes(a, n) == flatten_all_bytes(items, n),
    decreases n,
{
    if n > 0 {
        lemma_leaves_of_elements(a, items, (n - 1) as nat);
        assert(items[n - 1] == array_select(a, nth_key(a.key_sort, (n - 1) as nat)));
    }
}

/// In an array is what is in the tuple of its elements, taken in the order of their indices: the
/// element at the first key comes first, whatever the keys are. Nothing comes of an array whose
/// keys cannot be counted off.
pub proof fn law_leaves_of_arrays(a: ArrayView, items: Seq<ValueView>)
    requires
        key_count(a.key_sort) is Some ==> items.len() == (if a.size <= key_count(
            a.key_sort,
        )->0 {
            a.size
        } else {
            key_count(a.key_sort)->0
        }),
        forall|i: int|
            0 <= i < items.len() ==> #[trigger] items[i] == array_select(
                a,
                nth_key(a.key_sort, i as nat),
            ),
    ensures
        key_count(a.key_sort) is Some ==> flatten(ValueView::Array(a)) == flatten(
            ValueView::Tuple(items),
        ),
        key_count(a.key_sort) is Some ==> flatten_bytes(ValueView::Array(a)) == flatten_bytes(
            ValueView::Tuple(items),
        ),
        key_count(a.key_sort) is None ==> flatten(ValueView::Array(a)) is None,
        key_count(a.key_sort) is None ==> flatten_bytes(ValueView::Array(a)) is None,
{
    lemma_leaves_of_elements(a, items, items.len());
}

/// In a list of field elements and bit-vectors are these, in this order.
pub proof fn law_leaves_of_lists(s: Seq<ValueView>)
    requires
        forall|i: int| 0 <= i < s.len() ==> (#[trigger] s[i]) is Field || s[i] is BitVector,
    ensures
        flatten(ValueView::Tuple(s)) == Some(s),
    decreases s.len(),
{
    if s.len() == 0 {
        assert(s =~= Seq::empty());
        law_leaves_of_tuples(s, ValueView::Bool(false));
    } else {
        let rest = s.drop_last();
        assert(rest.push(s.last()) =~= s);
        assert forall|i: int| 0 <= i < rest.len() implies (#[trigger] rest[i]) is Field
            || rest[i] is BitVector by {
            assert(rest[i] == s[i]);
        }
        law_leaves_of_lists(rest);
        law_leaves_of_tuples(rest, s.last());
        assert(s[s.len() - 1] is Field || s[s.len() - 1] is BitVector);
        assert(rest + seq![s.last()] =~= s);
    }
}

/// In a list of bytes are these, in this order.
pub proof fn law_bytes_of_lists(s: Seq<ValueView>, bytes: Seq<u8>)
    requires
        s.len() == bytes.len(),
        forall|i: int|
            0 <= i < s.len() ==> #[trigger] s[i] == ValueView::BitVector(
                BvView { uint: bytes[i] as nat, width: 8 },
            ),
    ensures
        flatten_bytes(ValueView::Tuple(s)) == Some(bytes),
    decreases s.len(),
{
    if s.len() == 0 {
        assert(s =~= Seq::empty());
        assert(bytes =~= Seq::empty());
        law_leaves_of_tuples(s, ValueView::Bool(false));
    } else {
        let rest = s.drop_last();
        let init = bytes.drop_last();
        let n = s.len() - 1;
        assert(rest.push(s.last()) =~= s);
        assert forall|i: int| 0 <= i < rest.len() implies #[trigger] rest[i]
            == ValueView::BitVector(BvView { uint: init[i] as nat, width: 8 }) by {
            assert(rest[i] == s[i]);
        }
        law_bytes_of_lists(rest, init);
        law_leaves_of_tuples(rest, s.last());
        assert(s[n] == ValueView::BitVector(BvView { uint: bytes[n] as nat, width: 8 }));
        assert(flatten_bytes(s[n])->0 =~= seq![bytes[n]]);
        assert(init + seq![bytes[n]] =~= bytes);
    }
}

/// The bytes in an array of bytes are as many as its size, where there are enough keys, and the
/// `i`-th of them is what the array holds at the `i`-th key. The same holds of the field elements
/// and bit-vectors in an array of these.
pub proof fn law_array_in_index_order(a: ArrayView, items: Seq<ValueView>, bytes: Seq<u8>)
    requires
        key_count(a.key_sort) is Some,
        a.size <= key_count(a.key_sort)->0,
        items.len() == a.size,
        forall|i: int|
            0 <= i < items.len() ==> #[trigger] items[i] == array_select(
                a,
                nth_key(a.key_sort, i as nat),
            ),
    ensures
        (forall|i: int| 0 <= i < items.len() ==> (#[trigger] items[i]) is Field || items[i]
            is BitVector) ==> flatten(ValueView::Array(a)) == Some(items),
        bytes.len() == items.len() && (forall|i: int|
            0 <= i < items.len() ==> #[trigger] items[i] == ValueView::BitVector(
                BvView { uint: bytes[i] as nat, width: 8 },
            )) ==> flatten_bytes(ValueView::Array(a)) == Some(bytes) && flatten(
            ValueView::Array(a),
        ) == Some(items),
{
    law_leaves_of_arrays(a, items);
    if forall|i: int| 0 <= i < items.len() ==> (#[trigger] items[i]) is Field || items[i]
        is BitVector {
        law_leaves_of_lists(items);
    }
    if bytes.len() == items.len() && (forall|i: int|
        0 <= i < items.len() ==> #[trigger] items[i] == ValueView::BitVector(
            BvView { uint: bytes[i] as nat, width: 8 },
        )) {
        law_bytes_of_lists(items, bytes);
        law_leaves_of_lists(items);
    }
}

/// The bytes in the array that is made of bytes are those bytes, whatever its keys are.
pub proof fn law_bytes_through_an_array(
    o: ArrayOp,
    s: Seq<ValueView>,
    bytes: Seq<u8>,
    env: Map<Seq<char>, ValueView>,
    mode: FieldToBv,
)
    requires
        s.len() == bytes.len(),
        forall|i: int|
            0 <= i < s.len() ==> #[trigger] s[i] == ValueView::BitVector(
                BvView { uint: bytes[i] as nat, width: 8 },
            ),
        o.val@ == SortView::BitVector(8),
        key_count(o.key@) is Some,
        s.len() <= key_count(o.key@)->0,
    ensures
        op_result(Op::Array(Box::new(o)), s, env, mode) is Some,
        flatten_bytes(op_result(Op::Array(Box::new(o)), s, env, mode)->0) == Some(bytes),
        flatten(op_result(Op::Array(Box::new(o)), s, env, mode)->0) == Some(s),
{
    assert forall|i: int| 0 <= i < s.len() implies value_sort(#[trigger] s[i]) == o.val@ by {
        assert(s[i] == ValueView::BitVector(BvView { uint: bytes[i] as nat, width: 8 }));
    }
    assert(inhabited(o.val@));
    let a = array_result(o.key@, o.val@, s)->0;
    assert forall|i: int| 0 <= i < s.len() implies #[trigger] s[i] == array_select(
        a,
        nth_key(a.key_sort, i as nat),
    ) by {
        law_elements_of_array(o.key@, o.val@, s, i as nat);
    }
    law_array_in_index_order(a, s, bytes);
}

} // verus!
