//! What holds of the functions that are known by their names, and of challenges.

use crate::array_laws::law_select_of_items;
use crate::bv::BvView;
use crate::bytes::{le_bytes, le_value};
use crate::challenge::eval_pf_challenge;
use crate::field::{bls12381_modulus, FieldT, FieldTView, FieldV};
use crate::op::{ChallengeOp, FieldToBv, Op};
use crate::outside::{chacha_stream, fx_digest, sha256_digest};
use crate::semantics::{
    byte_array, byte_items, byte_values, can_challenge, challenge_length, challenge_value,
    digest_bytes, flatten, flatten_all, flatten_all_bytes, flatten_bytes, flatten_element_bytes,
    flatten_elements, is_byte, lemma_select_smaller, merkle_root, op_result, poseidon_result,
    sha256_result,
};
use crate::sort::SortView;
use crate::value::{
    array_select, default_of, has_key, index_count, key_index, nth_key, ArrayView, ValueView,
};
use vstd::arithmetic::div_mod::lemma_mod_bound;
use vstd::arithmetic::power2::lemma2_to64;
use vstd::prelude::*;

verus! {

/// What a well-formed array holds is well-formed.
pub proof fn lemma_select_wf(a: ArrayView, k: ValueView)
    requires
        ValueView::Array(a).wf(),
    ensures
        array_select(a, k).wf(),
{
    if has_key(a.entries, k) {
        let i = key_index(a.entries, k);
        assert(0 <= i < a.entries.len());
        assert(a.entries[i].1.wf());
    }
}

/// Bytes one after the other are the bytes of their values one after the other.
proof fn lemma_byte_values_append(s: Seq<ValueView>, t: Seq<ValueView>)
    requires
        forall|i: int| 0 <= i < s.len() ==> is_byte(#[trigger] s[i]),
        forall|i: int| 0 <= i < t.len() ==> is_byte(#[trigger] t[i]),
    ensures
        byte_values(s + t) == byte_values(s) + byte_values(t),
        forall|i: int| 0 <= i < (s + t).len() ==> is_byte(#[trigger] (s + t)[i]),
{
    assert(byte_values(s + t) =~= byte_values(s) + byte_values(t));
}

/// A value that is made of bytes is flattened into the bit-vectors that are those bytes.
pub proof fn law_bytes_of_values(v: ValueView)
    requires
        v.wf(),
        flatten_bytes(v) is Some,
    ensures
        flatten(v) is Some,
        forall|i: int| 0 <= i < flatten(v)->0.len() ==> is_byte(#[trigger] flatten(v)->0[i]),
        byte_values(flatten(v)->0) == flatten_bytes(v)->0,
    decreases v, 0nat,
{
    match v {
        ValueView::BitVector(b) => {
            lemma2_to64();
            assert(byte_values(seq![v]) =~= seq![b.uint as u8]);
        },
        ValueView::Tuple(t) => {
            lemma_bytes_of_all(t, t.len());
        },
        ValueView::Array(a) => {
            lemma_bytes_of_elements(a, index_count(a.key_sort, a.size)->0);
        },
        _ => {},
    }
}

/// The same of the first `n` of several values.
proof fn lemma_bytes_of_all(s: Seq<ValueView>, n: nat)
    requires
        n <= s.len(),
        forall|i: int| 0 <= i < s.len() ==> (#[trigger] s[i]).wf(),
        flatten_all_bytes(s, n) is Some,
    ensures
        flatten_all(s, n) is Some,
        forall|i: int|
            0 <= i < flatten_all(s, n)->0.len() ==> is_byte(#[trigger] flatten_all(s, n)->0[i]),
        byte_values(flatten_all(s, n)->0) == flatten_all_bytes(s, n)->0,
    decreases s, n,
{
    if n > 0 {
        lemma_bytes_of_all(s, (n - 1) as nat);
        law_bytes_of_values(s[n - 1]);
        lemma_byte_values_append(flatten_all(s, (n - 1) as nat)->0, flatten(s[n - 1])->0);
    } else {
        assert(byte_values(Seq::empty()) =~= Seq::empty());
    }
}

/// The same of the first `n` elements of an array.
proof fn lemma_bytes_of_elements(a: ArrayView, n: nat)
    requires
        ValueView::Array(a).wf(),
        flatten_element_bytes(a, n) is Some,
    ensures
        flatten_elements(a, n) is Some,
        forall|i: int|
            0 <= i < flatten_elements(a, n)->0.len() ==> is_byte(
                #[trigger] flatten_elements(a, n)->0[i],
            ),
        byte_values(flatten_elements(a, n)->0) == flatten_element_bytes(a, n)->0,
    decreases a, n,
{
    if n > 0 {
        let k = nth_key(a.key_sort, (n - 1) as nat);
        lemma_bytes_of_elements(a, (n - 1) as nat);
        lemma_select_wf(a, k);
        lemma_select_smaller(a, k);
        law_bytes_of_values(array_select(a, k));
        lemma_byte_values_append(
            flatten_elements(a, (n - 1) as nat)->0,
            flatten(array_select(a, k))->0,
        );
    } else {
        assert(byte_values(Seq::empty()) =~= Seq::empty());
    }
}

/// Neither hash depends on whether its arguments come one by one or as one tuple.
pub proof fn law_hashes_ignore_grouping(args: Seq<ValueView>)
    ensures
        poseidon_result(seq![ValueView::Tuple(args)]) == poseidon_result(args),
        sha256_result(seq![ValueView::Tuple(args)]) == sha256_result(args),
{
    let one = seq![ValueView::Tuple(args)];
    assert(flatten_all(one, 0) == Some(Seq::<ValueView>::empty()));
    assert(flatten(one[0]) == flatten_all(args, args.len()));
    match flatten_all(args, args.len()) {
        Some(s) => {
            assert(Seq::<ValueView>::empty() + s =~= s);
        },
        None => {},
    }
    assert(flatten_all(one, 1) == flatten_all(args, args.len()));
}

/// An array of bytes holds each of them at its index.
pub proof fn law_elements_of_byte_array(s: Seq<u8>, i: nat)
    requires
        i < s.len() <= bls12381_modulus(),
    ensures
        array_select(
            byte_array(s),
            nth_key(SortView::Field(FieldTView::FBls12381), i),
        ) == ValueView::BitVector(BvView { uint: s[i as int] as nat, width: 8 }),
{
    law_select_of_items(
        SortView::Field(FieldTView::FBls12381),
        default_of(SortView::BitVector(8)),
        byte_items(s),
        s.len(),
        i,
    );
}

/// What `midnight_sha256` gives is an array of 32 bytes: it holds each byte of the digest at
/// its index.
pub proof fn law_elements_of_digest(args: Seq<ValueView>, i: nat)
    requires
        sha256_result(args) is Some,
        i < 32,
    ensures
        sha256_result(args)->0.size == 32,
        array_select(
            sha256_result(args)->0,
            nth_key(SortView::Field(FieldTView::FBls12381), i),
        ) == ValueView::BitVector(
            BvView {
                uint: sha256_digest(
                    byte_values(flatten_all(args, args.len())->0),
                )[i as int] as nat,
                width: 8,
            },
        ),
{
    let d = sha256_digest(byte_values(flatten_all(args, args.len())->0));
    law_elements_of_byte_array(digest_bytes(d), i);
}

/// The root along a path in two parts is the root along the second part from the node that the
/// first part leads to.
pub proof fn law_merkle_path_in_parts(
    leaf: nat,
    s1: Seq<nat>,
    p1: Seq<nat>,
    s2: Seq<nat>,
    p2: Seq<nat>,
    n: nat,
)
    requires
        s1.len() == p1.len(),
        n <= s2.len(),
        s2.len() == p2.len(),
    ensures
        merkle_root(leaf, s1 + s2, p1 + p2, s1.len() + n) == merkle_root(
            merkle_root(leaf, s1, p1, s1.len()),
            s2,
            p2,
            n,
        ),
    decreases n,
{
    if n == 0 {
        lemma_merkle_prefix(leaf, s1, p1, s2, p2, s1.len());
    } else {
        law_merkle_path_in_parts(leaf, s1, p1, s2, p2, (n - 1) as nat);
        assert((s1 + s2)[s1.len() + n - 1] == s2[n - 1]);
        assert((p1 + p2)[s1.len() + n - 1] == p2[n - 1]);
        assert((s1.len() + n - 1) as nat == s1.len() + (n - 1) as nat);
    }
}

/// The first steps along a path do not depend on what comes after them.
proof fn lemma_merkle_prefix(
    leaf: nat,
    s1: Seq<nat>,
    p1: Seq<nat>,
    s2: Seq<nat>,
    p2: Seq<nat>,
    n: nat,
)
    requires
        s1.len() == p1.len(),
        n <= s1.len(),
    ensures
        merkle_root(leaf, s1 + s2, p1 + p2, n) == merkle_root(leaf, s1, p1, n),
    decreases n,
{
    if n > 0 {
        lemma_merkle_prefix(leaf, s1, p1, s2, p2, (n - 1) as nat);
        assert((s1 + s2)[n - 1] == s1[n - 1]);
        assert((p1 + p2)[n - 1] == p1[n - 1]);
    }
}

/// A challenge is an element of its field.
pub proof fn law_challenge_in_field(hash: u64, f: FieldTView)
    requires
        can_challenge(f),
    ensures
        challenge_value(hash, f).wf(),
        challenge_value(hash, f).ty == f,
{
    let n = le_value(
        chacha_stream(
            le_bytes(hash as nat, 32),
            challenge_length(f.modulus()),
        ),
    );
    lemma_mod_bound(n as int, f.modulus() as int);
}

/// The challenge operator gives the challenge for its name and field, on all arguments and in
/// all environments.
pub proof fn law_challenge_operator(
    c: ChallengeOp,
    args: Seq<ValueView>,
    env: Map<Seq<char>, ValueView>,
    mode: FieldToBv,
)
    requires
        c@.wf(),
        can_challenge(c@.field),
    ensures
        op_result(Op::PfChallenge(Box::new(c)), args, env, mode) == Some(
            ValueView::Field(
                challenge_value(fx_digest(c@.name, usize::BITS as nat), c@.field),
            ),
        ),
{
}

/// A challenge depends on nothing but its name and its field: two challenge operators of one
/// name and one field have the same value, on all arguments and in all environments.
pub proof fn law_challenge_is_fixed(
    c: ChallengeOp,
    d: ChallengeOp,
    args1: Seq<ValueView>,
    args2: Seq<ValueView>,
    env1: Map<Seq<char>, ValueView>,
    env2: Map<Seq<char>, ValueView>,
    mode: FieldToBv,
)
    requires
        c@.wf(),
        d@.wf(),
        c@.name == d@.name,
        c@.field == d@.field,
    ensures
        op_result(Op::PfChallenge(Box::new(c)), args1, env1, mode) == op_result(
            Op::PfChallenge(Box::new(d)),
            args2,
            env2,
            mode,
        ),
{
}

/// Two calls of [`eval_pf_challenge`] with one name and one field give the same element.
pub proof fn law_challenge_calls_agree(
    name1: &str,
    field1: &FieldT,
    r1: FieldV,
    name2: &str,
    field2: &FieldT,
    r2: FieldV,
)
    requires
        name1@ == name2@,
        field1@ == field2@,
        call_ensures(eval_pf_challenge, (name1, field1), r1),
        call_ensures(eval_pf_challenge, (name2, field2), r2),
    ensures
        r1@ == r2@,
{
}

} // verus!
