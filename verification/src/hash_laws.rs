//! What the hashes and the tree over them give, told from their inputs.

use crate::bits::lemma_bit_length_le;
use crate::bv::BvView;
use crate::bytes::{be_value, le_bytes, le_value, lemma_le_bytes, lemma_pow2_8};
use crate::call_laws::{law_elements_of_byte_array, law_merkle_path_in_parts};
use crate::field::{FieldTView, FieldVView};
use crate::leaf_laws::{law_array_in_index_order, law_leaves_of_lists};
use crate::limbs::{lemma_div_pow2_twice, lemma_pow2_32};
use crate::op::{CallOp, ChallengeOp, FieldToBv, Op};
use crate::outside::{chacha_stream, poseidon_digest, sha256_digest};
use crate::pf_laws::all_elements;
use crate::semantics::{
    all_scalar_bytes, byte_array, byte_items, byte_values, challenge_length, digest_bytes, flatten,
    flatten_bytes, hybrid_mt_result, is_byte, merkle_leaf, merkle_root, merkle_step, op_result,
    poseidon_value, representatives, sha256_result,
};
use crate::sort::SortView;
use crate::value::{array_select, nth_key, ArrayView, ValueView};
use vstd::arithmetic::div_mod::lemma_mod_twice;
use vstd::arithmetic::power2::{lemma_pow2_adds, pow2};
use vstd::prelude::*;

verus! {

/// Whether the bytes, least significant one first, are those of `n` and enough for it.
pub open spec fn are_bytes_of(b: Seq<u8>, n: nat) -> bool {
    &&& n < pow2(8 * b.len())
    &&& forall|j: nat| j < b.len() ==> #[trigger] b[j as int] == (n / pow2(8 * j)) % 256
}

/// Whether the bytes, most significant one first, are those of `n` and enough for it.
pub open spec fn are_digits_of(b: Seq<u8>, n: nat) -> bool {
    &&& n < pow2(8 * b.len())
    &&& forall|j: nat|
        j < b.len() ==> #[trigger] b[j as int] == (n / pow2((8 * (b.len() - 1 - j)) as nat)) % 256
}

/// The bytes of a number, one by one.
proof fn lemma_byte_of_number(n: nat, len: nat, j: nat)
    requires
        j < len,
    ensures
        le_bytes(n, len).len() == len,
        le_bytes(n, len)[j as int] == (n / pow2(8 * j)) % 256,
    decreases len,
{
    lemma_pow2_32();
    lemma_pow2_8();
    lemma_le_bytes(n, len);
    let rest = le_bytes(n / 256, (len - 1) as nat);
    lemma_le_bytes(n / 256, (len - 1) as nat);
    if j > 0 {
        let i = (j - 1) as nat;
        lemma_byte_of_number(n / 256, (len - 1) as nat, i);
        lemma_div_pow2_twice(n, 8, 8 * i);
        assert(8 + 8 * i == 8 * j);
        assert(le_bytes(n, len)[j as int] == rest[i as int]);
    } else {
        assert(n / 1 == n);
    }
}

/// Bytes that are those of a number, least significant one first, stand for it, and it has no
/// others.
pub proof fn law_least_significant_first(b: Seq<u8>, n: nat)
    requires
        are_bytes_of(b, n),
    ensures
        le_value(b) == n,
        le_bytes(n, b.len()) == b,
{
    lemma_le_bytes(n, b.len());
    assert forall|j: int| 0 <= j < b.len() implies le_bytes(n, b.len())[j] == b[j] by {
        lemma_byte_of_number(n, b.len(), j as nat);
        assert(b[j as nat as int] == (n / pow2(8 * j as nat)) % 256);
    }
    assert(le_bytes(n, b.len()) =~= b);
}

/// Bytes that are those of a number, most significant one first, stand for it.
pub proof fn law_most_significant_first(b: Seq<u8>, n: nat)
    requires
        are_digits_of(b, n),
    ensures
        be_value(b) == n,
    decreases b.len(),
{
    lemma_pow2_32();
    lemma_pow2_8();
    if b.len() > 0 {
        let k = (b.len() - 1) as nat;
        let init = b.drop_last();
        lemma_pow2_adds(8, 8 * k);
        assert(8 + 8 * k == 8 * b.len());
        assert(n / 256 < pow2(8 * k));
        assert forall|j: nat| j < init.len() implies #[trigger] init[j as int] == ((n / 256) / pow2(
            (8 * (init.len() - 1 - j)) as nat,
        )) % 256 by {
            let e = (8 * (init.len() - 1 - j)) as nat;
            lemma_div_pow2_twice(n, 8, e);
            assert(8 + e == (8 * (b.len() - 1 - j)) as nat);
            assert(b[j as int] == init[j as int]);
        }
        law_most_significant_first(init, n / 256);
        assert(b[k as int] == (n / pow2((8 * (b.len() - 1 - k)) as nat)) % 256);
        assert(n / 1 == n);
    }
}

/// The Poseidon hash of numbers is the number whose bytes the hash gives on the bytes of their
/// remainders by the order of the scalar field of BLS12-381, 32 for each, in the same order.
pub proof fn law_poseidon_of_numbers(xs: Seq<nat>, inputs: Seq<Seq<u8>>, n: nat)
    requires
        inputs.len() == xs.len(),
        forall|k: int|
            0 <= k < xs.len() ==> (#[trigger] inputs[k]).len() == 32 && are_bytes_of(
                inputs[k],
                xs[k] % FieldTView::FBls12381.modulus(),
            ),
        are_bytes_of(poseidon_digest(inputs), n),
    ensures
        poseidon_value(xs) == n,
{
    assert forall|k: int| 0 <= k < xs.len() implies all_scalar_bytes(xs)[k] == inputs[k] by {
        law_least_significant_first(inputs[k], xs[k] % FieldTView::FBls12381.modulus());
    }
    assert(all_scalar_bytes(xs) =~= inputs);
    law_least_significant_first(poseidon_digest(inputs), n);
}

/// The names of the known functions are different.
proof fn lemma_names()
    ensures
        "PlonkMul2"@ != "midnight_poseidon"@,
        "PlonkMul2"@ != "midnight_sha256"@,
        "PlonkMul2"@ != "midnight_hybrid_mt"@,
        "midnight_poseidon"@ != "midnight_sha256"@,
        "midnight_poseidon"@ != "midnight_hybrid_mt"@,
        "midnight_sha256"@ != "midnight_hybrid_mt"@,
{
    reveal_strlit("PlonkMul2");
    reveal_strlit("midnight_poseidon");
    reveal_strlit("midnight_sha256");
    reveal_strlit("midnight_hybrid_mt");
    assert("PlonkMul2"@.len() == 9);
    assert("midnight_poseidon"@.len() == 17);
    assert("midnight_sha256"@.len() == 15);
    assert("midnight_hybrid_mt"@.len() == 18);
}

/// A function of any other name has no value.
pub proof fn law_unknown_functions(
    c: CallOp,
    args: Seq<ValueView>,
    env: Map<Seq<char>, ValueView>,
    mode: FieldToBv,
)
    requires
        c.name@ != "PlonkMul2"@,
        c.name@ != "midnight_poseidon"@,
        c.name@ != "midnight_sha256"@,
        c.name@ != "midnight_hybrid_mt"@,
    ensures
        op_result(Op::UndefinedFnCall(Box::new(c)), args, env, mode) is None,
{
}

/// `midnight_poseidon` hashes the representatives of all field elements in its arguments, and
/// gives an element of their field. It is there for elements of one field, one or more.
pub proof fn law_poseidon_call(
    c: CallOp,
    args: Seq<ValueView>,
    leaves: Seq<ValueView>,
    xs: Seq<nat>,
    env: Map<Seq<char>, ValueView>,
    mode: FieldToBv,
)
    requires
        c.name@ == "midnight_poseidon"@,
        flatten(ValueView::Tuple(args)) == Some(leaves),
        xs.len() == leaves.len(),
        forall|k: int| 0 <= k < xs.len() ==> #[trigger] xs[k] == leaves[k]->Field_0.i,
    ensures
        op_result(Op::UndefinedFnCall(Box::new(c)), args, env, mode) is Some <==> leaves.len() > 0
            && leaves[0] is Field && leaves[0]->Field_0.ty.modulus() > 0 && all_elements(
            leaves[0]->Field_0.ty,
            leaves,
        ),
        op_result(Op::UndefinedFnCall(Box::new(c)), args, env, mode) is Some ==> op_result(
            Op::UndefinedFnCall(Box::new(c)),
            args,
            env,
            mode,
        )->0 == ValueView::Field(
            FieldVView {
                ty: leaves[0]->Field_0.ty,
                i: poseidon_value(xs) % leaves[0]->Field_0.ty.modulus(),
            },
        ),
{
    lemma_names();
    assert(representatives(leaves) =~= xs);
    if leaves.len() > 0 {
        if all_elements(leaves[0]->Field_0.ty, leaves) {
            assert(leaves[0] is Field);
        }
    }
}

/// `midnight_sha256` hashes all bit-vectors in its arguments, each of them a byte, in their
/// order. It gives an array of 32 bytes with the scalars of BLS12-381 for keys, which holds the
/// bytes of the digest in their order.
pub proof fn law_sha256_call(
    c: CallOp,
    args: Seq<ValueView>,
    leaves: Seq<ValueView>,
    data: Seq<u8>,
    a: ArrayView,
    i: nat,
    env: Map<Seq<char>, ValueView>,
    mode: FieldToBv,
)
    requires
        c.name@ == "midnight_sha256"@,
        flatten(ValueView::Tuple(args)) == Some(leaves),
        data.len() == leaves.len(),
        0 < data.len() < 0x2000_0000_0000_0000,
        forall|k: int|
            0 <= k < data.len() ==> (#[trigger] leaves[k]) is BitVector
                && leaves[k]->BitVector_0.uint == data[k],
    ensures
        op_result(Op::UndefinedFnCall(Box::new(c)), args, env, mode) is Some,
        op_result(Op::UndefinedFnCall(Box::new(c)), args, env, mode) == Some(ValueView::Array(a))
            ==> a.size == 32 && a.key_sort == SortView::Field(FieldTView::FBls12381)
            && *a.default == ValueView::BitVector(BvView { uint: 0, width: 8 })
            && a.entries.len() == 32 && (i < 32 ==> array_select(
            a,
            ValueView::Field(FieldVView { ty: FieldTView::FBls12381, i }),
        ) == ValueView::BitVector(
            BvView { uint: sha256_digest(data)[i as int] as nat, width: 8 },
        )),
        op_result(Op::UndefinedFnCall(Box::new(c)), args, env, mode)->0 is Array,
{
    lemma_names();
    assert forall|k: int| 0 <= k < leaves.len() implies is_byte(#[trigger] leaves[k]) by {
        assert(leaves[k]->BitVector_0.uint == data[k]);
    }
    assert(byte_values(leaves) =~= data) by {
        assert forall|k: int| 0 <= k < data.len() implies byte_values(leaves)[k] == data[k] by {
            assert(leaves[k]->BitVector_0.uint == data[k]);
        }
    }
    let d = digest_bytes(sha256_digest(data));
    assert(sha256_result(args) == Some(byte_array(d)));
    if i < 32 {
        law_elements_of_byte_array(d, i);
    }
}

/// The bytes in what `midnight_sha256` gives are the digest, from its first byte to its last.
pub proof fn law_digest_in_order(
    c: CallOp,
    args: Seq<ValueView>,
    leaves: Seq<ValueView>,
    data: Seq<u8>,
    env: Map<Seq<char>, ValueView>,
    mode: FieldToBv,
)
    requires
        c.name@ == "midnight_sha256"@,
        flatten(ValueView::Tuple(args)) == Some(leaves),
        data.len() == leaves.len(),
        0 < data.len() < 0x2000_0000_0000_0000,
        sha256_digest(data).len() == 32,
        forall|k: int|
            0 <= k < data.len() ==> (#[trigger] leaves[k]) is BitVector
                && leaves[k]->BitVector_0.uint == data[k],
    ensures
        flatten_bytes(op_result(Op::UndefinedFnCall(Box::new(c)), args, env, mode)->0) == Some(
            sha256_digest(data),
        ),
{
    let a = op_result(Op::UndefinedFnCall(Box::new(c)), args, env, mode)->0->Array_0;
    let d = sha256_digest(data);
    law_sha256_call(c, args, leaves, data, a, 0, env, mode);
    let items = byte_items(d);
    assert forall|i: int| 0 <= i < items.len() implies #[trigger] items[i] == array_select(
        a,
        nth_key(a.key_sort, i as nat),
    ) by {
        law_sha256_call(c, args, leaves, data, a, i as nat, env, mode);
    }
    law_array_in_index_order(a, items, d);
}

/// Nothing is hashed where nothing comes of the arguments. `midnight_sha256` takes bytes only,
/// one or more.
pub proof fn law_hash_operands(
    c: CallOp,
    args: Seq<ValueView>,
    k: int,
    env: Map<Seq<char>, ValueView>,
    mode: FieldToBv,
)
    ensures
        c.name@ == "midnight_poseidon"@ && flatten(ValueView::Tuple(args)) is None ==> op_result(
            Op::UndefinedFnCall(Box::new(c)),
            args,
            env,
            mode,
        ) is None,
        c.name@ == "midnight_sha256"@ && flatten(ValueView::Tuple(args)) is None ==> op_result(
            Op::UndefinedFnCall(Box::new(c)),
            args,
            env,
            mode,
        ) is None,
        c.name@ == "midnight_sha256"@ && op_result(
            Op::UndefinedFnCall(Box::new(c)),
            args,
            env,
            mode,
        ) is Some ==> flatten(ValueView::Tuple(args))->0.len() > 0 && (0 <= k < flatten(
            ValueView::Tuple(args),
        )->0.len() ==> flatten(ValueView::Tuple(args))->0[k] is BitVector && flatten(
            ValueView::Tuple(args),
        )->0[k]->BitVector_0.uint < 256),
{
    lemma_names();
    if c.name@ == "midnight_sha256"@ && sha256_result(args) is Some {
        let s = flatten(ValueView::Tuple(args))->0;
        if 0 <= k < s.len() {
            assert(is_byte(s[k]));
        }
    }
}

/// A number and its remainder are the same to the Poseidon hash.
proof fn lemma_poseidon_remainder(x: nat, y: nat)
    ensures
        poseidon_value(seq![x % FieldTView::FBls12381.modulus(), y, 0]) == poseidon_value(
            seq![x, y, 0],
        ),
        poseidon_value(seq![y, x % FieldTView::FBls12381.modulus(), 0]) == poseidon_value(
            seq![y, x, 0],
        ),
{
    let p = FieldTView::FBls12381.modulus();
    lemma_mod_twice(x as int, p as int);
    let (s, t) = (seq![x % p, y, 0nat], seq![x, y, 0nat]);
    assert(all_scalar_bytes(s) =~= all_scalar_bytes(t)) by {
        assert(s[0] == x % p && t[0] == x && s[1] == t[1] && s[2] == t[2]);
    }
    let (u, v) = (seq![y, x % p, 0nat], seq![y, x, 0nat]);
    assert(all_scalar_bytes(u) =~= all_scalar_bytes(v)) by {
        assert(u[1] == x % p && v[1] == x && u[0] == v[0] && u[2] == v[2]);
    }
}

/// Hashing three scalars by a call.
proof fn lemma_three_scalars(
    d: CallOp,
    x: FieldVView,
    y: FieldVView,
    env: Map<Seq<char>, ValueView>,
    mode: FieldToBv,
)
    requires
        d.name@ == "midnight_poseidon"@,
        x.ty == FieldTView::FBls12381,
        y.ty == FieldTView::FBls12381,
    ensures
        op_result(
            Op::UndefinedFnCall(Box::new(d)),
            seq![
                ValueView::Field(x),
                ValueView::Field(y),
                ValueView::Field(FieldVView { ty: FieldTView::FBls12381, i: 0 }),
            ],
            env,
            mode,
        ) == Some(
            ValueView::Field(
                FieldVView {
                    ty: FieldTView::FBls12381,
                    i: poseidon_value(seq![x.i, y.i, 0]) % FieldTView::FBls12381.modulus(),
                },
            ),
        ),
{
    let zero = ValueView::Field(FieldVView { ty: FieldTView::FBls12381, i: 0 });
    let s = seq![ValueView::Field(x), ValueView::Field(y), zero];
    law_leaves_of_lists(s);
    assert(all_elements(FieldTView::FBls12381, s));
    assert(s[0] == ValueView::Field(x));
    law_poseidon_call(d, s, s, seq![x.i, y.i, 0], env, mode);
}

/// The root along a path that is one step longer is one hash of the root along the path: of that
/// root, the new sibling and zero where the position is one, and of the sibling, the root and
/// zero where it is zero. This holds at every length of the path.
#[verifier::rlimit(40)]
pub proof fn law_path_grows(
    c: CallOp,
    d: CallOp,
    leaf: ValueView,
    sibs: ValueView,
    poss: ValueView,
    sibs2: ValueView,
    poss2: ValueView,
    x: FieldVView,
    b: FieldVView,
    env: Map<Seq<char>, ValueView>,
    mode: FieldToBv,
)
    requires
        c.name@ == "midnight_hybrid_mt"@,
        d.name@ == "midnight_poseidon"@,
        op_result(Op::UndefinedFnCall(Box::new(c)), seq![leaf, sibs, poss], env, mode) is Some,
        flatten(sibs)->0[0]->Field_0.ty == FieldTView::FBls12381,
        x.ty == FieldTView::FBls12381,
        b.i <= 1,
        flatten(sibs2) == Some(flatten(sibs)->0.push(ValueView::Field(x))),
        flatten(poss2) == Some(flatten(poss)->0.push(ValueView::Field(b))),
    ensures
        op_result(Op::UndefinedFnCall(Box::new(c)), seq![leaf, sibs2, poss2], env, mode)
            == op_result(
            Op::UndefinedFnCall(Box::new(d)),
            if b.i == 1 {
                seq![
                    op_result(
                        Op::UndefinedFnCall(Box::new(c)),
                        seq![leaf, sibs, poss],
                        env,
                        mode,
                    )->0,
                    ValueView::Field(x),
                    ValueView::Field(FieldVView { ty: FieldTView::FBls12381, i: 0 }),
                ]
            } else {
                seq![
                    ValueView::Field(x),
                    op_result(
                        Op::UndefinedFnCall(Box::new(c)),
                        seq![leaf, sibs, poss],
                        env,
                        mode,
                    )->0,
                    ValueView::Field(FieldVView { ty: FieldTView::FBls12381, i: 0 }),
                ]
            },
            env,
            mode,
        ),
{
    lemma_names();
    let short = seq![leaf, sibs, poss];
    let long = seq![leaf, sibs2, poss2];
    let (s, t) = (flatten(sibs)->0, flatten(poss)->0);
    let (s2, t2) = (s.push(ValueView::Field(x)), t.push(ValueView::Field(b)));
    assert(hybrid_mt_result(short) is Some);
    assert forall|i: int| 0 <= i < s2.len() implies (#[trigger] s2[i]) is Field
        && s2[i]->Field_0.ty == FieldTView::FBls12381 by {
        if i < s.len() {
            assert(s2[i] == s[i]);
        }
    }
    assert forall|i: int| 0 <= i < t2.len() implies (#[trigger] t2[i]) is Field
        && t2[i]->Field_0.i <= 1 by {
        if i < t.len() {
            assert(t2[i] == t[i]);
        }
    }
    assert(s2[0] == s[0]);
    let bytes = flatten_bytes(leaf)->0;
    let start = merkle_leaf(sha256_digest(bytes));
    let (m, n) = (representatives(s), representatives(t));
    assert(representatives(s2) =~= m + seq![x.i]);
    assert(representatives(t2) =~= n + seq![b.i]);
    law_merkle_path_in_parts(start, m, n, seq![x.i], seq![b.i], 1);
    let acc = merkle_root(start, m, n, m.len());
    assert(merkle_root(acc, seq![x.i], seq![b.i], 0) == acc);
    assert(merkle_root(acc, seq![x.i], seq![b.i], 1) == merkle_step(acc, x.i, b.i));
    lemma_poseidon_remainder(acc, x.i);
    let prev = FieldVView {
        ty: FieldTView::FBls12381,
        i: acc % FieldTView::FBls12381.modulus(),
    };
    lemma_three_scalars(d, prev, x, env, mode);
    lemma_three_scalars(d, x, prev, env, mode);
}

/// The root along a path of one step is one hash of the leaf and the sibling. The leaf is the
/// hash of the first half of the digest of the 32 bytes, its second half and zero, each half as
/// a number with its most significant byte first.
pub proof fn law_path_of_one_step(
    c: CallOp,
    d: CallOp,
    leaf: ValueView,
    sibs: ValueView,
    poss: ValueView,
    x: FieldVView,
    b: FieldVView,
    lo: nat,
    hi: nat,
    node: FieldVView,
    env: Map<Seq<char>, ValueView>,
    mode: FieldToBv,
)
    requires
        c.name@ == "midnight_hybrid_mt"@,
        d.name@ == "midnight_poseidon"@,
        flatten_bytes(leaf) is Some,
        flatten_bytes(leaf)->0.len() == 32,
        flatten(sibs) == Some(seq![ValueView::Field(x)]),
        flatten(poss) == Some(seq![ValueView::Field(b)]),
        x.ty == FieldTView::FBls12381,
        b.i <= 1,
        sha256_digest(flatten_bytes(leaf)->0).len() == 32,
        are_digits_of(sha256_digest(flatten_bytes(leaf)->0).subrange(0, 16), lo),
        are_digits_of(sha256_digest(flatten_bytes(leaf)->0).subrange(16, 32), hi),
        op_result(
            Op::UndefinedFnCall(Box::new(d)),
            seq![
                ValueView::Field(FieldVView { ty: FieldTView::FBls12381, i: lo }),
                ValueView::Field(FieldVView { ty: FieldTView::FBls12381, i: hi }),
                ValueView::Field(FieldVView { ty: FieldTView::FBls12381, i: 0 }),
            ],
            env,
            mode,
        ) == Some(ValueView::Field(node)),
    ensures
        op_result(Op::UndefinedFnCall(Box::new(c)), seq![leaf, sibs, poss], env, mode)
            == op_result(
            Op::UndefinedFnCall(Box::new(d)),
            if b.i == 1 {
                seq![
                    ValueView::Field(node),
                    ValueView::Field(x),
                    ValueView::Field(FieldVView { ty: FieldTView::FBls12381, i: 0 }),
                ]
            } else {
                seq![
                    ValueView::Field(x),
                    ValueView::Field(node),
                    ValueView::Field(FieldVView { ty: FieldTView::FBls12381, i: 0 }),
                ]
            },
            env,
            mode,
        ),
{
    lemma_names();
    let bytes = flatten_bytes(leaf)->0;
    let digest = sha256_digest(bytes);
    let (s, t) = (seq![ValueView::Field(x)], seq![ValueView::Field(b)]);
    let args = seq![leaf, sibs, poss];
    law_most_significant_first(digest.subrange(0, 16), lo);
    law_most_significant_first(digest.subrange(16, 32), hi);
    let acc = merkle_leaf(digest);
    assert(acc == poseidon_value(seq![lo, hi, 0]));
    assert(representatives(s) =~= seq![x.i]);
    assert(representatives(t) =~= seq![b.i]);
    assert(merkle_root(acc, seq![x.i], seq![b.i], 0) == acc);
    assert(merkle_root(acc, seq![x.i], seq![b.i], 1) == merkle_step(acc, x.i, b.i));
    assert(s[0] is Field && t[0] is Field);
    let l = FieldVView { ty: FieldTView::FBls12381, i: lo };
    let h = FieldVView { ty: FieldTView::FBls12381, i: hi };
    lemma_three_scalars(d, l, h, env, mode);
    lemma_poseidon_remainder(acc, x.i);
    lemma_three_scalars(d, node, x, env, mode);
    lemma_three_scalars(d, x, node, env, mode);
}

/// Nodes from the leaf up that are each hashed from the one before, the sibling and zero.
pub open spec fn is_path(
    nodes: Seq<nat>,
    siblings: Seq<ValueView>,
    positions: Seq<ValueView>,
) -> bool {
    &&& nodes.len() == siblings.len() + 1
    &&& forall|k: int|
        0 <= k < siblings.len() ==> #[trigger] nodes[k + 1] == poseidon_value(
            if positions[k]->Field_0.i == 1 {
                seq![nodes[k], siblings[k]->Field_0.i, 0]
            } else {
                seq![siblings[k]->Field_0.i, nodes[k], 0]
            },
        )
}

/// The nodes of a path are those that the steps along it lead to.
proof fn lemma_nodes_of_path(
    nodes: Seq<nat>,
    siblings: Seq<ValueView>,
    positions: Seq<ValueView>,
    n: nat,
)
    requires
        is_path(nodes, siblings, positions),
        siblings.len() == positions.len(),
        n <= siblings.len(),
    ensures
        merkle_root(nodes[0], representatives(siblings), representatives(positions), n) == nodes[
            n as int
        ],
    decreases n,
{
    if n > 0 {
        lemma_nodes_of_path(nodes, siblings, positions, (n - 1) as nat);
        assert(nodes[(n - 1) + 1] == nodes[n as int]);
    }
}

/// The root, in every field: the last node of the path along all siblings, as an element of the
/// field of the siblings. It is there for 32 bytes, siblings in one field, one or more, and as
/// many positions that are zero or one.
#[verifier::rlimit(40)]
pub proof fn law_root_of_path(
    c: CallOp,
    args: Seq<ValueView>,
    bytes: Seq<u8>,
    siblings: Seq<ValueView>,
    positions: Seq<ValueView>,
    lo: nat,
    hi: nat,
    nodes: Seq<nat>,
    env: Map<Seq<char>, ValueView>,
    mode: FieldToBv,
)
    requires
        c.name@ == "midnight_hybrid_mt"@,
        args.len() == 3,
        flatten_bytes(args[0]) == Some(bytes),
        flatten(args[1]) == Some(siblings),
        flatten(args[2]) == Some(positions),
        bytes.len() == 32,
        siblings.len() > 0,
        siblings[0] is Field,
        siblings[0]->Field_0.ty.modulus() > 0,
        all_elements(siblings[0]->Field_0.ty, siblings),
        positions.len() == siblings.len(),
        forall|k: int|
            0 <= k < positions.len() ==> (#[trigger] positions[k]) is Field
                && positions[k]->Field_0.i <= 1,
        sha256_digest(bytes).len() == 32,
        are_digits_of(sha256_digest(bytes).subrange(0, 16), lo),
        are_digits_of(sha256_digest(bytes).subrange(16, 32), hi),
        is_path(nodes, siblings, positions),
        nodes[0] == poseidon_value(seq![lo, hi, 0]),
    ensures
        op_result(Op::UndefinedFnCall(Box::new(c)), args, env, mode) == Some(
            ValueView::Field(
                FieldVView {
                    ty: siblings[0]->Field_0.ty,
                    i: nodes[siblings.len() as int] % siblings[0]->Field_0.ty.modulus(),
                },
            ),
        ),
{
    lemma_names();
    let digest = sha256_digest(bytes);
    law_most_significant_first(digest.subrange(0, 16), lo);
    law_most_significant_first(digest.subrange(16, 32), hi);
    lemma_nodes_of_path(nodes, siblings, positions, siblings.len());
}

/// What the tree does not take: other than three arguments, a leaf of other than 32 bytes, no
/// siblings or siblings that are not elements of one field, and positions that are not as many
/// or are not zero or one.
pub proof fn law_refused_paths(
    c: CallOp,
    args: Seq<ValueView>,
    k: int,
    env: Map<Seq<char>, ValueView>,
    mode: FieldToBv,
)
    requires
        c.name@ == "midnight_hybrid_mt"@,
        op_result(Op::UndefinedFnCall(Box::new(c)), args, env, mode) is Some,
    ensures
        args.len() == 3,
        flatten_bytes(args[0]) is Some,
        flatten_bytes(args[0])->0.len() == 32,
        flatten(args[1]) is Some,
        flatten(args[1])->0.len() > 0,
        0 <= k < flatten(args[1])->0.len() ==> flatten(args[1])->0[k] is Field && flatten(
            args[1],
        )->0[k]->Field_0.ty == flatten(args[1])->0[0]->Field_0.ty,
        flatten(args[2]) is Some,
        flatten(args[2])->0.len() == flatten(args[1])->0.len(),
        0 <= k < flatten(args[2])->0.len() ==> flatten(args[2])->0[k] is Field && flatten(
            args[2],
        )->0[k]->Field_0.i < 2,
{
    lemma_names();
    let s = flatten(args[1])->0;
    let t = flatten(args[2])->0;
    if 0 <= k < s.len() {
        assert(s[k] is Field);
        assert(t[k] is Field);
    }
}

/// A challenge is the number whose bytes a generator gives, as an element of the field. The seed
/// of the generator is the eight bytes of the hash, least significant one first, and zeros; it
/// gives 16 bytes more than are enough for every number below the order of the field.
pub proof fn law_challenge_is_drawn(
    c: ChallengeOp,
    seed: Seq<u8>,
    len: nat,
    n: nat,
    args: Seq<ValueView>,
    env: Map<Seq<char>, ValueView>,
    mode: FieldToBv,
)
    requires
        seed.len() == 32,
        are_bytes_of(seed, c@.hash as nat),
        len + 16 <= usize::MAX,
        0 < c@.field.modulus() < pow2(8 * len),
        len > 0,
        pow2((8 * (len - 1)) as nat) <= c@.field.modulus(),
        are_bytes_of(chacha_stream(seed, len + 16), n),
    ensures
        op_result(Op::PfChallenge(Box::new(c)), args, env, mode) == Some(
            ValueView::Field(
                FieldVView { ty: c@.field, i: n % c@.field.modulus() },
            ),
        ),
{
    law_least_significant_first(seed, c@.hash as nat);
    law_least_significant_first(chacha_stream(seed, len + 16), n);
    lemma_draw_length(c@.field.modulus(), len);
}

/// No challenge can be drawn from a field without elements.
pub proof fn law_no_challenge_from_nothing(
    c: ChallengeOp,
    args: Seq<ValueView>,
    env: Map<Seq<char>, ValueView>,
    mode: FieldToBv,
)
    requires
        c@.field.modulus() == 0,
    ensures
        op_result(Op::PfChallenge(Box::new(c)), args, env, mode) is None,
{
}

/// How many bytes a challenge is drawn from.
proof fn lemma_draw_length(m: nat, len: nat)
    requires
        m < pow2(8 * len),
        len > 0,
        pow2((8 * (len - 1)) as nat) <= m,
    ensures
        challenge_length(m) == len + 16,
{
    lemma_bit_length_le(m, 8 * len);
    lemma_bit_length_le(m, (8 * (len - 1)) as nat);
}

} // verus!
