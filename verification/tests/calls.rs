use circ_eval::bigint::BigInt;
use circ_eval::bignat::{BigNat, Rank};
use circ_eval::bv::BitVector;
use circ_eval::calls::{
    array_of_bytes, eval_call, f_to_pf, leaf_inputs, nat_to_f, pf_to_f, push_bytes_from_value,
    push_fields_from_value, step_inputs,
};
use circ_eval::challenge::{
    challenge_from_hash, challenge_ready, challenge_seed, draw_length, eval_pf_challenge,
};
use circ_eval::env::Env;
use circ_eval::eval::try_eval_op;
use circ_eval::field::{FieldT, FieldV};
use circ_eval::op::{ArrayOp, CallOp, ChallengeOp, FieldToBv, Op};
use circ_eval::sort::Sort;
use circ_eval::value::Value;
use fxhash::FxHasher;
use midnight_circuits::hash::poseidon::PoseidonChip;
use midnight_circuits::instructions::hash::HashCPU;
use midnight_curves::Fq;
use rand::{RngCore, SeedableRng};
use rand_chacha::ChaChaRng;
use std::hash::{Hash, Hasher};

fn call(name: &str, args: &[Value]) -> Option<Value> {
    let refs: Vec<&Value> = args.iter().collect();
    eval_call(&name.to_string(), &refs)
}

fn run(op: &Op, args: &[Value]) -> Option<Value> {
    let refs: Vec<&Value> = args.iter().collect();
    try_eval_op(op, &refs, &Env::new(), FieldToBv::Wrap)
}

fn byte(x: u128) -> Value {
    Value::BitVector(BitVector::wrap(&BigNat::from_u128(x), 8))
}

fn bytes(s: &[u8]) -> Value {
    Value::Tuple(s.iter().map(|x| byte(*x as u128)).collect())
}

fn scalar(n: i128) -> Value {
    Value::Field(FieldT::FBls12381.new_v(&BigInt::from_i128(n)))
}

fn small(n: i128, p: u128) -> Value {
    Value::Field(FieldT::IntField(BigNat::from_u128(p)).new_v(&BigInt::from_i128(n)))
}

fn is(v: Option<Value>, expected: Value) {
    assert!(v.as_ref().is_some_and(|x| x.same(&expected)), "{:?} for {:?}", v, expected);
}

/// An element of the outside crate's field as a value.
fn of_fq(x: &Fq) -> Value {
    Value::Field(f_to_pf(&FieldT::FBls12381, &x.to_bytes_le().to_vec()))
}

/// The elements of an array of bytes.
fn digest_of(v: &Value, n: u128) -> Vec<u8> {
    let mut out: Vec<u8> = Vec::new();
    for i in 0..n {
        let el = run(&Op::Select, &[v.clone(), scalar(i as i128)]).unwrap();
        push_bytes_from_value(&el, &mut out);
    }
    out
}

/// The SHA-256 digest of "abc".
const ABC: [u8; 32] = [
    0xba, 0x78, 0x16, 0xbf, 0x8f, 0x01, 0xcf, 0xea, 0x41, 0x41, 0x40, 0xde, 0x5d, 0xae, 0x22, 0x23,
    0xb0, 0x03, 0x61, 0xa3, 0x96, 0x17, 0x7a, 0x9c, 0xb4, 0x10, 0xff, 0x61, 0xf2, 0x00, 0x15, 0xad,
];

#[test]
fn bytes_of_nested_values() {
    let key = Sort::BitVector(2);
    let op = Op::Array(Box::new(ArrayOp { key, val: Sort::BitVector(8) }));
    let a = run(&op, &[byte(4), byte(5), byte(6)]).unwrap();
    let v = Value::Tuple(vec![byte(1), Value::Tuple(vec![byte(2), byte(3)]), a]);
    let mut out: Vec<u8> = vec![9];
    push_bytes_from_value(&v, &mut out);
    assert_eq!(out, vec![9, 1, 2, 3, 4, 5, 6]);
    let mut vals: Vec<Value> = vec![Value::Bool(true)];
    push_fields_from_value(&v, &mut vals);
    assert_eq!(vals.len(), 7);
    for i in 1..7 {
        assert!(vals[i].same(&byte(i as u128)));
    }
}

#[test]
fn fields_of_nested_values() {
    let v = Value::Tuple(vec![small(1, 7), Value::Tuple(vec![]), byte(3)]);
    let mut vals: Vec<Value> = Vec::new();
    push_fields_from_value(&v, &mut vals);
    assert_eq!(vals.len(), 2);
    assert!(vals[0].same(&small(1, 7)));
    assert!(vals[1].same(&byte(3)));
}

#[test]
fn square_plus_itself() {
    is(call("PlonkMul2", &[small(10, 101)]), small(9, 101));
    is(call("PlonkMul2", &[scalar(-1)]), scalar(0));
    assert!(call("PlonkMul2", &[]).is_none());
    assert!(call("PlonkMul2", &[small(1, 7), small(1, 7)]).is_none());
    assert!(call("PlonkMul2", &[byte(1)]).is_none());
}

#[test]
fn unknown_functions() {
    assert!(call("plonkmul2", &[small(10, 101)]).is_none());
    assert!(call("", &[]).is_none());
}

#[test]
fn calls_are_operators() {
    let op = Op::UndefinedFnCall(Box::new(CallOp {
        name: "PlonkMul2".to_string(),
        arg_sorts: vec![small(0, 101).sort()],
        ret_sort: small(0, 101).sort(),
    }));
    is(run(&op, &[small(10, 101)]), small(9, 101));
}

#[test]
fn poseidon_of_field_elements() {
    let expected = PoseidonChip::<Fq>::hash(&[Fq::from(1), Fq::from(2), Fq::from(3)]);
    let args = [scalar(1), scalar(2), scalar(3)];
    is(call("midnight_poseidon", &args), of_fq(&expected));
    // grouping does not matter, order does
    let grouped = Value::Tuple(vec![scalar(1), Value::Tuple(vec![scalar(2), scalar(3)])]);
    is(call("midnight_poseidon", &[grouped]), of_fq(&expected));
    let other = call("midnight_poseidon", &[scalar(2), scalar(1), scalar(3)]).unwrap();
    assert!(!other.same(&of_fq(&expected)));
}

#[test]
fn poseidon_of_a_smaller_field() {
    let expected = PoseidonChip::<Fq>::hash(&[Fq::from(100)]);
    let n = BigNat::from_le_bytes(&expected.to_bytes_le());
    let p = FieldT::IntField(BigNat::from_u128(101));
    let out = Value::Field(p.new_v(&BigInt::from_nat(n)));
    is(call("midnight_poseidon", &[small(100, 101)]), out);
}

#[test]
fn poseidon_of_elements_above_the_scalar_field() {
    // 2^256 in a larger field is taken modulo the order of the scalars
    let big = BigNat::from_u128(1).shift_left(256);
    let field = FieldT::IntField(BigNat::from_u128(1).shift_left(300));
    let x = field.new_v(&BigInt::from_nat(big.clone()));
    let (_, rest) = big.div_rem(&FieldT::FBls12381.modulus());
    assert_eq!(pf_to_f(&x), rest.to_le_bytes(32));
    assert_eq!(nat_to_f(&big), rest.to_le_bytes(32));
    let digest: [u8; 32] = rest.to_le_bytes(32).try_into().unwrap();
    let expected = PoseidonChip::<Fq>::hash(&[Fq::from_bytes_le(&digest).unwrap()]);
    let n = BigNat::from_le_bytes(&expected.to_bytes_le());
    is(
        call("midnight_poseidon", &[Value::Field(x)]),
        Value::Field(field.new_v(&BigInt::from_nat(n))),
    );
}

#[test]
fn what_poseidon_does_not_take() {
    assert!(call("midnight_poseidon", &[]).is_none());
    assert!(call("midnight_poseidon", &[Value::Tuple(vec![])]).is_none());
    assert!(call("midnight_poseidon", &[byte(1)]).is_none());
    assert!(call("midnight_poseidon", &[scalar(1), small(1, 101)]).is_none());
    assert!(call("midnight_poseidon", &[Value::Bool(true)]).is_none());
}

#[test]
fn sha256_of_bytes() {
    let v = call("midnight_sha256", &[bytes(b"ab"), byte(b'c' as u128)]).unwrap();
    assert_eq!(digest_of(&v, 32), ABC.to_vec());
    let sort = v.sort();
    match sort {
        Sort::Array(a) => {
            assert!(a.key.same(&Sort::Field(FieldT::FBls12381)));
            assert!(a.val.same(&Sort::BitVector(8)));
            assert_eq!(a.size, 32);
        }
        _ => panic!("not an array"),
    }
    assert!(v.same(&Value::Array(array_of_bytes(&ABC.to_vec()))));
    // a wider bit-vector that is a byte counts as one
    let wide = Value::BitVector(BitVector::wrap(&BigNat::from_u128(b'c' as u128), 16));
    is(call("midnight_sha256", &[bytes(b"ab"), wide]), v);
}

#[test]
fn what_sha256_does_not_take() {
    assert!(call("midnight_sha256", &[]).is_none());
    assert!(call("midnight_sha256", &[scalar(1)]).is_none());
    let large = Value::BitVector(BitVector::wrap(&BigNat::from_u128(256), 9));
    assert!(call("midnight_sha256", &[large]).is_none());
}

/// The root of a path as the outside crates give it.
fn root(digest: &[u8; 32], path: &[(u64, bool)]) -> Fq {
    let half = |s: &[u8]| {
        let n = BigNat::from_be_bytes(s);
        let b: [u8; 32] = n.to_le_bytes(32).try_into().unwrap();
        Fq::from_bytes_le(&b).unwrap()
    };
    let zero = Fq::from(0);
    let mut acc = PoseidonChip::<Fq>::hash(&[half(&digest[0..16]), half(&digest[16..32]), zero]);
    for (sib, right) in path {
        let s = Fq::from(*sib);
        acc = if *right {
            PoseidonChip::<Fq>::hash(&[acc, s, zero])
        } else {
            PoseidonChip::<Fq>::hash(&[s, acc, zero])
        };
    }
    acc
}

fn leaf() -> Vec<u8> {
    (0..32).collect()
}

/// The SHA-256 digest of the bytes from 0 to 31.
fn leaf_digest() -> [u8; 32] {
    let v = call("midnight_sha256", &[bytes(&leaf())]).unwrap();
    digest_of(&v, 32).try_into().unwrap()
}

#[test]
fn a_path_in_a_hybrid_tree() {
    let expected = root(&leaf_digest(), &[(5, true), (6, false), (7, true)]);
    let siblings = Value::Tuple(vec![scalar(5), scalar(6), scalar(7)]);
    let positions = Value::Tuple(vec![scalar(1), scalar(0), scalar(1)]);
    let args = [bytes(&leaf()), siblings.clone(), positions.clone()];
    is(call("midnight_hybrid_mt", &args), of_fq(&expected));
    // positions may be elements of another field
    let small_positions = Value::Tuple(vec![small(1, 2), small(0, 3), small(1, 5)]);
    is(
        call("midnight_hybrid_mt", &[bytes(&leaf()), siblings.clone(), small_positions]),
        of_fq(&expected),
    );
    let flipped = Value::Tuple(vec![scalar(0), scalar(0), scalar(1)]);
    let other = call("midnight_hybrid_mt", &[bytes(&leaf()), siblings, flipped]).unwrap();
    assert!(!other.same(&of_fq(&expected)));
}

#[test]
fn what_a_hybrid_tree_does_not_take() {
    let l = bytes(&leaf());
    let one = Value::Tuple(vec![scalar(1)]);
    assert!(call("midnight_hybrid_mt", &[l.clone(), one.clone(), one.clone()]).is_some());
    assert!(call("midnight_hybrid_mt", &[l.clone(), one.clone()]).is_none());
    // a leaf of 31 bytes
    let short = bytes(&leaf()[1..]);
    assert!(call("midnight_hybrid_mt", &[short, one.clone(), one.clone()]).is_none());
    // a leaf that is not made of bytes
    assert!(call("midnight_hybrid_mt", &[one.clone(), one.clone(), one.clone()]).is_none());
    // no siblings
    let none = Value::Tuple(vec![]);
    assert!(call("midnight_hybrid_mt", &[l.clone(), none.clone(), none]).is_none());
    // siblings of two fields
    let mixed = Value::Tuple(vec![scalar(1), small(1, 101)]);
    let two = Value::Tuple(vec![scalar(1), scalar(1)]);
    assert!(call("midnight_hybrid_mt", &[l.clone(), mixed, two.clone()]).is_none());
    // more positions than siblings
    assert!(call("midnight_hybrid_mt", &[l.clone(), one.clone(), two]).is_none());
    // a position that is neither zero nor one
    let bad = Value::Tuple(vec![scalar(2)]);
    assert!(call("midnight_hybrid_mt", &[l, one, bad]).is_none());
}

#[test]
fn what_tree_nodes_are_hashed_from() {
    let mut digest: Vec<u8> = vec![0; 32];
    digest[15] = 2;
    digest[16] = 1;
    let inputs = leaf_inputs(&digest);
    assert_eq!(inputs.len(), 3);
    assert_eq!(inputs[0], BigNat::from_u128(2).to_le_bytes(32));
    assert_eq!(inputs[1], BigNat::from_u128(1 << 120).to_le_bytes(32));
    assert_eq!(inputs[2], vec![0u8; 32]);
    let (a, s) = (nat_to_f(&BigNat::from_u128(8)), nat_to_f(&BigNat::from_u128(9)));
    let zero: Vec<u8> = vec![0; 32];
    assert_eq!(step_inputs(&a, &s, true), vec![a.clone(), s.clone(), zero.clone()]);
    assert_eq!(step_inputs(&a, &s, false), vec![s, a, zero]);
}

/// A challenge as the outside crates give it.
fn drawn(hash: u64, field: &FieldT) -> FieldV {
    let mut seed = [0u8; 32];
    seed[0..8].copy_from_slice(&hash.to_le_bytes());
    let mut rng = ChaChaRng::from_seed(seed);
    let mut buf: Vec<u8> = vec![0; draw_length(field).unwrap()];
    rng.fill_bytes(&mut buf);
    field.new_v(&BigInt::from_nat(BigNat::from_le_bytes(&buf)))
}

#[test]
fn seeds_and_lengths() {
    let mut expected: Vec<u8> = vec![0x08, 0x07, 0x06, 0x05, 0x04, 0x03, 0x02, 0x01];
    expected.resize(32, 0);
    assert_eq!(challenge_seed(0x0102030405060708), expected);
    assert_eq!(draw_length(&FieldT::FBls12381), Some(48));
    assert_eq!(draw_length(&FieldT::IntField(BigNat::from_u128(256))), Some(18));
    assert_eq!(draw_length(&FieldT::IntField(BigNat::from_u128(255))), Some(17));
}

#[test]
fn challenges_come_from_the_generator() {
    let small_field = FieldT::IntField(BigNat::from_u128(0xffff_ffff_ffff_ffc5));
    for field in [FieldT::FBls12381, small_field] {
        for hash in [0, 1, 0xdead_beef_0000_0001] {
            let got = challenge_from_hash(hash, &field);
            assert!(matches!(got.compare(&drawn(hash, &field)), Rank::Same));
        }
        let a = challenge_from_hash(1, &field);
        let b = challenge_from_hash(2, &field);
        assert!(!matches!(a.compare(&b), Rank::Same));
    }
}

#[test]
fn challenges_of_names() {
    let field = FieldT::FBls12381;
    for name in ["", "x", "a longer name of a challenge"] {
        let mut hasher = FxHasher::default();
        name.hash(&mut hasher);
        let expected = drawn(hasher.finish(), &field);
        assert!(matches!(eval_pf_challenge(name, &field).compare(&expected), Rank::Same));
        let c = ChallengeOp::new(name.to_string(), field.clone());
        assert_eq!(c.name(), name);
        assert_eq!(c.hash(), hasher.finish());
        let op = Op::PfChallenge(Box::new(c));
        is(run(&op, &[]), Value::Field(expected.clone()));
        is(run(&op, &[scalar(1)]), Value::Field(expected));
    }
}

#[test]
fn one_name_has_one_challenge() {
    let field = FieldT::FBls12381;
    let first = eval_pf_challenge("alpha", &field);
    let other = eval_pf_challenge("beta", &field);
    let again = eval_pf_challenge("alpha", &field);
    assert!(matches!(first.compare(&again), Rank::Same));
    assert!(!matches!(first.compare(&other), Rank::Same));
    let operator = |name: &str| {
        let c = ChallengeOp::new(name.to_string(), field.clone());
        run(&Op::PfChallenge(Box::new(c)), &[])
    };
    is(operator("alpha"), Value::Field(first));
    is(operator("beta"), Value::Field(other));
}

#[test]
fn fields_without_challenges() {
    let empty = FieldT::IntField(BigNat::zero());
    assert!(!challenge_ready(&empty));
    assert!(challenge_ready(&FieldT::FBls12381));
    let op = Op::PfChallenge(Box::new(ChallengeOp::new("x".to_string(), empty)));
    assert!(run(&op, &[]).is_none());
}
