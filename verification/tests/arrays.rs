use circ_eval::bigint::BigInt;
use circ_eval::bignat::BigNat;
use circ_eval::bv::BitVector;
use circ_eval::env::Env;
use circ_eval::eval::try_eval_op;
use circ_eval::field::FieldT;
use circ_eval::op::{ArrayOp, BvNaryOp, FieldToBv, FillOp, IntNaryOp, Op};
use circ_eval::sort::Sort;
use circ_eval::value::{Array, Value};

fn run(op: &Op, args: &[Value]) -> Option<Value> {
    let refs: Vec<&Value> = args.iter().collect();
    try_eval_op(op, &refs, &Env::new(), FieldToBv::Wrap)
}

fn bv(n: u128, width: usize) -> Value {
    Value::BitVector(BitVector::wrap(&BigNat::from_u128(n), width))
}

fn num(n: i128) -> Value {
    Value::Int(BigInt::from_i128(n))
}

fn is(v: Option<Value>, expected: Value) {
    assert!(v.as_ref().is_some_and(|x| x.same(&expected)), "{:?} for {:?}", v, expected);
}

/// An array of integers with bit-vectors of the given width for keys.
fn ints(width: usize, items: &[i128]) -> Value {
    let items: Vec<Value> = items.iter().map(|n| num(*n)).collect();
    let op = Op::Array(Box::new(ArrayOp { key: Sort::BitVector(width), val: Sort::Int }));
    run(&op, &items).unwrap()
}

/// The elements of an array with bit-vectors of the given width for keys.
fn elements(v: &Value, width: usize, n: u128) -> Vec<Value> {
    (0..n).map(|i| run(&Op::Select, &[v.clone(), bv(i, width)]).unwrap()).collect()
}

fn check_elements(v: &Value, width: usize, expected: &[i128]) {
    let got = elements(v, width, expected.len() as u128);
    for i in 0..expected.len() {
        assert!(got[i].same(&num(expected[i])), "{:?} for {}", got[i], expected[i]);
    }
}

#[test]
fn tuples_and_their_fields() {
    let t = run(&Op::Tuple, &[num(1), Value::Bool(true)]).unwrap();
    is(run(&Op::Field(0), &[t.clone()]), num(1));
    is(run(&Op::Field(1), &[t.clone()]), Value::Bool(true));
    assert!(run(&Op::Field(2), &[t.clone()]).is_none());
    assert!(run(&Op::Field(0), &[num(1)]).is_none());
    let u = run(&Op::Update(0), &[t.clone(), num(5)]).unwrap();
    is(run(&Op::Field(0), &[u.clone()]), num(5));
    is(run(&Op::Field(1), &[u]), Value::Bool(true));
    // the new value has the sort of the old one
    assert!(run(&Op::Update(0), &[t.clone(), Value::Bool(true)]).is_none());
    assert!(run(&Op::Update(2), &[t.clone(), num(5)]).is_none());
    assert!(run(&Op::Update(0), &[t]).is_none());
    is(run(&Op::Tuple, &[]), Value::Tuple(vec![]));
}

#[test]
fn arrays_of_elements() {
    let a = ints(2, &[10, 11, 12]);
    check_elements(&a, 2, &[10, 11, 12, 0]);
    match &a {
        Value::Array(x) => assert_eq!(x.size(), 3),
        _ => unreachable!(),
    }
    let op = Op::Array(Box::new(ArrayOp { key: Sort::BitVector(2), val: Sort::Int }));
    assert!(run(&op, &[num(1), Value::Bool(true)]).is_none());
    let no_keys = Op::Array(Box::new(ArrayOp { key: Sort::Int, val: Sort::Int }));
    assert!(run(&no_keys, &[num(1)]).is_none());
    let empty_field = Op::Array(Box::new(ArrayOp {
        key: Sort::Bool,
        val: Sort::Field(FieldT::IntField(BigNat::zero())),
    }));
    assert!(run(&empty_field, &[]).is_none());
}

#[test]
fn more_elements_than_keys() {
    let a = ints(1, &[10, 11, 12]);
    check_elements(&a, 1, &[10, 11]);
    match &a {
        Value::Array(x) => {
            assert_eq!(x.size(), 3);
            assert_eq!(x.index_count(), Some(2));
        }
        _ => unreachable!(),
    }
}

#[test]
fn arrays_with_other_keys() {
    let by_bool = Op::Array(Box::new(ArrayOp { key: Sort::Bool, val: Sort::Int }));
    let a = run(&by_bool, &[num(7), num(8)]).unwrap();
    is(run(&Op::Select, &[a.clone(), Value::Bool(false)]), num(7));
    is(run(&Op::Select, &[a, Value::Bool(true)]), num(8));
    let f = FieldT::IntField(BigNat::from_u128(5));
    let by_field =
        Op::Array(Box::new(ArrayOp { key: Sort::Field(f.clone()), val: Sort::Int }));
    let a = run(&by_field, &[num(7), num(8), num(9)]).unwrap();
    let key = |n: i128| Value::Field(f.new_v(&BigInt::from_i128(n)));
    is(run(&Op::Select, &[a.clone(), key(2)]), num(9));
    is(run(&Op::Select, &[a, key(3)]), num(0));
}

#[test]
fn stores_and_selects() {
    let a = ints(2, &[10, 11, 12]);
    let b = run(&Op::Store, &[a.clone(), bv(1, 2), num(99)]).unwrap();
    check_elements(&b, 2, &[10, 99, 12, 0]);
    let c = run(&Op::Store, &[b.clone(), bv(3, 2), num(5)]).unwrap();
    check_elements(&c, 2, &[10, 99, 12, 5]);
    // storing again replaces
    let d = run(&Op::Store, &[c, bv(3, 2), num(6)]).unwrap();
    check_elements(&d, 2, &[10, 99, 12, 6]);
    // keys and values have the sorts that the array holds
    assert!(run(&Op::Store, &[a.clone(), bv(1, 3), num(99)]).is_none());
    assert!(run(&Op::Store, &[a.clone(), bv(1, 2), Value::Bool(true)]).is_none());
    assert!(run(&Op::Select, &[a.clone(), bv(1, 3)]).is_none());
    assert!(run(&Op::Select, &[num(1), bv(1, 2)]).is_none());
    assert!(run(&Op::Store, &[a, bv(1, 2)]).is_none());
}

#[test]
fn the_order_of_stores_to_different_keys_does_not_matter() {
    let a = ints(2, &[]);
    let one = run(&Op::Store, &[a.clone(), bv(1, 2), num(4)]).unwrap();
    let two = run(&Op::Store, &[a, bv(0, 2), num(3)]).unwrap();
    let left = run(&Op::Store, &[one, bv(0, 2), num(3)]).unwrap();
    let right = run(&Op::Store, &[two, bv(1, 2), num(4)]).unwrap();
    assert!(left.same(&right));
}

#[test]
fn conditional_stores() {
    let a = ints(2, &[10, 11]);
    let store = run(&Op::Store, &[a.clone(), bv(0, 2), num(1)]).unwrap();
    is(run(&Op::CStore, &[a.clone(), bv(0, 2), num(1), Value::Bool(true)]), store);
    is(run(&Op::CStore, &[a.clone(), bv(0, 2), num(1), Value::Bool(false)]), a.clone());
    assert!(run(&Op::CStore, &[a.clone(), bv(0, 2), num(1)]).is_none());
    // what is not stored is not checked
    is(run(&Op::CStore, &[a.clone(), bv(0, 3), num(1), Value::Bool(false)]), a.clone());
    assert!(run(&Op::CStore, &[a, bv(0, 3), num(1), Value::Bool(true)]).is_none());
}

#[test]
fn filled_arrays() {
    let op = Op::Fill(Box::new(FillOp { key_sort: Sort::BitVector(2), size: 3 }));
    let a = run(&op, &[num(6)]).unwrap();
    check_elements(&a, 2, &[6, 6, 6, 6]);
    assert!(run(&op, &[]).is_none());
}

#[test]
fn operators_mapped_over_arrays() {
    let a = ints(2, &[1, 2, 3]);
    let b = ints(2, &[10, 20, 30]);
    let op = Op::ArrayMap(Box::new(Op::IntNaryOp(IntNaryOp::Add)));
    let c = run(&op, &[a.clone(), b.clone()]).unwrap();
    check_elements(&c, 2, &[11, 22, 33, 0]);
    // the arrays have the same keys and the same size
    assert!(run(&op, &[a.clone(), ints(2, &[1, 2])]).is_none());
    assert!(run(&op, &[a.clone(), ints(3, &[1, 2, 3])]).is_none());
    assert!(run(&op, &[a.clone(), num(1)]).is_none());
    assert!(run(&op, &[]).is_none());
    // the operator takes their elements
    let not_ints = Op::ArrayMap(Box::new(Op::BvNaryOp(BvNaryOp::Add)));
    assert!(run(&not_ints, &[a.clone(), b.clone()]).is_none());
    // and gives values of its own sort
    let eq = Op::ArrayMap(Box::new(Op::Eq));
    let e = run(&eq, &[a, ints(2, &[1, 0, 3])]).unwrap();
    let got = elements(&e, 2, 4);
    let expected = [true, false, true, false];
    for i in 0..4 {
        assert!(got[i].same(&Value::Bool(expected[i])));
    }
}

#[test]
fn maps_within_maps() {
    let inner = Sort::BitVector(1);
    let row = |x: i128, y: i128| {
        let op = Op::Array(Box::new(ArrayOp { key: inner.clone(), val: Sort::Int }));
        run(&op, &[num(x), num(y)]).unwrap()
    };
    let rows = |a: Value, b: Value| {
        let val = a.sort();
        let op = Op::Array(Box::new(ArrayOp { key: Sort::BitVector(1), val }));
        run(&op, &[a, b]).unwrap()
    };
    let a = rows(row(1, 2), row(3, 4));
    let b = rows(row(10, 20), row(30, 40));
    let add = Op::IntNaryOp(IntNaryOp::Add);
    let op = Op::ArrayMap(Box::new(Op::ArrayMap(Box::new(add))));
    is(run(&op, &[a, b]), rows(row(11, 22), row(33, 44)));
}

#[test]
fn a_map_fails_where_one_element_does() {
    let a = ints(1, &[6, 7]);
    let b = ints(1, &[3, 0]);
    let op = Op::ArrayMap(Box::new(Op::IntBinOp(circ_eval::op::IntBinOp::Div)));
    assert!(run(&op, &[a.clone(), b]).is_none());
    let q = run(&op, &[a, ints(1, &[3, 7])]).unwrap();
    check_elements(&q, 1, &[2, 1]);
}

#[test]
fn rotations() {
    let a = ints(2, &[10, 11, 12]);
    check_elements(&run(&Op::Rot(0), &[a.clone()]).unwrap(), 2, &[10, 11, 12]);
    check_elements(&run(&Op::Rot(1), &[a.clone()]).unwrap(), 2, &[12, 10, 11]);
    check_elements(&run(&Op::Rot(2), &[a.clone()]).unwrap(), 2, &[11, 12, 10]);
    check_elements(&run(&Op::Rot(4), &[a.clone()]).unwrap(), 2, &[12, 10, 11]);
    check_elements(&run(&Op::Rot(usize::MAX), &[a.clone()]).unwrap(), 2, &[10, 11, 12]);
    let twice = run(&Op::Rot(1), &[run(&Op::Rot(1), &[a.clone()]).unwrap()]).unwrap();
    is(run(&Op::Rot(2), &[a.clone()]), twice);
    assert!(run(&Op::Rot(1), &[num(1)]).is_none());
    // no elements, and keys that are no bit-vectors
    assert!(run(&Op::Rot(1), &[ints(2, &[])]).is_none());
    let by_bool = Op::Array(Box::new(ArrayOp { key: Sort::Bool, val: Sort::Int }));
    let b = run(&by_bool, &[num(1), num(2)]).unwrap();
    assert!(run(&Op::Rot(1), &[b]).is_none());
}

#[test]
fn rotations_of_arrays_with_more_elements_than_keys() {
    let a = ints(1, &[10, 11, 12]);
    assert!(run(&Op::Rot(1), &[a.clone()]).is_none());
    check_elements(&run(&Op::Rot(3), &[a]).unwrap(), 1, &[10, 11]);
}

#[test]
fn a_rotation_forgets_the_default() {
    let a = Value::Array(Array::fill(Sort::BitVector(2), num(9), 2));
    check_elements(&a, 2, &[9, 9, 9, 9]);
    check_elements(&run(&Op::Rot(1), &[a]).unwrap(), 2, &[9, 9, 0, 0]);
}
