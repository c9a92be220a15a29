use circ_eval::bigint::BigInt;
use circ_eval::bignat::BigNat;
use circ_eval::bv::BitVector;
use circ_eval::env::Env;
use circ_eval::eval::try_eval_op;
use circ_eval::field::FieldT;
use circ_eval::op::{
    FieldToBv, IntBinOp, IntBinPred, IntNaryOp, IntUnOp, Op, PfNaryOp, PfUnOp,
};
use circ_eval::value::Value;

fn run_with(op: &Op, args: &[Value], mode: FieldToBv) -> Option<Value> {
    let refs: Vec<&Value> = args.iter().collect();
    try_eval_op(op, &refs, &Env::new(), mode)
}

fn run(op: &Op, args: &[Value]) -> Option<Value> {
    run_with(op, args, FieldToBv::Wrap)
}

fn f(p: u128) -> FieldT {
    FieldT::IntField(BigNat::from_u128(p))
}

fn pf(n: i128, p: u128) -> Value {
    Value::Field(f(p).new_v(&BigInt::from_i128(n)))
}

fn num(n: i128) -> Value {
    Value::Int(BigInt::from_i128(n))
}

fn bv(n: u128, width: usize) -> Value {
    Value::BitVector(BitVector::wrap(&BigNat::from_u128(n), width))
}

fn is(v: Option<Value>, expected: Value) {
    assert!(v.as_ref().is_some_and(|x| x.same(&expected)), "{:?} for {:?}", v, expected);
}

#[test]
fn field_sums_and_products() {
    let add = Op::PfNaryOp(PfNaryOp::Add);
    let mul = Op::PfNaryOp(PfNaryOp::Mul);
    is(run(&add, &[pf(60, 101), pf(50, 101), pf(1, 101)]), pf(10, 101));
    is(run(&mul, &[pf(60, 101), pf(50, 101)]), pf(3000, 101));
    is(run(&mul, &[pf(7, 101)]), pf(7, 101));
    assert!(run(&add, &[]).is_none());
    assert!(run(&add, &[pf(1, 101), pf(1, 103)]).is_none());
    assert!(run(&add, &[pf(1, 101), num(1)]).is_none());
    assert!(run(&add, &[num(1), pf(1, 101)]).is_none());
}

#[test]
fn field_products_distribute_over_sums() {
    let add = Op::PfNaryOp(PfNaryOp::Add);
    let mul = Op::PfNaryOp(PfNaryOp::Mul);
    let (a, b, c) = (pf(33, 101), pf(71, 101), pf(90, 101));
    let left = run(&mul, &[a.clone(), run(&add, &[b.clone(), c.clone()]).unwrap()]);
    let ab = run(&mul, &[a.clone(), b]).unwrap();
    let ac = run(&mul, &[a, c]).unwrap();
    is(left, run(&add, &[ab, ac]).unwrap());
}

#[test]
fn field_opposites_and_reciprocals() {
    let neg = Op::PfUnOp(PfUnOp::Neg);
    let recip = Op::PfUnOp(PfUnOp::Recip);
    is(run(&neg, &[pf(3, 101)]), pf(98, 101));
    is(run(&neg, &[pf(0, 101)]), pf(0, 101));
    is(run(&recip, &[pf(0, 101)]), pf(0, 101));
    is(run(&recip, &[pf(2, 101)]), pf(51, 101));
    for n in 1..101 {
        let w = run(&recip, &[pf(n, 101)]).unwrap();
        is(run(&Op::PfNaryOp(PfNaryOp::Mul), &[pf(n, 101), w]), pf(1, 101));
    }
    // no inverse where the modulus is not prime
    assert!(run(&recip, &[pf(6, 15)]).is_none());
}

#[test]
fn field_quotients() {
    is(run(&Op::PfDiv, &[pf(7, 101), pf(2, 101)]), pf(54, 101));
    assert!(run(&Op::PfDiv, &[pf(7, 101), pf(0, 101)]).is_none());
    assert!(run(&Op::PfDiv, &[pf(7, 103), pf(2, 101)]).is_none());
    let q = run(&Op::PfDiv, &[pf(77, 101), pf(19, 101)]).unwrap();
    is(run(&Op::PfNaryOp(PfNaryOp::Mul), &[q, pf(19, 101)]), pf(77, 101));
}

#[test]
fn inverses_in_the_scalar_field_of_bls12_381() {
    let ty = FieldT::FBls12381;
    let one = Value::Field(ty.new_v(&BigInt::from_i128(1)));
    for n in [1i128, 2, 3, -2, -3, 906349, 254760293, i128::MAX] {
        let x = Value::Field(ty.new_v(&BigInt::from_i128(n)));
        let w = run(&Op::PfUnOp(PfUnOp::Recip), &[x.clone()]).unwrap();
        is(run(&Op::PfNaryOp(PfNaryOp::Mul), &[x.clone(), w.clone()]), one.clone());
        is(run(&Op::PfDiv, &[one.clone(), x]), w);
    }
    let zero = Value::Field(ty.new_v(&BigInt::from_i128(0)));
    is(run(&Op::PfUnOp(PfUnOp::Recip), &[zero.clone()]), zero.clone());
    assert!(run(&Op::PfDiv, &[one, zero]).is_none());
}

#[test]
fn the_scalar_field_of_bls12_381() {
    let ty = FieldT::FBls12381;
    let minus_one = Value::Field(ty.new_v(&BigInt::from_i128(-1)));
    let one = Value::Field(ty.new_v(&BigInt::from_i128(1)));
    is(run(&Op::PfNaryOp(PfNaryOp::Mul), &[minus_one.clone(), minus_one.clone()]), one.clone());
    is(run(&Op::PfUnOp(PfUnOp::Recip), &[minus_one.clone()]), minus_one.clone());
    let bytes: Vec<u8> = match &minus_one {
        Value::Field(x) => x.i().to_le_bytes(32),
        _ => unreachable!(),
    };
    let expected: [u8; 32] = [
        0x00, 0x00, 0x00, 0x00, 0xff, 0xff, 0xff, 0xff, 0xfe, 0x5b, 0xfe, 0xff, 0x02, 0xa4, 0xbd,
        0x53, 0x05, 0xd8, 0xa1, 0x09, 0x08, 0xd8, 0x39, 0x33, 0x48, 0x7d, 0x9d, 0x29, 0x53, 0xa7,
        0xed, 0x73,
    ];
    assert_eq!(bytes, expected.to_vec());
    let zero = Value::Field(ty.new_v(&BigInt::from_i128(0)));
    is(run(&Op::PfNaryOp(PfNaryOp::Add), &[minus_one, one]), zero);
}

#[test]
fn field_elements_as_bit_vectors() {
    is(run(&Op::PfToBv(4), &[pf(13, 101)]), bv(13, 4));
    is(run(&Op::PfToBv(4), &[pf(29, 101)]), bv(13, 4));
    is(run_with(&Op::PfToBv(4), &[pf(13, 101)], FieldToBv::Panic), bv(13, 4));
    assert!(run_with(&Op::PfToBv(4), &[pf(29, 101)], FieldToBv::Panic).is_none());
    assert!(run_with(&Op::PfToBv(4), &[pf(16, 101)], FieldToBv::Panic).is_none());
    is(run(&Op::UbvToPf(f(101)), &[bv(200, 8)]), pf(99, 101));
    let back = run(&Op::PfToBv(7), &[pf(99, 101)]).unwrap();
    is(run(&Op::UbvToPf(f(101)), &[back]), pf(99, 101));
    assert!(run(&Op::UbvToPf(f(0)), &[bv(1, 1)]).is_none());
    assert!(run(&Op::PfToBv(4), &[num(1)]).is_none());
}

#[test]
fn field_elements_as_integers() {
    is(run(&Op::PfToInt, &[pf(99, 101)]), num(99));
    is(run(&Op::IntToPf(f(101)), &[num(-1)]), pf(100, 101));
    is(run(&Op::IntToPf(f(101)), &[num(303)]), pf(0, 101));
    assert!(run(&Op::IntToPf(f(0)), &[num(3)]).is_none());
    let n = run(&Op::PfToInt, &[pf(42, 101)]).unwrap();
    is(run(&Op::IntToPf(f(101)), &[n]), pf(42, 101));
}

#[test]
fn field_elements_as_booleans() {
    is(run(&Op::PfToBoolTrusted, &[pf(0, 101)]), Value::Bool(false));
    is(run(&Op::PfToBoolTrusted, &[pf(1, 101)]), Value::Bool(true));
    assert!(run(&Op::PfToBoolTrusted, &[pf(2, 101)]).is_none());
}

#[test]
fn field_elements_that_fit_in_bits() {
    // as a signed number, 7 takes four bits and 8 takes five
    is(run(&Op::PfFitsInBits(4), &[pf(7, 101)]), Value::Bool(true));
    is(run(&Op::PfFitsInBits(4), &[pf(8, 101)]), Value::Bool(false));
    is(run(&Op::PfFitsInBits(1), &[pf(0, 101)]), Value::Bool(true));
    is(run(&Op::PfFitsInBits(0), &[pf(0, 101)]), Value::Bool(false));
    is(run(&Op::PfFitsInBits(0x1_0000_0000), &[pf(0, 101)]), Value::Bool(false));
}

#[test]
fn integer_sums_and_products() {
    let add = Op::IntNaryOp(IntNaryOp::Add);
    let mul = Op::IntNaryOp(IntNaryOp::Mul);
    is(run(&add, &[num(5), num(-7), num(-1)]), num(-3));
    is(run(&mul, &[num(5), num(-7)]), num(-35));
    is(run(&mul, &[num(5)]), num(5));
    assert!(run(&mul, &[]).is_none());
    assert!(run(&mul, &[num(1), Value::Bool(true)]).is_none());
    is(run(&Op::IntUnOp(IntUnOp::Neg), &[num(5)]), num(-5));
    is(run(&Op::IntBinOp(IntBinOp::Sub), &[num(5), num(7)]), num(-2));
}

#[test]
fn integer_division_rounds_towards_zero() {
    let div = |a: i128, b: i128| run(&Op::IntBinOp(IntBinOp::Div), &[num(a), num(b)]);
    let rem = |a: i128, b: i128| run(&Op::IntBinOp(IntBinOp::Rem), &[num(a), num(b)]);
    for (a, b) in [(7, 2), (-7, 2), (7, -2), (-7, -2), (6, 3), (0, 5)] {
        is(div(a, b), num(a / b));
        is(rem(a, b), num(a % b));
    }
    assert!(div(1, 0).is_none());
    assert!(rem(1, 0).is_none());
}

#[test]
fn division_of_large_integers() {
    let square = BigInt::from_i128(i128::MAX).times(&BigInt::from_i128(i128::MAX));
    let big = Value::Int(square.plus(&BigInt::from_i128(5)));
    is(run(&Op::IntBinOp(IntBinOp::Div), &[big.clone(), num(i128::MAX)]), num(i128::MAX));
    is(run(&Op::IntBinOp(IntBinOp::Rem), &[big, num(i128::MAX)]), num(5));
}

#[test]
fn modular_inverses() {
    let inv = |a: i128, b: i128| run(&Op::IntBinOp(IntBinOp::ModInv), &[num(a), num(b)]);
    is(inv(3, 7), num(5));
    is(inv(-3, 7), num(2));
    is(inv(3, -7), num(5));
    is(inv(3, 1), num(0));
    assert!(inv(6, 9).is_none());
    assert!(inv(3, 0).is_none());
}

#[test]
fn integer_comparisons() {
    for (a, b) in [(-3, 2), (2, -3), (2, 2), (-5, -4)] {
        let pred = |o: IntBinPred| run(&Op::IntBinPred(o), &[num(a), num(b)]);
        is(pred(IntBinPred::Lt), Value::Bool(a < b));
        is(pred(IntBinPred::Gt), Value::Bool(a > b));
        is(pred(IntBinPred::Le), Value::Bool(a <= b));
        is(pred(IntBinPred::Ge), Value::Bool(a >= b));
    }
}

#[test]
fn sizes_of_integers() {
    is(run(&Op::IntSize, &[num(0)]), bv(0, 32));
    is(run(&Op::IntSize, &[num(255)]), bv(8, 32));
    is(run(&Op::IntSize, &[num(-256)]), bv(9, 32));
}

#[test]
fn integers_as_bit_vectors() {
    is(run(&Op::IntToBv(4), &[num(15)]), bv(15, 4));
    assert!(run(&Op::IntToBv(4), &[num(16)]).is_none());
    assert!(run(&Op::IntToBv(4), &[num(-1)]).is_none());
}
