use circ_eval::bignat::BigNat;
use circ_eval::bv::BitVector;
use circ_eval::env::Env;
use circ_eval::eval::try_eval_op;
use circ_eval::op::{BvBinOp, BvBinPred, BvNaryOp, BvUnOp, FieldToBv, Op};
use circ_eval::value::Value;

fn run(op: &Op, args: &[Value]) -> Option<Value> {
    let refs: Vec<&Value> = args.iter().collect();
    try_eval_op(op, &refs, &Env::new(), FieldToBv::Wrap)
}

fn bv(n: u128, width: usize) -> Value {
    Value::BitVector(BitVector::wrap(&BigNat::from_u128(n), width))
}

/// The number and the width of a bit-vector.
fn parts(v: Option<Value>) -> Option<(usize, usize)> {
    match v {
        Some(Value::BitVector(b)) => Some((b.uint().to_usize().unwrap(), b.width())),
        Some(other) => panic!("not a bit-vector: {:?}", other),
        None => None,
    }
}

fn truth(v: Option<Value>) -> Option<bool> {
    match v {
        Some(Value::Bool(b)) => Some(b),
        Some(other) => panic!("not a boolean: {:?}", other),
        None => None,
    }
}

fn two(o: BvBinOp, a: Value, b: Value) -> Option<(usize, usize)> {
    parts(run(&Op::BvBinOp(o), &[a, b]))
}

#[test]
fn differences_wrap() {
    assert_eq!(two(BvBinOp::Sub, bv(9, 4), bv(4, 4)), Some((5, 4)));
    assert_eq!(two(BvBinOp::Sub, bv(4, 4), bv(9, 4)), Some((11, 4)));
    assert_eq!(two(BvBinOp::Sub, bv(4, 4), bv(9, 5)), None);
    assert_eq!(two(BvBinOp::Sub, bv(4, 4), Value::Bool(true)), None);
}

#[test]
fn division_and_remainder() {
    assert_eq!(two(BvBinOp::Udiv, bv(13, 4), bv(4, 4)), Some((3, 4)));
    assert_eq!(two(BvBinOp::Urem, bv(13, 4), bv(4, 4)), Some((1, 4)));
    assert_eq!(two(BvBinOp::Udiv, bv(13, 4), bv(0, 4)), Some((15, 4)));
    assert_eq!(two(BvBinOp::Urem, bv(13, 4), bv(0, 4)), Some((13, 4)));
}

#[test]
fn shifts() {
    assert_eq!(two(BvBinOp::Shl, bv(0b1011, 4), bv(1, 4)), Some((0b0110, 4)));
    assert_eq!(two(BvBinOp::Shl, bv(0b1011, 4), bv(9, 4)), Some((0, 4)));
    assert_eq!(two(BvBinOp::Lshr, bv(0b1011, 4), bv(1, 4)), Some((0b0101, 4)));
    assert_eq!(two(BvBinOp::Lshr, bv(0b1011, 4), bv(9, 4)), Some((0, 4)));
    assert_eq!(two(BvBinOp::Ashr, bv(0b1011, 4), bv(1, 4)), Some((0b1101, 4)));
    assert_eq!(two(BvBinOp::Ashr, bv(0b1011, 4), bv(9, 4)), Some((0b1111, 4)));
    assert_eq!(two(BvBinOp::Ashr, bv(0b0111, 4), bv(1, 4)), Some((0b0011, 4)));
    assert_eq!(two(BvBinOp::Ashr, bv(0b0111, 4), bv(9, 4)), Some((0, 4)));
}

#[test]
fn complement_and_opposite() {
    assert_eq!(parts(run(&Op::BvUnOp(BvUnOp::Not), &[bv(0b1010, 4)])), Some((0b0101, 4)));
    assert_eq!(parts(run(&Op::BvUnOp(BvUnOp::Neg), &[bv(3, 4)])), Some((13, 4)));
    assert_eq!(parts(run(&Op::BvUnOp(BvUnOp::Neg), &[bv(0, 4)])), Some((0, 4)));
    assert_eq!(parts(run(&Op::BvUnOp(BvUnOp::Not), &[])), None);
}

#[test]
fn complement_twice_gives_the_bit_vector_back() {
    let not = Op::BvUnOp(BvUnOp::Not);
    let once = run(&not, &[bv(0xa5, 8)]).unwrap();
    assert_eq!(parts(run(&not, &[once])), Some((0xa5, 8)));
}

#[test]
fn a_bit_vector_and_its_opposite_add_up_to_zero() {
    let neg = run(&Op::BvUnOp(BvUnOp::Neg), &[bv(0x37, 8)]).unwrap();
    assert_eq!(parts(run(&Op::BvNaryOp(BvNaryOp::Add), &[bv(0x37, 8), neg])), Some((0, 8)));
}

#[test]
fn operators_on_several_bit_vectors() {
    let args = [bv(0b1100, 4), bv(0b1010, 4), bv(0b0111, 4)];
    let get = |o: BvNaryOp| parts(run(&Op::BvNaryOp(o), &args));
    assert_eq!(get(BvNaryOp::And), Some((0b0000, 4)));
    assert_eq!(get(BvNaryOp::Or), Some((0b1111, 4)));
    assert_eq!(get(BvNaryOp::Xor), Some((0b0001, 4)));
    assert_eq!(get(BvNaryOp::Add), Some(((12 + 10 + 7) % 16, 4)));
    assert_eq!(get(BvNaryOp::Mul), Some(((12 * 10 * 7) % 16, 4)));
    let add = Op::BvNaryOp(BvNaryOp::Add);
    assert_eq!(parts(run(&add, &[bv(5, 4)])), Some((5, 4)));
    assert_eq!(parts(run(&add, &[])), None);
    assert_eq!(parts(run(&add, &[bv(5, 4), bv(5, 5)])), None);
    assert_eq!(parts(run(&add, &[bv(5, 4), Value::Bool(true)])), None);
    assert_eq!(parts(run(&add, &[Value::Bool(true), bv(5, 4)])), None);
}

#[test]
fn bits_of_a_bit_vector() {
    let bits: Vec<Option<bool>> =
        (0..6).map(|i| truth(run(&Op::BvBit(i), &[bv(0b1010, 4)]))).collect();
    let expected = [false, true, false, true, false, false];
    for i in 0..6 {
        assert_eq!(bits[i], Some(expected[i]));
    }
    // an index counts by its low 32 bits
    assert_eq!(truth(run(&Op::BvBit(0x1_0000_0001), &[bv(0b1010, 4)])), Some(true));
    assert_eq!(truth(run(&Op::BvBit(0), &[])), None);
}

#[test]
fn concatenation_and_extraction() {
    let all = run(&Op::BvConcat, &[bv(0b10, 2), bv(0b011, 3), bv(0b1, 1)]);
    assert_eq!(parts(all.clone()), Some((0b100111, 6)));
    let all = all.unwrap();
    assert_eq!(parts(run(&Op::BvExtract(5, 4), &[all.clone()])), Some((0b10, 2)));
    assert_eq!(parts(run(&Op::BvExtract(3, 1), &[all.clone()])), Some((0b011, 3)));
    assert_eq!(parts(run(&Op::BvExtract(0, 0), &[all.clone()])), Some((0b1, 1)));
    assert_eq!(parts(run(&Op::BvExtract(6, 0), &[all.clone()])), None);
    assert_eq!(parts(run(&Op::BvExtract(1, 2), &[all])), None);
    assert_eq!(parts(run(&Op::BvConcat, &[])), None);
    assert_eq!(parts(run(&Op::BvConcat, &[bv(1, 1), Value::Bool(true)])), None);
}

#[test]
fn extensions() {
    assert_eq!(parts(run(&Op::BvSext(3), &[bv(0b101, 3)])), Some((0b111101, 6)));
    assert_eq!(parts(run(&Op::BvSext(3), &[bv(0b011, 3)])), Some((0b000011, 6)));
    assert_eq!(parts(run(&Op::BvSext(0), &[bv(0b101, 3)])), Some((0b101, 3)));
    assert_eq!(parts(run(&Op::BvUext(3), &[bv(0b101, 3)])), Some((0b000101, 6)));
    assert_eq!(parts(run(&Op::BvSext(1), &[bv(0, 0)])), None);
    assert_eq!(parts(run(&Op::BvUext(1), &[bv(0, 0)])), Some((0, 1)));
    assert_eq!(parts(run(&Op::BvSext(usize::MAX), &[bv(1, 1)])), None);
    assert_eq!(parts(run(&Op::BvUext(usize::MAX), &[bv(1, 1)])), None);
}

#[test]
fn sign_extension_by_many_digits() {
    // only the low 32 bits of the number of digits count for what is filled with the sign
    let many: usize = 0x1_0000_0000;
    assert_eq!(parts(run(&Op::BvSext(many), &[bv(0b101, 3)])), Some((0b101, many + 3)));
    assert_eq!(parts(run(&Op::BvSext(many + 2), &[bv(0b101, 3)])), Some((0b11101, many + 5)));
    assert_eq!(parts(run(&Op::BvSext(many + 2), &[bv(0b011, 3)])), Some((0b011, many + 5)));
    // so do those of the width
    let wide = run(&Op::BvUext(many), &[bv(0b101, 3)]).unwrap();
    assert_eq!(parts(run(&Op::BvSext(2), &[wide])), Some((0b11101, many + 5)));
    let flat = run(&Op::BvUext(many), &[bv(0, 0)]).unwrap();
    assert_eq!(parts(run(&Op::BvSext(2), &[flat])), None);
}

#[test]
fn sign_extension_keeps_the_signed_value() {
    for n in 0..8u128 {
        let Value::BitVector(a) = bv(n, 3) else { panic!() };
        let Some(Value::BitVector(b)) = run(&Op::BvSext(5), &[bv(n, 3)]) else { panic!() };
        assert!(matches!(
            a.as_sint().compare(&b.as_sint()),
            circ_eval::bignat::Rank::Same
        ));
    }
}

#[test]
fn unsigned_and_signed_comparisons() {
    let pred = |o: BvBinPred, a: u128, b: u128| {
        truth(run(&Op::BvBinPred(o), &[bv(a, 4), bv(b, 4)]))
    };
    // as signed numbers: 15 is -1, 8 is -8
    for (a, b) in [(3, 5), (5, 3), (4, 4), (15, 1), (1, 15), (8, 15), (15, 8)] {
        let s = |x: u128| if x >= 8 { x as i128 - 16 } else { x as i128 };
        assert_eq!(pred(BvBinPred::Ult, a, b), Some(a < b));
        assert_eq!(pred(BvBinPred::Ugt, a, b), Some(a > b));
        assert_eq!(pred(BvBinPred::Ule, a, b), Some(a <= b));
        assert_eq!(pred(BvBinPred::Uge, a, b), Some(a >= b));
        assert_eq!(pred(BvBinPred::Slt, a, b), Some(s(a) < s(b)));
        assert_eq!(pred(BvBinPred::Sgt, a, b), Some(s(a) > s(b)));
        assert_eq!(pred(BvBinPred::Sle, a, b), Some(s(a) <= s(b)));
        assert_eq!(pred(BvBinPred::Sge, a, b), Some(s(a) >= s(b)));
    }
    assert_eq!(truth(run(&Op::BvBinPred(BvBinPred::Ult), &[bv(1, 4)])), None);
}

#[test]
fn a_boolean_as_a_bit_vector() {
    for b in [false, true] {
        let v = run(&Op::BoolToBv, &[Value::Bool(b)]);
        assert_eq!(parts(v.clone()), Some((b as usize, 1)));
        assert_eq!(truth(run(&Op::BvBit(0), &[v.unwrap()])), Some(b));
    }
}

#[test]
fn wide_bit_vectors() {
    // 2^128 - 1 squared, modulo 2^128
    let ones = bv(u128::MAX, 128);
    let sq = run(&Op::BvNaryOp(BvNaryOp::Mul), &[ones.clone(), ones.clone()]).unwrap();
    assert!(sq.same(&bv(1, 128)));
    let high = run(&Op::BvConcat, &[ones.clone(), bv(0, 128)]).unwrap();
    let back = run(&Op::BvExtract(255, 128), &[high]).unwrap();
    assert!(back.same(&ones));
}
