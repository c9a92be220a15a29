use circ_eval::bigint::BigInt;
use circ_eval::bignat::BigNat;
use circ_eval::bv::BitVector;
use circ_eval::field::FieldT;
use circ_eval::op::{
    ArrayOp, BoolNaryOp, BvBinOp, BvBinPred, BvNaryOp, BvUnOp, CallOp, ChallengeOp, FillOp,
    IntBinOp, IntBinPred, IntNaryOp, IntUnOp, Op, PfNaryOp, PfUnOp, Var,
};
use circ_eval::sort::{ArraySort, Sort};
use circ_eval::value::Value;

fn f() -> FieldT {
    FieldT::IntField(BigNat::from_u128(101))
}

fn pf() -> Sort {
    Sort::Field(f())
}

fn bv(w: usize) -> Sort {
    Sort::BitVector(w)
}

fn array(key: Sort, val: Sort, size: usize) -> Sort {
    Sort::Array(Box::new(ArraySort { key, val, size }))
}

fn takes(op: Op, args: Vec<Sort>, expected: Sort) {
    let got = op.sort_of(&args);
    assert!(got.as_ref().is_some_and(|s| s.same(&expected)), "{:?} on {:?}: {:?}", op, args, got);
}

fn refuses(op: Op, args: Vec<Sort>) {
    assert!(op.sort_of(&args).is_none(), "{:?} on {:?}", op, args);
}

#[test]
fn sorts_of_boolean_operators() {
    let b = || Sort::Bool;
    takes(Op::Not, vec![b()], b());
    takes(Op::Implies, vec![b(), b()], b());
    takes(Op::BoolMaj, vec![b(), b(), b()], b());
    takes(Op::BoolNaryOp(BoolNaryOp::Or), vec![b(), b(), b(), b()], b());
    takes(Op::Eq, vec![pf(), pf()], b());
    takes(Op::Ite, vec![b(), pf(), pf()], pf());
    refuses(Op::Not, vec![]);
    refuses(Op::Not, vec![Sort::Int]);
    refuses(Op::Implies, vec![b()]);
    refuses(Op::BoolNaryOp(BoolNaryOp::Or), vec![]);
    refuses(Op::Eq, vec![pf(), b()]);
    refuses(Op::Ite, vec![b(), pf(), b()]);
}

#[test]
fn sorts_of_bit_vector_operators() {
    takes(Op::BvBit(3), vec![bv(4)], Sort::Bool);
    refuses(Op::BvBit(4), vec![bv(4)]);
    takes(Op::BvConcat, vec![bv(4), bv(3)], bv(7));
    refuses(Op::BvConcat, vec![]);
    refuses(Op::BvConcat, vec![bv(usize::MAX), bv(1)]);
    refuses(Op::BvConcat, vec![bv(1), Sort::Bool]);
    takes(Op::BvExtract(2, 1), vec![bv(3)], bv(2));
    refuses(Op::BvExtract(3, 1), vec![bv(3)]);
    takes(Op::BvBinOp(BvBinOp::Shl), vec![bv(3), bv(3)], bv(3));
    refuses(Op::BvBinOp(BvBinOp::Shl), vec![bv(3), bv(4)]);
    takes(Op::BvUnOp(BvUnOp::Neg), vec![bv(3)], bv(3));
    takes(Op::BvNaryOp(BvNaryOp::Add), vec![bv(3), bv(3), bv(3)], bv(3));
    refuses(Op::BvNaryOp(BvNaryOp::Add), vec![bv(3), bv(4)]);
    takes(Op::BvBinPred(BvBinPred::Slt), vec![bv(3), bv(3)], Sort::Bool);
    takes(Op::BvSext(2), vec![bv(3)], bv(5));
    takes(Op::BvUext(2), vec![bv(3)], bv(5));
    refuses(Op::BvUext(usize::MAX), vec![bv(3)]);
    takes(Op::BoolToBv, vec![Sort::Bool], bv(1));
    takes(Op::UbvToPf(f()), vec![bv(3)], pf());
}

#[test]
fn sorts_of_field_and_integer_operators() {
    takes(Op::PfUnOp(PfUnOp::Neg), vec![pf()], pf());
    takes(Op::PfDiv, vec![pf(), pf()], pf());
    refuses(Op::PfDiv, vec![pf(), Sort::Field(FieldT::FBls12381)]);
    takes(Op::PfNaryOp(PfNaryOp::Mul), vec![pf(), pf(), pf()], pf());
    takes(Op::PfToBv(5), vec![pf()], bv(5));
    takes(Op::PfToInt, vec![pf()], Sort::Int);
    takes(Op::PfToBoolTrusted, vec![pf()], Sort::Bool);
    takes(Op::PfFitsInBits(3), vec![pf()], Sort::Bool);
    let challenge = || Op::PfChallenge(Box::new(ChallengeOp::new("c".to_string(), f())));
    takes(challenge(), vec![], pf());
    takes(challenge(), vec![pf(), pf()], pf());
    refuses(challenge(), vec![Sort::Int]);
    let number = || Sort::Int;
    takes(Op::IntNaryOp(IntNaryOp::Add), vec![number(), number()], number());
    refuses(Op::IntNaryOp(IntNaryOp::Add), vec![number(), pf()]);
    takes(Op::IntBinOp(IntBinOp::Sub), vec![number(), number()], number());
    takes(Op::IntBinPred(IntBinPred::Lt), vec![number(), number()], Sort::Bool);
    takes(Op::IntUnOp(IntUnOp::Neg), vec![number()], number());
    takes(Op::IntSize, vec![number()], bv(32));
    takes(Op::IntToBv(9), vec![number()], bv(9));
    takes(Op::IntToPf(f()), vec![number()], pf());
}

#[test]
fn sorts_of_tuples_and_arrays() {
    let a = || array(bv(2), Sort::Int, 3);
    takes(Op::Tuple, vec![pf(), bv(2)], Sort::Tuple(vec![pf(), bv(2)]));
    takes(Op::Field(1), vec![Sort::Tuple(vec![pf(), bv(2)])], bv(2));
    refuses(Op::Field(2), vec![Sort::Tuple(vec![pf(), bv(2)])]);
    let t = || Sort::Tuple(vec![pf(), bv(2)]);
    takes(Op::Update(1), vec![t(), bv(2)], t());
    refuses(Op::Update(0), vec![t(), bv(2)]);
    let op = || Op::Array(Box::new(ArrayOp { key: bv(2), val: Sort::Int }));
    takes(op(), vec![Sort::Int, Sort::Int, Sort::Int], a());
    refuses(op(), vec![Sort::Bool]);
    takes(Op::Select, vec![a(), bv(2)], Sort::Int);
    refuses(Op::Select, vec![a(), bv(3)]);
    takes(Op::Store, vec![a(), bv(2), Sort::Int], a());
    refuses(Op::Store, vec![a(), bv(2), Sort::Bool]);
    takes(Op::CStore, vec![a(), bv(2), Sort::Int, Sort::Bool], a());
    refuses(Op::CStore, vec![a(), bv(2), Sort::Int]);
    let fill = Op::Fill(Box::new(FillOp { key_sort: bv(2), size: 3 }));
    takes(fill, vec![Sort::Int], a());
    takes(Op::Rot(1), vec![a()], a());
    let eq = || Op::ArrayMap(Box::new(Op::Eq));
    takes(eq(), vec![a(), a()], array(bv(2), Sort::Bool, 3));
    refuses(eq(), vec![a(), array(bv(2), Sort::Int, 4)]);
    refuses(eq(), vec![a(), array(bv(3), Sort::Int, 3)]);
    refuses(eq(), vec![a()]);
    refuses(eq(), vec![]);
}

#[test]
fn sorts_that_operators_declare() {
    let op = || Op::Var(Box::new(Var { name: "x".to_string(), sort: pf() }));
    takes(op(), vec![], pf());
    refuses(op(), vec![pf()]);
    takes(Op::Const(Box::new(Value::Bool(true))), vec![], Sort::Bool);
    takes(Op::Witness("w".to_string()), vec![pf()], pf());
    let call = || {
        Op::UndefinedFnCall(Box::new(CallOp {
            name: "PlonkMul2".to_string(),
            arg_sorts: vec![pf()],
            ret_sort: pf(),
        }))
    };
    takes(call(), vec![pf()], pf());
    refuses(call(), vec![]);
}

#[test]
fn sorts_of_values() {
    let b = Value::BitVector(BitVector::wrap(&BigNat::from_u128(1), 7));
    assert!(b.sort().same(&bv(7)));
    let e = Value::Field(f().new_v(&BigInt::from_i128(1)));
    assert!(e.sort().same(&pf()));
    let t = Value::Tuple(vec![b, e]);
    assert!(t.sort().same(&Sort::Tuple(vec![bv(7), pf()])));
    assert!(!t.sort().same(&Sort::Tuple(vec![bv(7)])));
}

#[test]
fn defaults_of_sorts() {
    let s = Sort::Tuple(vec![Sort::Bool, bv(3), Sort::Int, pf(), array(bv(2), Sort::Bool, 3)]);
    let d = s.default_value().unwrap();
    assert!(d.sort().same(&s));
    assert!(Sort::Field(FieldT::IntField(BigNat::zero())).default_value().is_none());
}
