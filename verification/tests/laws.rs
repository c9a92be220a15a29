use circ_eval::bigint::BigInt;
use circ_eval::bignat::{BigNat, Rank};
use circ_eval::bv::BitVector;
use circ_eval::calls::eval_call;
use circ_eval::challenge::challenge_from_hash;
use circ_eval::env::Env;
use circ_eval::eval::try_eval_op;
use circ_eval::field::FieldT;
use circ_eval::interp::eval;
use circ_eval::op::{
    ArrayOp, BvBinOp, BvNaryOp, BvUnOp, FieldToBv, FillOp, IntBinOp, IntNaryOp, Op, PfNaryOp,
    PfUnOp, Var,
};
use circ_eval::sort::Sort;
use circ_eval::term::TermTable;
use circ_eval::value::Value;

fn run(op: &Op, args: &[Value]) -> Option<Value> {
    let refs: Vec<&Value> = args.iter().collect();
    try_eval_op(op, &refs, &Env::new(), FieldToBv::Wrap)
}

fn get(op: &Op, args: &[Value]) -> Value {
    run(op, args).unwrap()
}

fn bv(n: u128, width: usize) -> Value {
    Value::BitVector(BitVector::wrap(&BigNat::from_u128(n), width))
}

fn num(n: i128) -> Value {
    Value::Int(BigInt::from_i128(n))
}

fn pf(n: i128) -> Value {
    let f = FieldT::IntField(BigNat::from_u128(101));
    Value::Field(f.new_v(&BigInt::from_i128(n)))
}

#[test]
fn variables_that_are_not_read_change_nothing() {
    let var = |name: &str| {
        Op::Var(Box::new(Var { name: name.to_string(), sort: Sort::Int }))
    };
    let mut tbl = TermTable::new();
    let x = tbl.term(var("x"), vec![]);
    let t = tbl.term(Op::IntNaryOp(IntNaryOp::Mul), vec![x, x]);
    let mut one = Env::new();
    one.insert("x".to_string(), num(9));
    let mut two = Env::new();
    two.insert("x".to_string(), num(9));
    two.insert("y".to_string(), num(5));
    let mode = FieldToBv::Wrap;
    assert!(eval(&tbl, t, &one, mode).same(&eval(&tbl, t, &two, mode)));
}

#[test]
fn values_have_the_sorts_that_are_foretold() {
    let array = get(
        &Op::Array(Box::new(ArrayOp { key: Sort::BitVector(2), val: Sort::Int })),
        &[num(1), num(2)],
    );
    let cases: Vec<(Op, Vec<Value>)> = vec![
        (Op::Not, vec![Value::Bool(true)]),
        (Op::Ite, vec![Value::Bool(true), num(1), num(2)]),
        (Op::BvConcat, vec![bv(1, 3), bv(2, 4), bv(0, 1)]),
        (Op::BvExtract(3, 1), vec![bv(9, 4)]),
        (Op::BvSext(3), vec![bv(9, 4)]),
        (Op::BvNaryOp(BvNaryOp::Mul), vec![bv(9, 4), bv(3, 4)]),
        (Op::PfNaryOp(PfNaryOp::Add), vec![pf(9), pf(4)]),
        (Op::PfUnOp(PfUnOp::Recip), vec![pf(9)]),
        (Op::PfToBv(3), vec![pf(9)]),
        (Op::IntBinOp(IntBinOp::Div), vec![num(9), num(2)]),
        (Op::IntSize, vec![num(9)]),
        (Op::Tuple, vec![num(9), bv(1, 1)]),
        (Op::Select, vec![array.clone(), bv(0, 2)]),
        (Op::Store, vec![array.clone(), bv(3, 2), num(8)]),
        (
            Op::Fill(Box::new(FillOp { key_sort: Sort::Bool, size: 2 })),
            vec![pf(1)],
        ),
        (Op::ArrayMap(Box::new(Op::Eq)), vec![array.clone(), array.clone()]),
        (Op::Rot(1), vec![array]),
    ];
    for (op, args) in cases {
        let sorts: Vec<Sort> = args.iter().map(|a| a.sort()).collect();
        let sort = op.sort_of(&sorts).unwrap();
        assert!(get(&op, &args).sort().same(&sort), "{:?}", op);
    }
}

#[test]
fn bit_vectors_fit_their_widths() {
    let bound = BigNat::from_u128(16);
    let shifts = [BvBinOp::Shl, BvBinOp::Ashr, BvBinOp::Lshr];
    let others = [BvBinOp::Sub, BvBinOp::Udiv, BvBinOp::Urem];
    for o in shifts.into_iter().chain(others) {
        for a in 0..16 {
            for b in 0..16 {
                let Value::BitVector(r) = get(&Op::BvBinOp(o), &[bv(a, 4), bv(b, 4)]) else {
                    panic!("not a bit-vector");
                };
                assert_eq!(r.width(), 4);
                assert!(matches!(r.uint().compare(&bound), Rank::Below));
            }
        }
    }
}

#[test]
fn the_opposite_is_the_complement_plus_one() {
    for a in 0..16 {
        let neg = get(&Op::BvUnOp(BvUnOp::Neg), &[bv(a, 4)]);
        let not = get(&Op::BvUnOp(BvUnOp::Not), &[bv(a, 4)]);
        assert!(neg.same(&get(&Op::BvNaryOp(BvNaryOp::Add), &[not, bv(1, 4)])));
    }
}

#[test]
fn a_difference_is_the_sum_with_the_opposite() {
    for a in 0..8 {
        for b in 0..8 {
            let sub = get(&Op::BvBinOp(BvBinOp::Sub), &[bv(a, 3), bv(b, 3)]);
            let neg = get(&Op::BvUnOp(BvUnOp::Neg), &[bv(b, 3)]);
            assert!(sub.same(&get(&Op::BvNaryOp(BvNaryOp::Add), &[bv(a, 3), neg])));
        }
    }
}

#[test]
fn quotients_and_remainders_add_up() {
    for a in 0..16 {
        for b in 1..16 {
            let q = get(&Op::BvBinOp(BvBinOp::Udiv), &[bv(a, 4), bv(b, 4)]);
            let r = get(&Op::BvBinOp(BvBinOp::Urem), &[bv(a, 4), bv(b, 4)]);
            let qb = get(&Op::BvNaryOp(BvNaryOp::Mul), &[q, bv(b, 4)]);
            assert!(get(&Op::BvNaryOp(BvNaryOp::Add), &[qb, r]).same(&bv(a, 4)));
        }
    }
}

#[test]
fn bitwise_operators_go_bit_by_bit() {
    let (a, b) = (0b1100_1010, 0b1010_0110);
    for (o, f) in [
        (BvNaryOp::And, (|x, y| x && y) as fn(bool, bool) -> bool),
        (BvNaryOp::Or, |x, y| x || y),
        (BvNaryOp::Xor, |x, y| x != y),
    ] {
        let r = get(&Op::BvNaryOp(o), &[bv(a, 8), bv(b, 8)]);
        for i in 0..8 {
            let expected = f(a >> i & 1 == 1, b >> i & 1 == 1);
            assert!(get(&Op::BvBit(i), &[r.clone()]).same(&Value::Bool(expected)));
        }
    }
}

#[test]
fn field_sums_are_a_matter_of_parts_only() {
    let add = Op::PfNaryOp(PfNaryOp::Add);
    let left = get(&add, &[get(&add, &[pf(90), pf(80)]), pf(70)]);
    let right = get(&add, &[pf(70), get(&add, &[pf(80), pf(90)])]);
    assert!(left.same(&right));
    assert!(left.same(&get(&add, &[pf(90), pf(80), pf(70)])));
    assert!(get(&add, &[pf(90), pf(0)]).same(&pf(90)));
    let neg = get(&Op::PfUnOp(PfUnOp::Neg), &[pf(90)]);
    assert!(get(&add, &[pf(90), neg]).same(&pf(0)));
}

#[test]
fn the_square_plus_itself_is_a_product() {
    for n in 0..101 {
        let x = pf(n);
        let direct = eval_call(&"PlonkMul2".to_string(), &[&x]).unwrap();
        let next = get(&Op::PfNaryOp(PfNaryOp::Add), &[x.clone(), pf(1)]);
        assert!(direct.same(&get(&Op::PfNaryOp(PfNaryOp::Mul), &[x, next])));
    }
}

#[test]
fn challenges_lie_in_their_fields() {
    let p = BigNat::from_u128(7);
    let field = FieldT::IntField(p.clone());
    for hash in 0..50 {
        let c = challenge_from_hash(hash, &field);
        assert!(c.ty().same(&field));
        assert!(matches!(c.i().compare(&p), Rank::Below));
    }
}

#[test]
fn integer_quotients_and_remainders_add_up() {
    for a in -7..8 {
        for b in [-3, -2, 2, 3] {
            let q = get(&Op::IntBinOp(IntBinOp::Div), &[num(a), num(b)]);
            let r = get(&Op::IntBinOp(IntBinOp::Rem), &[num(a), num(b)]);
            let qb = get(&Op::IntNaryOp(IntNaryOp::Mul), &[q, num(b)]);
            assert!(get(&Op::IntNaryOp(IntNaryOp::Add), &[qb, r]).same(&num(a)));
        }
    }
}
