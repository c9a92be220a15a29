use circ_eval::env::Env;
use circ_eval::eval::{eval_op, try_eval_op};
use circ_eval::op::{BoolNaryOp, FieldToBv, Op, Var};
use circ_eval::sort::Sort;
use circ_eval::value::Value;

fn run(op: &Op, args: &[Value]) -> Option<Value> {
    let refs: Vec<&Value> = args.iter().collect();
    try_eval_op(op, &refs, &Env::new(), FieldToBv::Wrap)
}

fn truth(op: &Op, args: &[Value]) -> Option<bool> {
    match run(op, args) {
        Some(Value::Bool(b)) => Some(b),
        Some(other) => panic!("not a boolean: {:?}", other),
        None => None,
    }
}

fn bools(bits: &[bool]) -> Vec<Value> {
    bits.iter().map(|b| Value::Bool(*b)).collect()
}

#[test]
fn negation() {
    assert_eq!(truth(&Op::Not, &bools(&[true])), Some(false));
    assert_eq!(truth(&Op::Not, &bools(&[false])), Some(true));
    assert_eq!(truth(&Op::Not, &[]), None);
    assert_eq!(truth(&Op::Not, &[Value::Tuple(vec![])]), None);
}

#[test]
fn implication_looks_at_the_second_part_only_if_it_must() {
    for a in [false, true] {
        for b in [false, true] {
            assert_eq!(truth(&Op::Implies, &bools(&[a, b])), Some(!a || b));
        }
    }
    assert_eq!(truth(&Op::Implies, &bools(&[false])), Some(true));
    assert_eq!(truth(&Op::Implies, &bools(&[true])), None);
}

#[test]
fn implication_is_a_disjunction() {
    let or = Op::BoolNaryOp(BoolNaryOp::Or);
    for a in [false, true] {
        for b in [false, true] {
            assert_eq!(truth(&Op::Implies, &bools(&[a, b])), truth(&or, &bools(&[!a, b])));
        }
    }
}

#[test]
fn disjunction_of_any_number() {
    let or = Op::BoolNaryOp(BoolNaryOp::Or);
    assert_eq!(truth(&or, &[]), Some(false));
    assert_eq!(truth(&or, &bools(&[false, false])), Some(false));
    assert_eq!(truth(&or, &bools(&[false, true, false])), Some(true));
    // what comes after the first true part is not looked at
    assert_eq!(truth(&or, &[Value::Bool(true), Value::Tuple(vec![])]), Some(true));
    assert_eq!(truth(&or, &[Value::Bool(false), Value::Tuple(vec![])]), None);
}

#[test]
fn conjunction_of_any_number() {
    let and = Op::BoolNaryOp(BoolNaryOp::And);
    assert_eq!(truth(&and, &[]), Some(true));
    assert_eq!(truth(&and, &bools(&[true, true])), Some(true));
    assert_eq!(truth(&and, &bools(&[true, false, true])), Some(false));
    assert_eq!(truth(&and, &[Value::Bool(false), Value::Tuple(vec![])]), Some(false));
    assert_eq!(truth(&and, &[Value::Bool(true), Value::Tuple(vec![])]), None);
}

#[test]
fn exclusive_disjunction_is_parity() {
    let xor = Op::BoolNaryOp(BoolNaryOp::Xor);
    assert_eq!(truth(&xor, &[]), Some(false));
    assert_eq!(truth(&xor, &bools(&[true])), Some(true));
    assert_eq!(truth(&xor, &bools(&[true, true, false])), Some(false));
    assert_eq!(truth(&xor, &bools(&[true, true, true])), Some(true));
    assert_eq!(truth(&xor, &[Value::Bool(true), Value::Tuple(vec![])]), None);
}

#[test]
fn majority_of_three() {
    for n in 0..8u8 {
        let bits = [n & 1 == 1, n & 2 == 2, n & 4 == 4];
        assert_eq!(truth(&Op::BoolMaj, &bools(&bits)), Some(n.count_ones() > 1));
    }
    assert_eq!(truth(&Op::BoolMaj, &bools(&[true, true])), None);
}

#[test]
fn choice_needs_only_the_chosen_branch() {
    let a = Value::Tuple(vec![Value::Bool(true)]);
    let b = Value::Tuple(vec![]);
    let chosen = run(&Op::Ite, &[Value::Bool(true), a.clone(), b.clone()]).unwrap();
    assert!(chosen.same(&a));
    let chosen = run(&Op::Ite, &[Value::Bool(false), a.clone(), b.clone()]).unwrap();
    assert!(chosen.same(&b));
    assert!(run(&Op::Ite, &[Value::Bool(true), a.clone()]).is_some());
    assert!(run(&Op::Ite, &[Value::Bool(false), a]).is_none());
}

#[test]
fn equality_of_values() {
    let a = Value::Tuple(vec![Value::Bool(true)]);
    let b = Value::Tuple(vec![Value::Bool(false)]);
    assert_eq!(truth(&Op::Eq, &[a.clone(), a.clone()]), Some(true));
    assert_eq!(truth(&Op::Eq, &[a.clone(), b]), Some(false));
    assert_eq!(truth(&Op::Eq, &[a.clone(), Value::Bool(true)]), Some(false));
    assert_eq!(truth(&Op::Eq, &[a]), None);
}

#[test]
fn variables_come_from_the_environment() {
    let op = Op::Var(Box::new(Var { name: "x".to_string(), sort: Sort::Bool }));
    let mut env = Env::new();
    assert!(try_eval_op(&op, &[], &env, FieldToBv::Wrap).is_none());
    env.insert("x".to_string(), Value::Bool(false));
    env.insert("x".to_string(), Value::Bool(true));
    env.insert("y".to_string(), Value::Bool(false));
    let v = eval_op(&op, &[], &env, FieldToBv::Wrap);
    assert!(v.same(&Value::Bool(true)));
}

#[test]
fn constants_and_witnesses() {
    let v = Value::Tuple(vec![Value::Bool(true)]);
    assert!(run(&Op::Const(Box::new(v.clone())), &[]).unwrap().same(&v));
    assert!(run(&Op::Witness("w".to_string()), &[v.clone()]).unwrap().same(&v));
    assert!(run(&Op::Witness("w".to_string()), &[]).is_none());
}
