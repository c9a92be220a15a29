use circ_eval::bigint::BigInt;
use circ_eval::env::Env;
use circ_eval::interp::{eval, eval_cached, eval_value, try_eval, try_eval_cached};
use circ_eval::op::{FieldToBv, IntBinOp, IntNaryOp, Op, Var};
use circ_eval::sort::Sort;
use circ_eval::term::{Term, TermMap, TermTable};
use circ_eval::value::Value;

const MODE: FieldToBv = FieldToBv::Wrap;

fn num(n: i128) -> Value {
    Value::Int(BigInt::from_i128(n))
}

fn var(name: &str) -> Op {
    Op::Var(Box::new(Var { name: name.to_string(), sort: Sort::Int }))
}

fn add() -> Op {
    Op::IntNaryOp(IntNaryOp::Add)
}

/// `x`, `y`, `x + y` and `(x + y) + (x + y)`.
fn sums(tbl: &mut TermTable) -> [Term; 4] {
    let x = tbl.term(var("x"), vec![]);
    let y = tbl.term(var("y"), vec![]);
    let s = tbl.term(add(), vec![x, y]);
    let t = tbl.term(add(), vec![s, s]);
    [x, y, s, t]
}

fn env(x: i128, y: i128) -> Env {
    let mut e = Env::new();
    e.insert("x".to_string(), num(x));
    e.insert("y".to_string(), num(y));
    e
}

#[test]
fn terms_over_variables() {
    let mut tbl = TermTable::new();
    let [x, _, s, t] = sums(&mut tbl);
    assert!(eval(&tbl, x, &env(3, 4), MODE).same(&num(3)));
    assert!(eval(&tbl, s, &env(3, 4), MODE).same(&num(7)));
    assert!(eval(&tbl, t, &env(3, 4), MODE).same(&num(14)));
    assert!(eval(&tbl, t, &env(-3, 4), MODE).same(&num(2)));
}

#[test]
fn the_cache_is_filled() {
    let mut tbl = TermTable::new();
    let [x, y, s, t] = sums(&mut tbl);
    let other = tbl.term(var("x"), vec![]);
    let mut vs: TermMap<Value> = TermMap::new();
    assert!(eval_cached(&tbl, t, &env(3, 4), MODE, &mut vs).same(&num(14)));
    for (term, expected) in [(x, 3), (y, 4), (s, 7), (t, 14)] {
        assert!(vs.get(term).unwrap().same(&num(expected)));
    }
    // what the term does not need is not evaluated
    assert!(!vs.contains_key(other));
}

#[test]
fn what_the_cache_holds_is_not_evaluated_again() {
    let mut tbl = TermTable::new();
    let [x, y, s, t] = sums(&mut tbl);
    let mut vs: TermMap<Value> = TermMap::new();
    vs.insert(s, num(100));
    // neither `x` nor `y` has a value, and neither is needed
    assert!(eval_cached(&tbl, t, &Env::new(), MODE, &mut vs).same(&num(200)));
    assert!(!vs.contains_key(x));
    assert!(!vs.contains_key(y));
    assert!(vs.get(s).unwrap().same(&num(100)));
    // the term itself comes from the cache now, in whatever environment
    assert!(eval_cached(&tbl, t, &env(1, 1), MODE, &mut vs).same(&num(200)));
}

#[test]
fn a_cache_with_right_values_changes_nothing() {
    let mut tbl = TermTable::new();
    let [_, _, s, t] = sums(&mut tbl);
    let e = env(3, 4);
    let mut vs: TermMap<Value> = TermMap::new();
    eval_cached(&tbl, s, &e, MODE, &mut vs);
    let cached = eval_cached(&tbl, t, &e, MODE, &mut vs).clone();
    assert!(cached.same(&eval(&tbl, t, &e, MODE)));
}

#[test]
fn new_terms_change_no_value() {
    let mut tbl = TermTable::new();
    let [_, _, _, t] = sums(&mut tbl);
    let before = eval(&tbl, t, &env(3, 4), MODE);
    let n = tbl.len();
    let u = tbl.term(add(), vec![t, t]);
    assert_eq!(u.place(), n);
    assert!(eval(&tbl, t, &env(3, 4), MODE).same(&before));
    assert!(eval(&tbl, u, &env(3, 4), MODE).same(&num(28)));
}

#[test]
fn terms_without_values() {
    let mut tbl = TermTable::new();
    let [x, y, s, t] = sums(&mut tbl);
    assert!(try_eval(&tbl, t, &Env::new(), MODE).is_none());
    let mut e = Env::new();
    e.insert("y".to_string(), num(4));
    let mut vs: TermMap<Value> = TermMap::new();
    assert!(try_eval_cached(&tbl, t, &e, MODE, &mut vs).is_none());
    assert!(!vs.contains_key(x));
    assert!(!vs.contains_key(s));
    assert!(!vs.contains_key(t));
    assert!(vs.get(y).map_or(true, |v| v.same(&num(4))));
    let zero = tbl.term(Op::Const(Box::new(num(0))), vec![]);
    let q = tbl.term(Op::IntBinOp(IntBinOp::Div), vec![s, zero]);
    assert!(try_eval(&tbl, q, &env(3, 4), MODE).is_none());
    assert!(try_eval(&tbl, s, &env(3, 4), MODE).is_some());
}

#[test]
fn terms_of_another_table() {
    let mut tbl = TermTable::new();
    let [_, _, _, t] = sums(&mut tbl);
    let empty = TermTable::new();
    assert!(try_eval(&empty, t, &env(3, 4), MODE).is_none());
}

#[test]
fn one_term_at_a_time() {
    let mut tbl = TermTable::new();
    let [x, y, s, _] = sums(&mut tbl);
    let mut vs: TermMap<Value> = TermMap::new();
    vs.insert(x, num(5));
    vs.insert(y, num(6));
    let v = eval_value(&tbl, &mut vs, &Env::new(), MODE, s);
    assert!(v.same(&num(11)));
    assert!(vs.get(s).unwrap().same(&num(11)));
}

#[test]
fn deep_terms() {
    // each term is twice the one before it, so a walk without a cache would not end
    let mut tbl = TermTable::new();
    let mut t = tbl.term(Op::Const(Box::new(num(1))), vec![]);
    for _ in 0..100 {
        t = tbl.term(add(), vec![t, t]);
    }
    assert!(eval(&tbl, t, &Env::new(), MODE).same(&num(1i128 << 100)));
}
