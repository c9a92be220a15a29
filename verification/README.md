# circ_eval

An interpreter for the terms of a circuit IR, verified with Verus.

Terms are operators applied to terms. Their values are booleans, bit-vectors,
integers, elements of prime fields, tuples and arrays. Evaluating a term takes
the values of variables, and a cache of values of terms if there is one.

    let mut tbl = TermTable::new();
    let var = Var { name: "x".to_string(), sort: Sort::Int };
    let x = tbl.term(Op::Var(Box::new(var)), vec![]);
    let t = tbl.term(Op::IntNaryOp(IntNaryOp::Add), vec![x, x]);
    let v = eval(&tbl, t, &env, FieldToBv::Wrap);

## Layout

- `semantics` says what each operator gives on its arguments: `op_result`, which
  is nothing where the operator does not accept them. `check` says which sorts an
  operator takes, and the sort of what it gives: `op_sort`.
- `eval` evaluates one operator, with the help of `scalar`, `compound`, `calls`
  and `challenge`. `interp` evaluates terms, with an explicit stack and a cache.
  Each function comes in two forms: `eval_op` and `eval` ask that there is a
  value, `try_eval_op` and `try_eval` return nothing where there is none.
- Challenges are drawn by a rule of this library, `challenge_value`: bytes of a
  generator that the hash of the name seeds, taken as a number. They are not the
  elements that `random_v` of the crate `circ_fields` draws.
- `value`, `sort`, `bv` and `field` are the values and their sorts. The integers
  under them, of any size, are in `bigint` and `bignat`. `primes` and `bls_prime`
  prove that the scalars of BLS12-381 are a prime field.
- `outside` holds the hash functions and the generator that come from other
  crates. What is stated there is not proved.
- The files whose names end in `_laws`, and `typing`, prove what holds of
  operators together and of evaluation as a whole: that a cache with right values
  changes nothing, that operators keep values well-formed and give values of the
  sort that sort checking foretells, that a select undoes a store, and so on.
