//! An interpreter for the terms of a circuit IR.
//!
//! Terms are operators applied to terms. Their values are booleans, bit-vectors, integers,
//! elements of prime fields, tuples and arrays. [`interp`] evaluates terms, and [`eval`] one
//! operator on its arguments; what each operator gives is laid down in [`semantics`], and on
//! which sorts in [`check`].

// natural numbers and integers of any size
pub mod bigint;
pub mod bignat;
pub mod bits;
pub mod bytes;
pub mod limbs;
pub mod modular;
pub mod primes;

// values and sorts
pub mod bls_prime;
pub mod bv;
pub mod field;
pub mod sort;
pub mod value;

// operators and terms
pub mod check;
pub mod env;
pub mod op;
pub mod semantics;
pub mod term;

// evaluation
pub mod args;
pub mod calls;
pub mod challenge;
pub mod compound;
pub mod eval;
pub mod interp;
pub mod outside;
pub mod scalar;

// what holds of the operators and of evaluation as a whole
pub mod array_laws;
pub mod bool_laws;
pub mod bv_laws;
pub mod call_laws;
pub mod digit_laws;
pub mod hash_laws;
pub mod int_laws;
pub mod leaf_laws;
pub mod number_laws;
pub mod pf_laws;
pub mod sort_laws;
pub mod store_laws;
pub mod term_laws;
pub mod typing;
pub mod wf_laws;
