//! Arguments of operators: reading one as a value of a kind.

use crate::bigint::BigInt;
use crate::bv::BitVector;
use crate::field::FieldV;
use crate::semantics::{arg, array_arg, bool_arg, bv_arg, int_arg, pf_arg, tuple_arg};
use crate::value::{value_view, value_views, Array, Value, ValueView};
use vstd::prelude::*;

verus! {

/// The views of arguments.
pub open spec fn arg_views(args: Seq<&Value>) -> Seq<ValueView> {
    Seq::new(args.len(), |i: int| args[i]@)
}

/// The view of a value that may be missing.
pub open spec fn value_option(r: Option<Value>) -> Option<ValueView> {
    match r {
        Some(v) => Some(v@),
        None => None,
    }
}

/// The `i`-th argument.
pub fn nth<'a>(args: &[&'a Value], i: usize) -> (r: Option<&'a Value>)
    ensures
        match r {
            Some(v) => arg(arg_views(args@), i as int) == Some(v@),
            None => arg(arg_views(args@), i as int) is None,
        },
{
    if i < args.len() {
        Some(args[i])
    } else {
        None
    }
}

/// The `i`-th argument, where it is a boolean.
pub fn nth_bool(args: &[&Value], i: usize) -> (r: Option<bool>)
    ensures
        r == bool_arg(arg_views(args@), i as int),
{
    match nth(args, i) {
        Some(Value::Bool(b)) => Some(*b),
        _ => None,
    }
}

/// The `i`-th argument, where it is a bit-vector.
pub fn nth_bv<'a>(args: &[&'a Value], i: usize) -> (r: Option<&'a BitVector>)
    ensures
        match r {
            Some(b) => bv_arg(arg_views(args@), i as int) == Some(b@),
            None => bv_arg(arg_views(args@), i as int) is None,
        },
{
    match nth(args, i) {
        Some(Value::BitVector(b)) => Some(b),
        _ => None,
    }
}

/// The `i`-th argument, where it is an integer.
pub fn nth_int<'a>(args: &[&'a Value], i: usize) -> (r: Option<&'a BigInt>)
    ensures
        match r {
            Some(n) => int_arg(arg_views(args@), i as int) == Some(n@),
            None => int_arg(arg_views(args@), i as int) is None,
        },
{
    match nth(args, i) {
        Some(Value::Int(n)) => Some(n),
        _ => None,
    }
}

/// The `i`-th argument, where it is a field element.
pub fn nth_pf<'a>(args: &[&'a Value], i: usize) -> (r: Option<&'a FieldV>)
    ensures
        match r {
            Some(f) => pf_arg(arg_views(args@), i as int) == Some(f@),
            None => pf_arg(arg_views(args@), i as int) is None,
        },
{
    match nth(args, i) {
        Some(Value::Field(f)) => Some(f),
        _ => None,
    }
}

/// The `i`-th argument, where it is a tuple.
pub fn nth_tuple<'a>(args: &[&'a Value], i: usize) -> (r: Option<&'a Vec<Value>>)
    ensures
        match r {
            Some(t) => tuple_arg(arg_views(args@), i as int) == Some(value_views(t@)),
            None => tuple_arg(arg_views(args@), i as int) is None,
        },
{
    match nth(args, i) {
        Some(Value::Tuple(t)) => Some(t),
        _ => None,
    }
}

/// The `i`-th argument, where it is an array.
pub fn nth_array<'a>(args: &[&'a Value], i: usize) -> (r: Option<&'a Array>)
    ensures
        match r {
            Some(a) => array_arg(arg_views(args@), i as int) == Some(a@),
            None => array_arg(arg_views(args@), i as int) is None,
        },
{
    match nth(args, i) {
        Some(Value::Array(a)) => Some(a),
        _ => None,
    }
}

/// Copies of the first `n` arguments.
pub fn copies(args: &[&Value], n: usize) -> (r: Vec<Value>)
    requires
        n <= args@.len(),
    ensures
        value_views(r@) == arg_views(args@).take(n as int),
{
    let mut out: Vec<Value> = Vec::new();
    let mut i: usize = 0;
    while i < n
        invariant
            i <= n <= args@.len(),
            out@.len() == i,
            forall|j: int| 0 <= j < i ==> value_view(#[trigger] out@[j]) == args@[j]@,
        decreases n - i,
    {
        out.push(args[i].clone());
        i = i + 1;
    }
    assert(value_views(out@) =~= arg_views(args@).take(n as int));
    out
}

} // verus!
