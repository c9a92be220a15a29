//! Operators on booleans, bit-vectors, integers and field elements.

use crate::args::{arg_views, nth_bool, nth_bv, nth_int, nth_pf};
use crate::bigint::BigInt;
use crate::bignat::{BigNat, Rank};
use crate::bits::BitOp;
use crate::bv::{BitVector, BvView};
use crate::field::{FieldT, FieldV, FieldVView};
use crate::op::{
    BoolNaryOp, BvBinOp, BvBinPred, BvNaryOp, BvUnOp, FieldToBv, IntBinOp, IntBinPred, IntNaryOp,
    PfNaryOp, PfUnOp,
};
use crate::semantics::{
    all_hold, any_holds, bool_nary, bv_binary_result, bv_compare, bv_nary, bv_nary_step, bv_unary,
    concat_all, implies_result, int_binary_result, int_bits, int_compare, int_nary, int_nary_step,
    int_size, majority, odd_hold, pf_bits, pf_nary, pf_nary_step, pf_of_int, pf_quotient, pf_unary,
};
use crate::value::{Value, ValueView};
use vstd::arithmetic::power2::lemma2_to64;
use vstd::prelude::*;

verus! {

/// The view of a bit-vector that may be missing.
pub open spec fn bv_option(r: Option<BitVector>) -> Option<BvView> {
    match r {
        Some(b) => Some(b@),
        None => None,
    }
}

/// The value of a boolean operator on any number of arguments.
pub fn eval_bool_nary(o: BoolNaryOp, args: &[&Value]) -> (r: Option<bool>)
    ensures
        r == bool_nary(o, arg_views(args@)),
{
    match o {
        BoolNaryOp::Or => eval_any(args),
        BoolNaryOp::And => eval_all(args),
        BoolNaryOp::Xor => eval_odd(args),
    }
}

/// Whether some argument holds.
fn eval_any(args: &[&Value]) -> (r: Option<bool>)
    ensures
        r == any_holds(arg_views(args@)),
{
    let ghost s = arg_views(args@);
    let mut i: usize = 0;
    assert(s.skip(0) =~= s);
    while i < args.len()
        invariant
            s == arg_views(args@),
            i <= s.len(),
            any_holds(s) == any_holds(s.skip(i as int)),
        decreases s.len() - i,
    {
        proof {
            assert(s.skip(i as int)[0] == s[i as int]);
            assert(s.skip(i as int).drop_first() =~= s.skip(i + 1));
        }
        match nth_bool(args, i) {
            Some(true) => {
                return Some(true);
            },
            Some(false) => {},
            None => {
                return None;
            },
        }
        i = i + 1;
    }
    Some(false)
}

/// Whether every argument holds.
fn eval_all(args: &[&Value]) -> (r: Option<bool>)
    ensures
        r == all_hold(arg_views(args@)),
{
    let ghost s = arg_views(args@);
    let mut i: usize = 0;
    assert(s.skip(0) =~= s);
    while i < args.len()
        invariant
            s == arg_views(args@),
            i <= s.len(),
            all_hold(s) == all_hold(s.skip(i as int)),
        decreases s.len() - i,
    {
        proof {
            assert(s.skip(i as int)[0] == s[i as int]);
            assert(s.skip(i as int).drop_first() =~= s.skip(i + 1));
        }
        match nth_bool(args, i) {
            Some(false) => {
                return Some(false);
            },
            Some(true) => {},
            None => {
                return None;
            },
        }
        i = i + 1;
    }
    Some(true)
}

/// Whether an odd number of the arguments holds.
fn eval_odd(args: &[&Value]) -> (r: Option<bool>)
    ensures
        r == odd_hold(arg_views(args@)),
{
    let ghost s = arg_views(args@);
    let mut odd: bool = false;
    let mut i: usize = 0;
    while i < args.len()
        invariant
            s == arg_views(args@),
            i <= s.len(),
            odd_hold(s.take(i as int)) == Some(odd),
        decreases s.len() - i,
    {
        proof {
            assert(s.take(i + 1).last() == s[i as int]);
            assert(s.take(i + 1).drop_last() =~= s.take(i as int));
        }
        match nth_bool(args, i) {
            Some(b) => {
                odd = odd != b;
            },
            None => {
                proof {
                    lemma_odd_prefix(s, i + 1);
                }
                return None;
            },
        }
        i = i + 1;
    }
    assert(s.take(i as int) =~= s);
    Some(odd)
}

/// Where the first few arguments have no parity, all of them have none.
proof fn lemma_odd_prefix(s: Seq<ValueView>, n: int)
    requires
        0 <= n <= s.len(),
        odd_hold(s.take(n)) is None,
    ensures
        odd_hold(s) is None,
    decreases s.len(),
{
    if n == s.len() {
        assert(s.take(n) =~= s);
    } else {
        assert(s.drop_last().take(n) =~= s.take(n));
        lemma_odd_prefix(s.drop_last(), n);
    }
}

/// Implication.
pub fn eval_implies(args: &[&Value]) -> (r: Option<bool>)
    ensures
        r == implies_result(arg_views(args@)),
{
    match nth_bool(args, 0) {
        Some(true) => nth_bool(args, 1),
        Some(false) => Some(true),
        None => None,
    }
}

/// Whether at least two of the first three arguments hold.
pub fn eval_majority(args: &[&Value]) -> (r: Option<bool>)
    ensures
        r == majority(arg_views(args@)),
{
    match (nth_bool(args, 0), nth_bool(args, 1), nth_bool(args, 2)) {
        (Some(a), Some(b), Some(c)) => Some((a && b) || (a && c) || (b && c)),
        _ => None,
    }
}

/// Bit-vectors laid side by side.
pub fn eval_concat(args: &[&Value]) -> (r: Option<BitVector>)
    ensures
        bv_option(r) == concat_all(arg_views(args@)),
{
    let ghost s = arg_views(args@);
    let mut acc: BitVector = match nth_bv(args, 0) {
        Some(b) => b.clone(),
        None => {
            proof {
                assert(s.len() > 0 ==> s.take(1)[0] == s[0]);
                lemma_concat_prefix(s, if s.len() > 0 { 1 } else { 0 });
            }
            return None;
        },
    };
    let mut i: usize = 1;
    assert(s.take(1)[0] == s[0]);
    while i < args.len()
        invariant
            s == arg_views(args@),
            1 <= i <= s.len(),
            concat_all(s.take(i as int)) == Some(acc@),
        decreases s.len() - i,
    {
        proof {
            assert(s.take(i + 1).last() == s[i as int]);
            assert(s.take(i + 1).drop_last() =~= s.take(i as int));
        }
        match nth_bv(args, i) {
            Some(b) => match acc.width().checked_add(b.width()) {
                Some(_) => {
                    acc = acc.concat(b);
                },
                None => {
                    proof {
                        lemma_concat_prefix(s, i + 1);
                    }
                    return None;
                },
            },
            None => {
                proof {
                    lemma_concat_prefix(s, i + 1);
                }
                return None;
            },
        }
        i = i + 1;
    }
    assert(s.take(i as int) =~= s);
    Some(acc)
}

/// Where the first few arguments cannot be laid side by side, nor can all of them.
proof fn lemma_concat_prefix(s: Seq<ValueView>, n: int)
    requires
        0 <= n <= s.len(),
        n == 0 ==> s.len() == 0,
        concat_all(s.take(n)) is None,
    ensures
        concat_all(s) is None,
    decreases s.len(),
{
    if n == s.len() {
        assert(s.take(n) =~= s);
    } else {
        assert(s.drop_last().take(n) =~= s.take(n));
        lemma_concat_prefix(s.drop_last(), n);
    }
}

/// The value of an operator on two bit-vectors of one width.
pub fn eval_bv_binary(o: BvBinOp, args: &[&Value]) -> (r: Option<BitVector>)
    ensures
        bv_option(r) == bv_binary_result(o, arg_views(args@)),
{
    match (nth_bv(args, 0), nth_bv(args, 1)) {
        (Some(a), Some(b)) => {
            if a.width() != b.width() {
                return None;
            }
            Some(
                match o {
                    BvBinOp::Sub => a.minus(b),
                    BvBinOp::Udiv => a.udiv(b),
                    BvBinOp::Urem => a.urem(b),
                    BvBinOp::Shl => a.shl(b),
                    BvBinOp::Ashr => a.ashr(b),
                    BvBinOp::Lshr => a.lshr(b),
                },
            )
        },
        _ => None,
    }
}

/// The value of an operator on one bit-vector.
pub fn eval_bv_unary(o: BvUnOp, a: &BitVector) -> (r: BitVector)
    ensures
        r@ == bv_unary(o, a@),
{
    match o {
        BvUnOp::Not => a.complement(),
        BvUnOp::Neg => a.negate(),
    }
}

/// One step of an operator on any number of bit-vectors.
fn eval_bv_step(o: BvNaryOp, a: &BitVector, b: &BitVector) -> (r: BitVector)
    requires
        a@.width == b@.width,
    ensures
        r@ == bv_nary_step(o, a@, b@),
        r@.width == a@.width,
{
    match o {
        BvNaryOp::Add => a.plus(b),
        BvNaryOp::Mul => a.times(b),
        BvNaryOp::Or => a.bitwise(BitOp::Or, b),
        BvNaryOp::And => a.bitwise(BitOp::And, b),
        BvNaryOp::Xor => a.bitwise(BitOp::Xor, b),
    }
}

/// The value of an operator on one or more bit-vectors of one width.
pub fn eval_bv_nary(o: BvNaryOp, args: &[&Value]) -> (r: Option<BitVector>)
    ensures
        bv_option(r) == bv_nary(o, arg_views(args@)),
{
    let ghost s = arg_views(args@);
    let mut acc: BitVector = match nth_bv(args, 0) {
        Some(b) => b.clone(),
        None => {
            proof {
                assert(s.len() > 0 ==> s.take(1)[0] == s[0]);
                lemma_bv_prefix(o, s, if s.len() > 0 { 1 } else { 0 });
            }
            return None;
        },
    };
    let mut i: usize = 1;
    assert(s.take(1)[0] == s[0]);
    while i < args.len()
        invariant
            s == arg_views(args@),
            1 <= i <= s.len(),
            bv_nary(o, s.take(i as int)) == Some(acc@),
        decreases s.len() - i,
    {
        proof {
            assert(s.take(i + 1).last() == s[i as int]);
            assert(s.take(i + 1).drop_last() =~= s.take(i as int));
        }
        match nth_bv(args, i) {
            Some(b) => {
                if acc.width() != b.width() {
                    proof {
                        lemma_bv_prefix(o, s, i + 1);
                    }
                    return None;
                }
                acc = eval_bv_step(o, &acc, b);
            },
            None => {
                proof {
                    lemma_bv_prefix(o, s, i + 1);
                }
                return None;
            },
        }
        i = i + 1;
    }
    assert(s.take(i as int) =~= s);
    Some(acc)
}

/// Where the operator has no value on the first few arguments, it has none on all of them.
proof fn lemma_bv_prefix(o: BvNaryOp, s: Seq<ValueView>, n: int)
    requires
        0 <= n <= s.len(),
        n == 0 ==> s.len() == 0,
        bv_nary(o, s.take(n)) is None,
    ensures
        bv_nary(o, s) is None,
    decreases s.len(),
{
    if n == s.len() {
        assert(s.take(n) =~= s);
    } else {
        assert(s.drop_last().take(n) =~= s.take(n));
        lemma_bv_prefix(o, s.drop_last(), n);
    }
}

/// A comparison of two bit-vectors.
pub fn eval_bv_compare(o: BvBinPred, a: &BitVector, b: &BitVector) -> (r: bool)
    ensures
        r == bv_compare(o, a@, b@),
{
    let rank: Rank = match o {
        BvBinPred::Ult | BvBinPred::Ugt | BvBinPred::Ule | BvBinPred::Uge => a.uint().compare(
            b.uint(),
        ),
        _ => a.as_sint().compare(&b.as_sint()),
    };
    match (o, rank) {
        (BvBinPred::Ult, Rank::Below) | (BvBinPred::Slt, Rank::Below) => true,
        (BvBinPred::Ugt, Rank::Above) | (BvBinPred::Sgt, Rank::Above) => true,
        (BvBinPred::Ule, Rank::Below) | (BvBinPred::Ule, Rank::Same) => true,
        (BvBinPred::Sle, Rank::Below) | (BvBinPred::Sle, Rank::Same) => true,
        (BvBinPred::Uge, Rank::Above) | (BvBinPred::Uge, Rank::Same) => true,
        (BvBinPred::Sge, Rank::Above) | (BvBinPred::Sge, Rank::Same) => true,
        _ => false,
    }
}

/// The view of a field element that may be missing.
pub open spec fn pf_option(r: Option<FieldV>) -> Option<FieldVView> {
    match r {
        Some(f) => Some(f@),
        None => None,
    }
}

/// The value of an operator on one field element.
pub fn eval_pf_unary(o: PfUnOp, a: &FieldV) -> (r: Option<FieldV>)
    ensures
        pf_option(r) == pf_unary(o, a@),
{
    match o {
        PfUnOp::Neg => Some(a.negate()),
        PfUnOp::Recip => if a.is_zero() {
            Some(a.clone())
        } else {
            a.recip()
        },
    }
}

/// The quotient of the first two arguments.
pub fn eval_pf_quotient(args: &[&Value]) -> (r: Option<FieldV>)
    ensures
        pf_option(r) == pf_quotient(arg_views(args@)),
{
    match (nth_pf(args, 0), nth_pf(args, 1)) {
        (Some(a), Some(b)) => match b.recip() {
            Some(w) => if a.ty().same(b.ty()) {
                Some(a.times(&w))
            } else {
                None
            },
            None => None,
        },
        _ => None,
    }
}

/// One step of an operator on any number of field elements.
fn eval_pf_step(o: PfNaryOp, a: &FieldV, b: &FieldV) -> (r: FieldV)
    ensures
        r@ == pf_nary_step(o, a@, b@),
{
    match o {
        PfNaryOp::Add => a.plus(b),
        PfNaryOp::Mul => a.times(b),
    }
}

/// The value of an operator on one or more elements of one field.
pub fn eval_pf_nary(o: PfNaryOp, args: &[&Value]) -> (r: Option<FieldV>)
    ensures
        pf_option(r) == pf_nary(o, arg_views(args@)),
{
    let ghost s = arg_views(args@);
    let mut acc: FieldV = match nth_pf(args, 0) {
        Some(f) => f.clone(),
        None => {
            proof {
                assert(s.len() > 0 ==> s.take(1)[0] == s[0]);
                lemma_pf_prefix(o, s, if s.len() > 0 { 1 } else { 0 });
            }
            return None;
        },
    };
    let mut i: usize = 1;
    assert(s.take(1)[0] == s[0]);
    while i < args.len()
        invariant
            s == arg_views(args@),
            1 <= i <= s.len(),
            pf_nary(o, s.take(i as int)) == Some(acc@),
        decreases s.len() - i,
    {
        proof {
            assert(s.take(i + 1).last() == s[i as int]);
            assert(s.take(i + 1).drop_last() =~= s.take(i as int));
        }
        match nth_pf(args, i) {
            Some(b) => {
                if !acc.ty().same(b.ty()) {
                    proof {
                        lemma_pf_prefix(o, s, i + 1);
                    }
                    return None;
                }
                acc = eval_pf_step(o, &acc, b);
            },
            None => {
                proof {
                    lemma_pf_prefix(o, s, i + 1);
                }
                return None;
            },
        }
        i = i + 1;
    }
    assert(s.take(i as int) =~= s);
    Some(acc)
}

/// Where the operator has no value on the first few arguments, it has none on all of them.
proof fn lemma_pf_prefix(o: PfNaryOp, s: Seq<ValueView>, n: int)
    requires
        0 <= n <= s.len(),
        n == 0 ==> s.len() == 0,
        pf_nary(o, s.take(n)) is None,
    ensures
        pf_nary(o, s) is None,
    decreases s.len(),
{
    if n == s.len() {
        assert(s.take(n) =~= s);
    } else {
        assert(s.drop_last().take(n) =~= s.take(n));
        lemma_pf_prefix(o, s.drop_last(), n);
    }
}

/// The bit-vector of width `w` for a field element.
pub fn eval_pf_bits(mode: FieldToBv, w: usize, a: &FieldV) -> (r: Option<BitVector>)
    ensures
        bv_option(r) == pf_bits(mode, w as nat, a@),
{
    if mode == FieldToBv::Panic && a.i().significant_bits() > w as u128 {
        None
    } else {
        Some(BitVector::wrap(a.i(), w))
    }
}

/// The element of the field `f` for an integer, where the field has elements.
pub fn eval_pf_of_int(f: &FieldT, n: &BigInt) -> (r: Option<FieldV>)
    ensures
        pf_option(r) == pf_of_int(f@, Some(n@)),
{
    if f.modulus().is_zero() {
        None
    } else {
        Some(f.new_v(n))
    }
}

/// Whether a natural number is at most one.
pub fn at_most_one(n: &BigNat) -> (r: bool)
    ensures
        r == (n@ <= 1),
{
    match n.compare(&BigNat::from_u128(1)) {
        Rank::Above => false,
        _ => true,
    }
}

/// The view of an integer that may be missing.
pub open spec fn int_option(r: Option<BigInt>) -> Option<int> {
    match r {
        Some(n) => Some(n@),
        None => None,
    }
}

/// One step of an operator on any number of integers.
fn eval_int_step(o: IntNaryOp, a: &BigInt, b: &BigInt) -> (r: BigInt)
    ensures
        r@ == int_nary_step(o, a@, b@),
{
    match o {
        IntNaryOp::Add => a.plus(b),
        IntNaryOp::Mul => a.times(b),
    }
}

/// The value of an operator on one or more integers.
pub fn eval_int_nary(o: IntNaryOp, args: &[&Value]) -> (r: Option<BigInt>)
    ensures
        int_option(r) == int_nary(o, arg_views(args@)),
{
    let ghost s = arg_views(args@);
    let mut acc: BigInt = match nth_int(args, 0) {
        Some(n) => n.clone(),
        None => {
            proof {
                assert(s.len() > 0 ==> s.take(1)[0] == s[0]);
                lemma_int_prefix(o, s, if s.len() > 0 { 1 } else { 0 });
            }
            return None;
        },
    };
    let mut i: usize = 1;
    assert(s.take(1)[0] == s[0]);
    while i < args.len()
        invariant
            s == arg_views(args@),
            1 <= i <= s.len(),
            int_nary(o, s.take(i as int)) == Some(acc@),
        decreases s.len() - i,
    {
        proof {
            assert(s.take(i + 1).last() == s[i as int]);
            assert(s.take(i + 1).drop_last() =~= s.take(i as int));
        }
        match nth_int(args, i) {
            Some(b) => {
                acc = eval_int_step(o, &acc, b);
            },
            None => {
                proof {
                    lemma_int_prefix(o, s, i + 1);
                }
                return None;
            },
        }
        i = i + 1;
    }
    assert(s.take(i as int) =~= s);
    Some(acc)
}

/// Where the operator has no value on the first few arguments, it has none on all of them.
proof fn lemma_int_prefix(o: IntNaryOp, s: Seq<ValueView>, n: int)
    requires
        0 <= n <= s.len(),
        n == 0 ==> s.len() == 0,
        int_nary(o, s.take(n)) is None,
    ensures
        int_nary(o, s) is None,
    decreases s.len(),
{
    if n == s.len() {
        assert(s.take(n) =~= s);
    } else {
        assert(s.drop_last().take(n) =~= s.take(n));
        lemma_int_prefix(o, s.drop_last(), n);
    }
}

/// The value of an operator on two integers.
pub fn eval_int_binary(o: IntBinOp, args: &[&Value]) -> (r: Option<BigInt>)
    ensures
        int_option(r) == int_binary_result(o, arg_views(args@)),
{
    match (nth_int(args, 0), nth_int(args, 1)) {
        (Some(a), Some(b)) => match o {
            IntBinOp::Sub => Some(a.minus(b)),
            IntBinOp::Div => if b.is_zero() {
                None
            } else {
                Some(a.quotient(b))
            },
            IntBinOp::Rem => if b.is_zero() {
                None
            } else {
                Some(a.remainder(b))
            },
            IntBinOp::ModInv => match a.invert(b.abs()) {
                Some(w) => Some(BigInt::from_nat(w)),
                None => None,
            },
        },
        _ => None,
    }
}

/// A comparison of two integers.
pub fn eval_int_compare(o: IntBinPred, a: &BigInt, b: &BigInt) -> (r: bool)
    ensures
        r == int_compare(o, a@, b@),
{
    match (o, a.compare(b)) {
        (IntBinPred::Lt, Rank::Below) | (IntBinPred::Gt, Rank::Above) => true,
        (IntBinPred::Le, Rank::Below) | (IntBinPred::Le, Rank::Same) => true,
        (IntBinPred::Ge, Rank::Above) | (IntBinPred::Ge, Rank::Same) => true,
        _ => false,
    }
}

/// How many bits an integer has, as a bit-vector of width 32.
pub fn eval_int_size(n: &BigInt) -> (r: Option<BitVector>)
    ensures
        bv_option(r) == int_size(n@),
{
    proof {
        lemma2_to64();
    }
    BitVector::new(BigNat::from_u128(n.significant_bits()), 32)
}

/// An integer as a bit-vector of width `w`, where it fits.
pub fn eval_int_bits(w: usize, n: &BigInt) -> (r: Option<BitVector>)
    ensures
        bv_option(r) == int_bits(w as nat, n@),
{
    if n.is_negative() {
        None
    } else {
        BitVector::new(n.abs().clone(), w)
    }
}

} // verus!
