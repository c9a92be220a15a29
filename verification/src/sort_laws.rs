//! Which arguments sort checking accepts, told by which ones the operators take.

use crate::bool_laws::{all_bools, law_exclusive_disjunction};
use crate::check::{op_sort, parallel, total_width, uniform, value_parts};
use crate::digit_laws::{all_of_width, law_several_operands};
use crate::int_laws::{all_integers, law_integer_sums_are_there};
use crate::op::{BoolNaryOp, BvBinOp, FieldToBv, IntBinOp, Op, PfNaryOp};
use crate::pf_laws::{all_elements, law_field_sums_are_there};
use crate::semantics::{concat_all, odd_hold, op_result};
use crate::sort::SortView;
use crate::value::{value_sort, value_sorts, ValueView};
use vstd::prelude::*;

verus! {

/// The sort of each value, by itself.
proof fn lemma_sorts(args: Seq<ValueView>)
    ensures
        value_sorts(args).len() == args.len(),
        forall|i: int|
            0 <= i < args.len() ==> #[trigger] value_sorts(args)[i] == value_sort(args[i]),
{
}

/// Sorts that are one sort, once, twice or three times.
proof fn lemma_as_list(s: Seq<SortView>, x: SortView)
    ensures
        s == seq![x] <==> s.len() == 1 && s[0] == x,
        s == seq![x, x] <==> s.len() == 2 && s[0] == x && s[1] == x,
        s == seq![x, x, x] <==> s.len() == 3 && s[0] == x && s[1] == x && s[2] == x,
{
    if s.len() == 1 && s[0] == x {
        assert(s =~= seq![x]);
    }
    if s.len() == 2 && s[0] == x && s[1] == x {
        assert(s =~= seq![x, x]);
    }
    if s.len() == 3 && s[0] == x && s[1] == x && s[2] == x {
        assert(s =~= seq![x, x, x]);
    }
}

/// The exclusive disjunction is there for booleans only.
proof fn lemma_odd_hold_is_there(args: Seq<ValueView>)
    ensures
        odd_hold(args) is Some <==> all_bools(args),
    decreases args.len(),
{
    if all_bools(args) {
        law_exclusive_disjunction(args);
    } else if args.len() > 0 {
        let rest = args.drop_last();
        lemma_odd_hold_is_there(rest);
        if odd_hold(args) is Some {
            assert forall|i: int| 0 <= i < args.len() implies (#[trigger] args[i]) is Bool by {
                if i < args.len() - 1 {
                    assert(rest[i] is Bool);
                }
            }
        }
    }
}

/// Bit-vectors can be laid side by side where their sorts say so.
proof fn lemma_concat_is_there(args: Seq<ValueView>)
    ensures
        match concat_all(args) {
            Some(v) => args.len() > 0 && total_width(value_sorts(args)) == Some(v.width),
            None => args.len() == 0 || match total_width(value_sorts(args)) {
                Some(w) => w > usize::MAX && args.len() > 1,
                None => true,
            },
        },
    decreases args.len(),
{
    lemma_sorts(args);
    let s = value_sorts(args);
    if args.len() > 1 {
        let rest = args.drop_last();
        lemma_sorts(rest);
        lemma_concat_is_there(rest);
        assert(s.drop_last() =~= value_sorts(rest));
        assert(s.last() == value_sort(args.last()));
    } else if args.len() == 1 {
        assert(s.drop_last() =~= Seq::empty());
        assert(total_width(s.drop_last()) == Some(0nat));
        assert(s.last() == value_sort(args[0]));
    }
}

/// Sort checking accepts as many arguments as an operator has, and of those the ones that the
/// operator takes; where an operator looks at more than the sorts, those that another operator
/// on the same sorts takes.
#[verifier::rlimit(40)]
pub proof fn law_accepted_arguments(
    op: Op,
    args: Seq<ValueView>,
    env: Map<Seq<char>, ValueView>,
    mode: FieldToBv,
)
    ensures
        match op {
            Op::Eq => op_sort(op, value_sorts(args)) is Some <==> args.len() == 2 && value_sort(
                args[0],
            ) == value_sort(args[1]),
            Op::Ite => op_sort(op, value_sorts(args)) is Some <==> args.len() == 3 && args[0]
                is Bool && value_sort(args[1]) == value_sort(args[2]),
            Op::Not | Op::BvUnOp(_) | Op::BoolToBv | Op::IntUnOp(_) | Op::BvExtract(_, _)
            | Op::BvUext(_) | Op::Field(_) | Op::PfToInt | Op::Fill(_) | Op::Witness(_) => op_sort(
                op,
                value_sorts(args),
            ) is Some <==> args.len() == 1 && op_result(op, args, env, mode) is Some,
            Op::Implies => op_sort(op, value_sorts(args)) is Some <==> args.len() == 2 && args[0]
                is Bool && args[1] is Bool,
            Op::BoolMaj | Op::Store => op_sort(op, value_sorts(args)) is Some <==> args.len() == 3
                && op_result(op, args, env, mode) is Some,
            Op::BvBinOp(_) | Op::Select | Op::Update(_) | Op::IntBinPred(_) => op_sort(
                op,
                value_sorts(args),
            ) is Some <==> args.len() == 2 && op_result(op, args, env, mode) is Some,
            Op::CStore => op_sort(op, value_sorts(args)) is Some <==> args.len() == 4 && op_result(
                Op::Store,
                args,
                env,
                mode,
            ) is Some && args[3] is Bool,
            Op::BvBit(i) => op_sort(op, value_sorts(args)) is Some <==> args.len() == 1 && args[0]
                is BitVector && i < args[0]->BitVector_0.width,
            Op::BvBinPred(_) => op_sort(op, value_sorts(args)) is Some <==> args.len() == 2
                && op_result(Op::BvBinOp(BvBinOp::Sub), args, env, mode) is Some,
            Op::BvSext(n) => op_sort(op, value_sorts(args)) is Some <==> args.len() == 1
                && op_result(Op::BvUext(n), args, env, mode) is Some,
            Op::PfUnOp(_) | Op::PfToBv(_) | Op::PfToBoolTrusted | Op::PfFitsInBits(_) => op_sort(
                op,
                value_sorts(args),
            ) is Some <==> args.len() == 1 && op_result(Op::PfToInt, args, env, mode) is Some,
            Op::UbvToPf(_) => op_sort(op, value_sorts(args)) is Some <==> args.len() == 1 && args[0]
                is BitVector,
            Op::IntBinOp(_) => op_sort(op, value_sorts(args)) is Some <==> args.len() == 2
                && op_result(Op::IntBinOp(IntBinOp::Sub), args, env, mode) is Some,
            Op::IntSize | Op::IntToBv(_) | Op::IntToPf(_) => op_sort(op, value_sorts(args)) is Some
                <==> args.len() == 1 && args[0] is Int,
            Op::Tuple => op_sort(op, value_sorts(args)) is Some,
            Op::Rot(_) => op_sort(op, value_sorts(args)) is Some <==> args.len() == 1 && args[0]
                is Array,
            Op::Var(_) | Op::Const(_) => op_sort(op, value_sorts(args)) is Some <==> args.len()
                == 0,
            _ => true,
        },
{
    lemma_sorts(args);
    let s = value_sorts(args);
    if args.len() > 0 {
        assert(s[0] == value_sort(args[0]));
    }
    if args.len() > 1 {
        assert(s[1] == value_sort(args[1]));
    }
    if args.len() > 2 {
        assert(s[2] == value_sort(args[2]));
    }
    if args.len() > 3 {
        assert(s[3] == value_sort(args[3]));
    }
    lemma_as_list(s, SortView::Bool);
    lemma_as_list(s, SortView::Int);
    if args.len() == 0 {
        assert(s =~= Seq::empty());
    }
}

/// The same of the operators that take any number of arguments.
#[verifier::rlimit(40)]
pub proof fn law_accepted_lists(
    op: Op,
    args: Seq<ValueView>,
    env: Map<Seq<char>, ValueView>,
    mode: FieldToBv,
)
    ensures
        match op {
            Op::BoolNaryOp(_) => op_sort(op, value_sorts(args)) is Some <==> args.len() > 0
                && op_result(Op::BoolNaryOp(BoolNaryOp::Xor), args, env, mode) is Some,
            Op::BvNaryOp(_) | Op::PfNaryOp(_) | Op::IntNaryOp(_) => op_sort(op, value_sorts(args))
                is Some <==> op_result(op, args, env, mode) is Some,
            Op::BvConcat => op_sort(op, value_sorts(args)) is Some <==> op_result(
                op,
                args,
                env,
                mode,
            ) is Some && op_result(op, args, env, mode)->0->BitVector_0.width <= usize::MAX,
            Op::PfDiv => op_sort(op, value_sorts(args)) is Some <==> args.len() == 2 && op_result(
                Op::PfNaryOp(PfNaryOp::Add),
                args,
                env,
                mode,
            ) is Some,
            _ => true,
        },
{
    lemma_sorts(args);
    let s = value_sorts(args);
    match op {
        Op::BoolNaryOp(_) => {
            lemma_odd_hold_is_there(args);
            if args.len() > 0 {
                if uniform(s) && s[0] is Bool {
                    assert forall|i: int| 0 <= i < args.len() implies (#[trigger] args[i])
                        is Bool by {
                        assert(s[i] == s[0]);
                    }
                }
                if all_bools(args) {
                    assert(args[0] is Bool);
                    assert forall|i: int| 0 <= i < s.len() implies #[trigger] s[i] == s[0] by {
                        assert(args[i] is Bool);
                    }
                }
            }
        },
        Op::BvConcat => {
            lemma_concat_is_there(args);
        },
        Op::BvNaryOp(o) => {
            law_several_operands(o, args, env, mode);
            if args.len() > 0 {
                let w = args[0]->BitVector_0.width;
                if uniform(s) && s[0] is BitVector {
                    assert forall|i: int| 0 <= i < args.len() implies (#[trigger] args[i])
                        is BitVector && args[i]->BitVector_0.width == w by {
                        assert(s[i] == s[0]);
                    }
                }
                if args[0] is BitVector && all_of_width(w, args) {
                    assert forall|i: int| 0 <= i < s.len() implies #[trigger] s[i] == s[0] by {
                        assert(args[i] is BitVector);
                    }
                }
            }
        },
        Op::PfNaryOp(_) | Op::PfDiv => {
            let o = match op {
                Op::PfNaryOp(o) => o,
                _ => PfNaryOp::Add,
            };
            law_field_sums_are_there(o, args, env, mode);
            if args.len() > 0 {
                let f = args[0]->Field_0.ty;
                if uniform(s) && s[0] is Field || (args.len() == 2 && s[0] == s[1] && s[0]
                    is Field) {
                    assert forall|i: int| 0 <= i < args.len() implies (#[trigger] args[i]) is Field
                        && args[i]->Field_0.ty == f by {
                        assert(s[i] == s[0]);
                    }
                }
                if args[0] is Field && all_elements(f, args) {
                    assert forall|i: int| 0 <= i < s.len() implies #[trigger] s[i] == s[0] by {
                        assert(args[i] is Field);
                    }
                }
            }
        },
        Op::IntNaryOp(o) => {
            law_integer_sums_are_there(o, args, env, mode);
            if args.len() > 0 {
                if uniform(s) && s[0] is Int {
                    assert forall|i: int| 0 <= i < args.len() implies (#[trigger] args[i])
                        is Int by {
                        assert(s[i] == s[0]);
                    }
                }
                if all_integers(args) {
                    assert(args[0] is Int);
                    assert forall|i: int| 0 <= i < s.len() implies #[trigger] s[i] == s[0] by {
                        assert(args[i] is Int);
                    }
                }
            }
        },
        _ => {},
    }
}

/// A mapped operator is accepted on arrays of one sort of keys and one size, where the operator
/// is accepted on the values of these arrays; the sort of what it gives is an array with those
/// keys and that size, whose values have the sort of what the operator gives.
pub proof fn law_accepted_maps(inner: Op, sorts: Seq<SortView>, parts: Seq<SortView>, i: int)
    requires
        sorts.len() > 0,
        parts.len() == sorts.len(),
        forall|j: int|
            #![trigger sorts[j]]
            0 <= j < sorts.len() ==> sorts[j] is Array ==> parts[j] == *sorts[j]->Array_1,
    ensures
        op_sort(Op::ArrayMap(Box::new(inner)), sorts) is Some && 0 <= i < sorts.len() ==> sorts[i]
            is Array && *sorts[i]->Array_0 == *sorts[0]->Array_0 && sorts[i]->Array_2
            == sorts[0]->Array_2,
        (forall|j: int|
            #![trigger sorts[j]]
            0 <= j < sorts.len() ==> sorts[j] is Array && *sorts[j]->Array_0 == *sorts[0]->Array_0
                && sorts[j]->Array_2 == sorts[0]->Array_2) ==> op_sort(
            Op::ArrayMap(Box::new(inner)),
            sorts,
        ) == match op_sort(inner, parts) {
            Some(v) => Some(SortView::Array(sorts[0]->Array_0, Box::new(v), sorts[0]->Array_2)),
            None => None,
        },
{
    if parallel(sorts) {
        assert forall|j: int| 0 <= j < sorts.len() implies value_parts(sorts)[j] == parts[j] by {
            assert(sorts[j] is Array);
        }
        assert(value_parts(sorts) =~= parts);
        if 0 <= i < sorts.len() {
            assert(sorts[i] is Array);
        }
    }
    if forall|j: int|
        #![trigger sorts[j]]
        0 <= j < sorts.len() ==> sorts[j] is Array && *sorts[j]->Array_0 == *sorts[0]->Array_0
            && sorts[j]->Array_2 == sorts[0]->Array_2 {
        assert(sorts[0] is Array);
        assert(parallel(sorts));
    }
}

} // verus!
