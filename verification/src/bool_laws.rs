//! What holds of boolean operators together.

use crate::op::{BoolNaryOp, FieldToBv, Op};
use crate::semantics::{all_hold, any_holds, bool_nary, op_result};
use crate::value::ValueView;
use vstd::prelude::*;

verus! {

/// Whether all values are booleans.
pub open spec fn all_bools(args: Seq<ValueView>) -> bool {
    forall|i: int| 0 <= i < args.len() ==> (#[trigger] args[i]) is Bool
}

/// Whether some value is true.
pub open spec fn some_true(args: Seq<ValueView>) -> bool {
    exists|i: int| 0 <= i < args.len() && #[trigger] args[i] == ValueView::Bool(true)
}

/// Whether some value is false.
pub open spec fn some_false(args: Seq<ValueView>) -> bool {
    exists|i: int| 0 <= i < args.len() && #[trigger] args[i] == ValueView::Bool(false)
}

/// How many values are true.
pub open spec fn count_true(args: Seq<ValueView>) -> nat
    decreases args.len(),
{
    if args.len() == 0 {
        0
    } else {
        count_true(args.drop_last()) + (if args.last() == ValueView::Bool(true) {
            1nat
        } else {
            0nat
        })
    }
}

/// On booleans, the disjunction holds where one of them does; of none it does not hold.
pub proof fn law_disjunction(args: Seq<ValueView>)
    requires
        all_bools(args),
    ensures
        bool_nary(BoolNaryOp::Or, args) == Some(some_true(args)),
    decreases args.len(),
{
    if args.len() > 0 {
        let rest = args.drop_first();
        assert(args[0] is Bool);
        assert forall|i: int| 0 <= i < rest.len() implies (#[trigger] rest[i]) is Bool by {
            assert(rest[i] == args[i + 1]);
        }
        law_disjunction(rest);
        if some_true(rest) {
            let i = choose|i: int| 0 <= i < rest.len() && rest[i] == ValueView::Bool(true);
            assert(args[i + 1] == ValueView::Bool(true));
        }
        if some_true(args) && args[0] != ValueView::Bool(true) {
            let i = choose|i: int| 0 <= i < args.len() && args[i] == ValueView::Bool(true);
            assert(rest[i - 1] == ValueView::Bool(true));
        }
    }
}

/// On booleans, the conjunction holds where none of them is false; of none it holds.
pub proof fn law_conjunction(args: Seq<ValueView>)
    requires
        all_bools(args),
    ensures
        bool_nary(BoolNaryOp::And, args) == Some(!some_false(args)),
    decreases args.len(),
{
    if args.len() > 0 {
        let rest = args.drop_first();
        assert(args[0] is Bool);
        assert forall|i: int| 0 <= i < rest.len() implies (#[trigger] rest[i]) is Bool by {
            assert(rest[i] == args[i + 1]);
        }
        law_conjunction(rest);
        if some_false(rest) {
            let i = choose|i: int| 0 <= i < rest.len() && rest[i] == ValueView::Bool(false);
            assert(args[i + 1] == ValueView::Bool(false));
        }
        if some_false(args) && args[0] != ValueView::Bool(false) {
            let i = choose|i: int| 0 <= i < args.len() && args[i] == ValueView::Bool(false);
            assert(rest[i - 1] == ValueView::Bool(false));
        }
    }
}

/// On booleans, the exclusive disjunction holds where an odd number of them does.
pub proof fn law_exclusive_disjunction(args: Seq<ValueView>)
    requires
        all_bools(args),
    ensures
        bool_nary(BoolNaryOp::Xor, args) == Some(count_true(args) % 2 == 1),
    decreases args.len(),
{
    if args.len() > 0 {
        let rest = args.drop_last();
        assert(args.last() == args[args.len() - 1]);
        assert(args[args.len() - 1] is Bool);
        assert forall|i: int| 0 <= i < rest.len() implies (#[trigger] rest[i]) is Bool by {
            assert(rest[i] == args[i]);
        }
        law_exclusive_disjunction(rest);
    }
}

/// An implication is the disjunction of its second part with the negation of its first.
#[verifier::rlimit(30)]
pub proof fn law_implication(
    a: bool,
    b: bool,
    env: Map<Seq<char>, ValueView>,
    mode: FieldToBv,
)
    ensures
        op_result(Op::Implies, seq![ValueView::Bool(a), ValueView::Bool(b)], env, mode)
            == op_result(
            Op::BoolNaryOp(BoolNaryOp::Or),
            seq![
                op_result(Op::Not, seq![ValueView::Bool(a)], env, mode)->0,
                ValueView::Bool(b),
            ],
            env,
            mode,
        ),
{
    let s = seq![ValueView::Bool(!a), ValueView::Bool(b)];
    law_disjunction(s);
    assert(s[0] == ValueView::Bool(!a) && s[1] == ValueView::Bool(b));
}

/// The majority of three booleans holds where more than one of them does.
pub proof fn law_majority(
    a: bool,
    b: bool,
    c: bool,
    env: Map<Seq<char>, ValueView>,
    mode: FieldToBv,
)
    ensures
        op_result(
            Op::BoolMaj,
            seq![ValueView::Bool(a), ValueView::Bool(b), ValueView::Bool(c)],
            env,
            mode,
        ) == Some(
            ValueView::Bool(
                count_true(seq![ValueView::Bool(a), ValueView::Bool(b), ValueView::Bool(c)]) > 1,
            ),
        ),
{
    let s = seq![ValueView::Bool(a), ValueView::Bool(b), ValueView::Bool(c)];
    reveal_with_fuel(count_true, 4);
    assert(s.drop_last() =~= seq![ValueView::Bool(a), ValueView::Bool(b)]);
    assert(s.drop_last().drop_last() =~= seq![ValueView::Bool(a)]);
    assert(s.drop_last().drop_last().drop_last() =~= Seq::empty());
}

/// The value of a choice is that of the chosen branch, whatever the other one is.
pub proof fn law_choice(
    c: bool,
    a: ValueView,
    b: ValueView,
    env: Map<Seq<char>, ValueView>,
    mode: FieldToBv,
)
    ensures
        op_result(Op::Ite, seq![ValueView::Bool(c), a, b], env, mode) == Some(
            if c {
                a
            } else {
                b
            },
        ),
{
}

/// Equality holds between two values exactly where they are the same value.
pub proof fn law_equality(
    a: ValueView,
    b: ValueView,
    env: Map<Seq<char>, ValueView>,
    mode: FieldToBv,
)
    ensures
        op_result(Op::Eq, seq![a, b], env, mode) == Some(ValueView::Bool(a == b)),
        op_result(Op::Eq, seq![a, b], env, mode) == op_result(Op::Eq, seq![b, a], env, mode),
{
}

/// Where a disjunction has which value.
proof fn lemma_any_holds(s: Seq<ValueView>)
    ensures
        any_holds(s) == Some(true) <==> exists|i: int| #[trigger] first_such(s, i, true),
        any_holds(s) == Some(false) <==> forall|i: int|
            0 <= i < s.len() ==> #[trigger] s[i] == ValueView::Bool(false),
    decreases s.len(),
{
    if s.len() > 0 {
        let rest = s.drop_first();
        lemma_any_holds(rest);
        if s[0] == ValueView::Bool(true) {
            assert(first_such(s, 0, true));
        } else if s[0] == ValueView::Bool(false) {
            lemma_first_such(s, true);
            if forall|i: int| 0 <= i < s.len() ==> #[trigger] s[i] == ValueView::Bool(false) {
                assert forall|i: int| 0 <= i < rest.len() implies #[trigger] rest[i]
                    == ValueView::Bool(false) by {
                    assert(rest[i] == s[i + 1]);
                }
            }
            if any_holds(rest) == Some(false) {
                assert forall|i: int| 0 <= i < s.len() implies #[trigger] s[i]
                    == ValueView::Bool(false) by {
                    if i > 0 {
                        assert(s[i] == rest[i - 1]);
                    }
                }
            }
        } else {
            if exists|i: int| #[trigger] first_such(s, i, true) {
                let i = choose|i: int| #[trigger] first_such(s, i, true);
                assert(i > 0 ==> s[0] == ValueView::Bool(false));
            }
        }
    }
}

/// Where a conjunction has which value.
proof fn lemma_all_hold(s: Seq<ValueView>)
    ensures
        all_hold(s) == Some(false) <==> exists|i: int| #[trigger] first_such(s, i, false),
        all_hold(s) == Some(true) <==> forall|i: int|
            0 <= i < s.len() ==> #[trigger] s[i] == ValueView::Bool(true),
    decreases s.len(),
{
    if s.len() > 0 {
        let rest = s.drop_first();
        lemma_all_hold(rest);
        if s[0] == ValueView::Bool(false) {
            assert(first_such(s, 0, false));
        } else if s[0] == ValueView::Bool(true) {
            lemma_first_such(s, false);
            if forall|i: int| 0 <= i < s.len() ==> #[trigger] s[i] == ValueView::Bool(true) {
                assert forall|i: int| 0 <= i < rest.len() implies #[trigger] rest[i]
                    == ValueView::Bool(true) by {
                    assert(rest[i] == s[i + 1]);
                }
            }
            if all_hold(rest) == Some(true) {
                assert forall|i: int| 0 <= i < s.len() implies #[trigger] s[i]
                    == ValueView::Bool(true) by {
                    if i > 0 {
                        assert(s[i] == rest[i - 1]);
                    }
                }
            }
        } else {
            if exists|i: int| #[trigger] first_such(s, i, false) {
                let i = choose|i: int| #[trigger] first_such(s, i, false);
                assert(i > 0 ==> s[0] == ValueView::Bool(true));
            }
        }
    }
}

/// Whether the value at `i` is the boolean `b`, and all before it are the other one.
pub open spec fn first_such(s: Seq<ValueView>, i: int, b: bool) -> bool {
    &&& 0 <= i < s.len()
    &&& s[i] == ValueView::Bool(b)
    &&& forall|j: int| 0 <= j < i ==> #[trigger] s[j] == ValueView::Bool(!b)
}

/// The first such value after one that is not.
proof fn lemma_first_such(s: Seq<ValueView>, b: bool)
    requires
        s.len() > 0,
        s[0] == ValueView::Bool(!b),
    ensures
        (exists|i: int| #[trigger] first_such(s, i, b)) == (exists|i: int| #[trigger]
            first_such(s.drop_first(), i, b)),
{
    let rest = s.drop_first();
    if exists|i: int| #[trigger] first_such(s, i, b) {
        let i = choose|i: int| #[trigger] first_such(s, i, b);
        assert(i > 0);
        assert forall|j: int| 0 <= j < i - 1 implies #[trigger] rest[j] == ValueView::Bool(!b) by {
            assert(rest[j] == s[j + 1]);
        }
        assert(rest[i - 1] == s[i]);
        assert(first_such(rest, i - 1, b));
    }
    if exists|i: int| #[trigger] first_such(rest, i, b) {
        let i = choose|i: int| #[trigger] first_such(rest, i, b);
        assert forall|j: int| 0 <= j < i + 1 implies #[trigger] s[j] == ValueView::Bool(!b) by {
            if j > 0 {
                assert(s[j] == rest[j - 1]);
            }
        }
        assert(rest[i] == s[i + 1]);
        assert(first_such(s, i + 1, b));
    }
}

/// A disjunction holds where one argument does and all before it are false, and does not hold
/// where all are false. A conjunction holds where all do, and does not hold where one argument
/// is false and all before it are true. Otherwise neither has a value; what comes after the
/// argument that decides counts for nothing.
pub proof fn law_first_decides(
    args: Seq<ValueView>,
    env: Map<Seq<char>, ValueView>,
    mode: FieldToBv,
)
    ensures
        op_result(Op::BoolNaryOp(BoolNaryOp::Or), args, env, mode) == Some(ValueView::Bool(true))
            <==> exists|i: int| #[trigger] first_such(args, i, true),
        op_result(Op::BoolNaryOp(BoolNaryOp::Or), args, env, mode) == Some(ValueView::Bool(false))
            <==> forall|i: int|
            0 <= i < args.len() ==> #[trigger] args[i] == ValueView::Bool(false),
        op_result(Op::BoolNaryOp(BoolNaryOp::Or), args, env, mode) is Some ==> op_result(
            Op::BoolNaryOp(BoolNaryOp::Or),
            args,
            env,
            mode,
        )->0 is Bool,
        op_result(Op::BoolNaryOp(BoolNaryOp::And), args, env, mode) == Some(
            ValueView::Bool(false),
        ) <==> exists|i: int| #[trigger] first_such(args, i, false),
        op_result(Op::BoolNaryOp(BoolNaryOp::And), args, env, mode) == Some(ValueView::Bool(true))
            <==> forall|i: int|
            0 <= i < args.len() ==> #[trigger] args[i] == ValueView::Bool(true),
        op_result(Op::BoolNaryOp(BoolNaryOp::And), args, env, mode) is Some ==> op_result(
            Op::BoolNaryOp(BoolNaryOp::And),
            args,
            env,
            mode,
        )->0 is Bool,
{
    lemma_any_holds(args);
    lemma_all_hold(args);
}

/// The exclusive disjunction of nothing does not hold, and a further argument that holds turns
/// it round. It is there for booleans only.
pub proof fn law_exclusive_disjunction_turns(
    s: Seq<ValueView>,
    x: ValueView,
    env: Map<Seq<char>, ValueView>,
    mode: FieldToBv,
)
    ensures
        op_result(Op::BoolNaryOp(BoolNaryOp::Xor), Seq::empty(), env, mode) == Some(
            ValueView::Bool(false),
        ),
        op_result(Op::BoolNaryOp(BoolNaryOp::Xor), s.push(x), env, mode) is Some <==> x is Bool
            && op_result(Op::BoolNaryOp(BoolNaryOp::Xor), s, env, mode) is Some,
        op_result(Op::BoolNaryOp(BoolNaryOp::Xor), s.push(x), env, mode) is Some ==> op_result(
            Op::BoolNaryOp(BoolNaryOp::Xor),
            s.push(x),
            env,
            mode,
        )->0 is Bool,
        x == ValueView::Bool(false) ==> op_result(
            Op::BoolNaryOp(BoolNaryOp::Xor),
            s.push(x),
            env,
            mode,
        ) == op_result(Op::BoolNaryOp(BoolNaryOp::Xor), s, env, mode),
        x == ValueView::Bool(true) && op_result(Op::BoolNaryOp(BoolNaryOp::Xor), s, env, mode)
            is Some ==> op_result(Op::BoolNaryOp(BoolNaryOp::Xor), s.push(x), env, mode)
            != op_result(Op::BoolNaryOp(BoolNaryOp::Xor), s, env, mode),
{
    assert(s.push(x).drop_last() =~= s);
}

/// The negation of what holds does not hold, and the other way round; it is there for a boolean.
/// What does not hold implies everything, and what holds implies what holds.
pub proof fn law_negation_and_implication(
    args: Seq<ValueView>,
    env: Map<Seq<char>, ValueView>,
    mode: FieldToBv,
)
    ensures
        op_result(Op::Not, args, env, mode) == Some(ValueView::Bool(true)) <==> args.len() > 0
            && args[0] == ValueView::Bool(false),
        op_result(Op::Not, args, env, mode) == Some(ValueView::Bool(false)) <==> args.len() > 0
            && args[0] == ValueView::Bool(true),
        op_result(Op::Not, args, env, mode) is Some ==> args.len() > 0 && args[0] is Bool,
        args.len() > 0 && args[0] == ValueView::Bool(false) ==> op_result(
            Op::Implies,
            args,
            env,
            mode,
        ) == Some(ValueView::Bool(true)),
        args.len() > 1 && args[0] == ValueView::Bool(true) && args[1] is Bool ==> op_result(
            Op::Implies,
            args,
            env,
            mode,
        ) == Some(args[1]),
        op_result(Op::Implies, args, env, mode) is Some ==> args.len() > 0 && args[0] is Bool && (
        args[0] == ValueView::Bool(true) ==> args.len() > 1 && args[1] is Bool),
{
}

/// A majority holds where the first three arguments are booleans and two of them hold. A choice
/// is the second argument where the first one holds, and the third one where it does not. Two
/// arguments are equal where they are the same.
pub proof fn law_majority_and_choice(
    args: Seq<ValueView>,
    env: Map<Seq<char>, ValueView>,
    mode: FieldToBv,
)
    ensures
        op_result(Op::BoolMaj, args, env, mode) is Some <==> args.len() >= 3 && args[0] is Bool
            && args[1] is Bool && args[2] is Bool,
        op_result(Op::BoolMaj, args, env, mode) is Some && args[0] == args[1] ==> op_result(
            Op::BoolMaj,
            args,
            env,
            mode,
        ) == Some(args[0]),
        op_result(Op::BoolMaj, args, env, mode) is Some && args[0] != args[1] ==> op_result(
            Op::BoolMaj,
            args,
            env,
            mode,
        ) == Some(args[2]),
        op_result(Op::Ite, args, env, mode) is Some ==> args.len() > 1 && args[0] is Bool,
        args.len() > 1 && args[0] == ValueView::Bool(true) ==> op_result(Op::Ite, args, env, mode)
            == Some(args[1]),
        args.len() > 2 && args[0] == ValueView::Bool(false) ==> op_result(Op::Ite, args, env, mode)
            == Some(args[2]),
        args.len() == 2 && args[0] == ValueView::Bool(false) ==> op_result(
            Op::Ite,
            args,
            env,
            mode,
        ) is None,
        op_result(Op::Eq, args, env, mode) is Some <==> args.len() >= 2,
        op_result(Op::Eq, args, env, mode) == Some(ValueView::Bool(true)) <==> args.len() >= 2
            && args[0] == args[1],
        op_result(Op::Eq, args, env, mode) is Some ==> op_result(Op::Eq, args, env, mode)->0
            is Bool,
{
}

} // verus!
