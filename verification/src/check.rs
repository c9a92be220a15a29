//! Sort checking: which sorts an operator takes, and the sort of what it gives.

use crate::field::FieldT;
use crate::op::Op;
use crate::sort::{sort_view, sort_views, ArraySort, Sort, SortView};
use crate::value::value_sort;
use vstd::prelude::*;

verus! {

/// Whether there are sorts, all of them the same.
pub open spec fn uniform(a: Seq<SortView>) -> bool {
    a.len() > 0 && forall|i: int| 0 <= i < a.len() ==> #[trigger] a[i] == a[0]
}

/// Gives `r` where the sorts are the expected ones.
pub open spec fn given(a: Seq<SortView>, expected: Seq<SortView>, r: SortView) -> Option<
    SortView,
> {
    if a == expected {
        Some(r)
    } else {
        None
    }
}

/// The width of several bit-vectors laid side by side.
pub open spec fn total_width(a: Seq<SortView>) -> Option<nat>
    decreases a.len(),
{
    if a.len() == 0 {
        Some(0)
    } else {
        match (total_width(a.drop_last()), a.last()) {
            (Some(n), SortView::BitVector(w)) => Some(n + w),
            _ => None,
        }
    }
}

/// Whether all sorts are arrays with the keys and the size of the first one.
pub open spec fn parallel(a: Seq<SortView>) -> bool {
    &&& a.len() > 0
    &&& a[0] is Array
    &&& forall|i: int|
        0 <= i < a.len() ==> (#[trigger] a[i]) is Array && *a[i]->Array_0 == *a[0]->Array_0
            && a[i]->Array_2 == a[0]->Array_2
}

/// The sorts of the values of several arrays.
pub open spec fn value_parts(a: Seq<SortView>) -> Seq<SortView> {
    Seq::new(a.len(), |i: int| *a[i]->Array_1)
}

/// The sort of what `op` gives on arguments of the sorts `a`; nothing where it does not take
/// them.
pub open spec fn op_sort(op: Op, a: Seq<SortView>) -> Option<SortView>
    decreases op,
{
    match op {
        Op::Var(v) => given(a, Seq::empty(), v.sort@),
        Op::Const(c) => given(a, Seq::empty(), value_sort(c@)),
        Op::Eq => if a.len() == 2 && a[0] == a[1] {
            Some(SortView::Bool)
        } else {
            None
        },
        Op::Ite => if a.len() == 3 && a[0] == SortView::Bool && a[1] == a[2] {
            Some(a[1])
        } else {
            None
        },
        Op::Not => given(a, seq![SortView::Bool], SortView::Bool),
        Op::Implies => given(a, seq![SortView::Bool, SortView::Bool], SortView::Bool),
        Op::BoolNaryOp(_) => if uniform(a) && a[0] is Bool {
            Some(SortView::Bool)
        } else {
            None
        },
        Op::BoolMaj => given(
            a,
            seq![SortView::Bool, SortView::Bool, SortView::Bool],
            SortView::Bool,
        ),
        Op::BvBit(i) => if a.len() == 1 && a[0] is BitVector && i < a[0]->BitVector_0 {
            Some(SortView::Bool)
        } else {
            None
        },
        Op::BvConcat => match total_width(a) {
            Some(w) => if a.len() > 0 && w <= usize::MAX {
                Some(SortView::BitVector(w))
            } else {
                None
            },
            None => None,
        },
        Op::BvExtract(h, l) => if a.len() == 1 && a[0] is BitVector && l <= h
            < a[0]->BitVector_0 {
            Some(SortView::BitVector((h - l + 1) as nat))
        } else {
            None
        },
        Op::BvBinOp(_) => if a.len() == 2 && a[0] == a[1] && a[0] is BitVector {
            Some(a[0])
        } else {
            None
        },
        Op::BvUnOp(_) => if a.len() == 1 && a[0] is BitVector {
            Some(a[0])
        } else {
            None
        },
        Op::BvNaryOp(_) => if uniform(a) && a[0] is BitVector {
            Some(a[0])
        } else {
            None
        },
        Op::BvBinPred(_) => if a.len() == 2 && a[0] == a[1] && a[0] is BitVector {
            Some(SortView::Bool)
        } else {
            None
        },
        Op::BvSext(n) | Op::BvUext(n) => if a.len() == 1 && a[0] is BitVector
            && a[0]->BitVector_0 + n <= usize::MAX {
            Some(SortView::BitVector(a[0]->BitVector_0 + n as nat))
        } else {
            None
        },
        Op::BoolToBv => given(a, seq![SortView::Bool], SortView::BitVector(1)),
        Op::PfUnOp(_) => if a.len() == 1 && a[0] is Field {
            Some(a[0])
        } else {
            None
        },
        Op::PfDiv => if a.len() == 2 && a[0] == a[1] && a[0] is Field {
            Some(a[0])
        } else {
            None
        },
        Op::PfNaryOp(_) => if uniform(a) && a[0] is Field {
            Some(a[0])
        } else {
            None
        },
        Op::PfToBv(w) => if a.len() == 1 && a[0] is Field {
            Some(SortView::BitVector(w as nat))
        } else {
            None
        },
        Op::PfToInt => if a.len() == 1 && a[0] is Field {
            Some(SortView::Int)
        } else {
            None
        },
        Op::PfToBoolTrusted | Op::PfFitsInBits(_) => if a.len() == 1 && a[0] is Field {
            Some(SortView::Bool)
        } else {
            None
        },
        Op::PfChallenge(c) => if forall|i: int|
            0 <= i < a.len() ==> #[trigger] a[i] == SortView::Field(c@.field) {
            Some(SortView::Field(c@.field))
        } else {
            None
        },
        Op::UbvToPf(f) => if a.len() == 1 && a[0] is BitVector {
            Some(SortView::Field(f@))
        } else {
            None
        },
        Op::IntNaryOp(_) => if uniform(a) && a[0] is Int {
            Some(SortView::Int)
        } else {
            None
        },
        Op::IntBinOp(_) => given(a, seq![SortView::Int, SortView::Int], SortView::Int),
        Op::IntBinPred(_) => given(a, seq![SortView::Int, SortView::Int], SortView::Bool),
        Op::IntUnOp(_) => given(a, seq![SortView::Int], SortView::Int),
        Op::IntSize => given(a, seq![SortView::Int], SortView::BitVector(32)),
        Op::IntToBv(w) => given(a, seq![SortView::Int], SortView::BitVector(w as nat)),
        Op::IntToPf(f) => given(a, seq![SortView::Int], SortView::Field(f@)),
        Op::Witness(_) => if a.len() == 1 {
            Some(a[0])
        } else {
            None
        },
        Op::Tuple => Some(SortView::Tuple(a)),
        Op::Field(i) => if a.len() == 1 && a[0] is Tuple && i < a[0]->Tuple_0.len() {
            Some(a[0]->Tuple_0[i as int])
        } else {
            None
        },
        Op::Update(i) => if a.len() == 2 && a[0] is Tuple && i < a[0]->Tuple_0.len()
            && a[0]->Tuple_0[i as int] == a[1] {
            Some(a[0])
        } else {
            None
        },
        Op::Array(o) => if a.len() <= usize::MAX && forall|i: int|
            0 <= i < a.len() ==> #[trigger] a[i] == o.val@ {
            Some(SortView::Array(Box::new(o.key@), Box::new(o.val@), a.len()))
        } else {
            None
        },
        Op::Select => if a.len() == 2 && a[0] is Array && *a[0]->Array_0 == a[1] {
            Some(*a[0]->Array_1)
        } else {
            None
        },
        Op::Store => if a.len() == 3 && a[0] is Array && *a[0]->Array_0 == a[1]
            && *a[0]->Array_1 == a[2] {
            Some(a[0])
        } else {
            None
        },
        Op::CStore => if a.len() == 4 && a[0] is Array && *a[0]->Array_0 == a[1]
            && *a[0]->Array_1 == a[2] && a[3] == SortView::Bool {
            Some(a[0])
        } else {
            None
        },
        Op::Fill(o) => if a.len() == 1 {
            Some(SortView::Array(Box::new(o.key_sort@), Box::new(a[0]), o.size as nat))
        } else {
            None
        },
        Op::ArrayMap(inner) => if parallel(a) {
            match op_sort(*inner, value_parts(a)) {
                Some(v) => Some(SortView::Array(a[0]->Array_0, Box::new(v), a[0]->Array_2)),
                None => None,
            }
        } else {
            None
        },
        Op::Rot(_) => if a.len() == 1 && a[0] is Array {
            Some(a[0])
        } else {
            None
        },
        Op::UndefinedFnCall(c) => given(a, sort_views(c.arg_sorts@), c.ret_sort@),
    }
}

/// Whether there are sorts, all of them the same.
fn is_uniform(a: &Vec<Sort>) -> (r: bool)
    ensures
        r == uniform(sort_views(a@)),
{
    let ghost s = sort_views(a@);
    if a.len() == 0 {
        return false;
    }
    let mut i: usize = 1;
    while i < a.len()
        invariant
            1 <= i <= a@.len(),
            s == sort_views(a@),
            forall|j: int| 0 <= j < i ==> #[trigger] s[j] == s[0],
        decreases a@.len() - i,
    {
        if !a[i].same(&a[0]) {
            assert(s[i as int] != s[0]);
            return false;
        }
        assert(s[i as int] == s[0]);
        i = i + 1;
    }
    true
}

/// Whether every sort is `s`.
fn all_are(a: &Vec<Sort>, s: &Sort) -> (r: bool)
    ensures
        r == (forall|i: int| 0 <= i < a@.len() ==> #[trigger] sort_views(a@)[i] == s@),
{
    let ghost v = sort_views(a@);
    let mut i: usize = 0;
    while i < a.len()
        invariant
            i <= a@.len(),
            v == sort_views(a@),
            forall|j: int| 0 <= j < i ==> #[trigger] v[j] == s@,
        decreases a@.len() - i,
    {
        if !a[i].same(s) {
            assert(v[i as int] != s@);
            return false;
        }
        assert(v[i as int] == s@);
        i = i + 1;
    }
    true
}

/// Whether two lists hold the same sorts.
fn same_sorts(a: &Vec<Sort>, b: &Vec<Sort>) -> (r: bool)
    ensures
        r == (sort_views(a@) == sort_views(b@)),
{
    let ghost s = sort_views(a@);
    let ghost t = sort_views(b@);
    if a.len() != b.len() {
        assert(s.len() != t.len());
        return false;
    }
    let mut i: usize = 0;
    while i < a.len()
        invariant
            i <= a@.len(),
            a@.len() == b@.len(),
            s == sort_views(a@),
            t == sort_views(b@),
            forall|j: int| 0 <= j < i ==> #[trigger] s[j] == t[j],
        decreases a@.len() - i,
    {
        if !a[i].same(&b[i]) {
            assert(s[i as int] != t[i as int]);
            return false;
        }
        assert(s[i as int] == t[i as int]);
        i = i + 1;
    }
    assert(s =~= t);
    true
}

/// The width of several bit-vectors laid side by side, where it is a machine number.
fn width_sum(a: &Vec<Sort>) -> (r: Option<usize>)
    ensures
        match r {
            Some(w) => total_width(sort_views(a@)) == Some(w as nat),
            None => match total_width(sort_views(a@)) {
                Some(w) => w > usize::MAX,
                None => true,
            },
        },
{
    let ghost s = sort_views(a@);
    let mut n: usize = 0;
    let mut i: usize = 0;
    while i < a.len()
        invariant
            i <= a@.len(),
            s == sort_views(a@),
            total_width(s.take(i as int)) == Some(n as nat),
        decreases a@.len() - i,
    {
        proof {
            assert(s.take(i + 1).drop_last() =~= s.take(i as int));
            assert(s.take(i + 1).last() == a@[i as int]@);
            lemma_total_width(s, i + 1);
        }
        match &a[i] {
            Sort::BitVector(w) => match n.checked_add(*w) {
                Some(m) => {
                    n = m;
                },
                None => {
                    return None;
                },
            },
            _ => {
                return None;
            },
        }
        i = i + 1;
    }
    assert(s.take(i as int) =~= s);
    Some(n)
}

/// The width of the first few bit-vectors is no more than that of all.
proof fn lemma_total_width(a: Seq<SortView>, n: int)
    requires
        0 <= n <= a.len(),
    ensures
        match (total_width(a.take(n)), total_width(a)) {
            (Some(v), Some(w)) => v <= w,
            (None, Some(_)) => false,
            _ => true,
        },
    decreases a.len(),
{
    if n == a.len() {
        assert(a.take(n) =~= a);
    } else {
        lemma_total_width(a.drop_last(), n);
        assert(a.drop_last().take(n) =~= a.take(n));
    }
}

/// The view of a sort that may be missing.
pub open spec fn sort_option(r: Option<Sort>) -> Option<SortView> {
    match r {
        Some(s) => Some(s@),
        None => None,
    }
}

/// `n` times the same sort.
pub open spec fn copies(s: SortView, n: nat) -> Seq<SortView> {
    Seq::new(n, |i: int| s)
}

/// Gives `r` where the sorts are `n` times the sort `one`.
fn expect(a: &Vec<Sort>, one: Sort, n: usize, r: Sort) -> (out: Option<Sort>)
    ensures
        sort_option(out) == given(sort_views(a@), copies(one@, n as nat), r@),
{
    let ghost s = sort_views(a@);
    let ghost t = copies(one@, n as nat);
    if a.len() == n && all_are(a, &one) {
        assert(s =~= t);
        Some(r)
    } else {
        proof {
            if s == t {
                assert forall|i: int| 0 <= i < s.len() implies #[trigger] s[i] == one@ by {
                    assert(t[i] == one@);
                }
            }
        }
        None
    }
}

/// The sorts of the values of several arrays that have the same keys and the same size;
/// nothing where the sorts are not such arrays.
fn split_arrays(a: &Vec<Sort>) -> (r: Option<Vec<Sort>>)
    ensures
        match r {
            Some(v) => parallel(sort_views(a@)) && sort_views(v@) == value_parts(sort_views(a@)),
            None => !parallel(sort_views(a@)),
        },
{
    let ghost s = sort_views(a@);
    if a.len() == 0 {
        return None;
    }
    assert(s[0] == a@[0]@);
    let first: &ArraySort = match &a[0] {
        Sort::Array(f) => f,
        _ => {
            return None;
        },
    };
    let mut out: Vec<Sort> = Vec::new();
    let mut i: usize = 0;
    while i < a.len()
        invariant
            0 < a@.len(),
            i <= a@.len(),
            s == sort_views(a@),
            s[0] is Array,
            *s[0]->Array_0 == first.key@,
            s[0]->Array_2 == first.size,
            out@.len() == i,
            forall|j: int|
                0 <= j < i ==> (#[trigger] s[j]) is Array && *s[j]->Array_0 == *s[0]->Array_0
                    && s[j]->Array_2 == s[0]->Array_2 && sort_view(out@[j]) == *s[j]->Array_1,
        decreases a@.len() - i,
    {
        assert(s[i as int] == a@[i as int]@);
        match &a[i] {
            Sort::Array(x) => {
                if !x.key.same(&first.key) || x.size != first.size {
                    return None;
                }
                out.push(x.val.clone());
            },
            _ => {
                return None;
            },
        }
        i = i + 1;
    }
    assert(sort_views(out@) =~= value_parts(s));
    Some(out)
}

impl Op {
    /// The sort of what the operator gives on arguments of the sorts `a`; nothing where it does
    /// not take them.
    pub fn sort_of(&self, a: &Vec<Sort>) -> (r: Option<Sort>)
        ensures
            sort_option(r) == op_sort(*self, sort_views(a@)),
        decreases self,
    {
        let ghost s = sort_views(a@);
        let n: usize = a.len();
        proof {
            assert(copies(SortView::Bool, 0) =~= Seq::empty());
            assert(copies(SortView::Bool, 1) =~= seq![SortView::Bool]);
            assert(copies(SortView::Bool, 2) =~= seq![SortView::Bool, SortView::Bool]);
            assert(copies(SortView::Bool, 3) =~= seq![
                SortView::Bool,
                SortView::Bool,
                SortView::Bool,
            ]);
            assert(copies(SortView::Int, 1) =~= seq![SortView::Int]);
            assert(copies(SortView::Int, 2) =~= seq![SortView::Int, SortView::Int]);
            assert forall|i: int| 0 <= i < n implies #[trigger] s[i] == a@[i]@ by {}
        }
        match self {
            Op::Var(v) => expect(a, Sort::Bool, 0, v.sort.clone()),
            Op::Const(c) => expect(a, Sort::Bool, 0, c.sort()),
            Op::Eq => if n == 2 && a[0].same(&a[1]) {
                Some(Sort::Bool)
            } else {
                None
            },
            Op::Ite => if n == 3 && a[0].same(&Sort::Bool) && a[1].same(&a[2]) {
                Some(a[1].clone())
            } else {
                None
            },
            Op::Not => expect(a, Sort::Bool, 1, Sort::Bool),
            Op::Implies => expect(a, Sort::Bool, 2, Sort::Bool),
            Op::BoolNaryOp(_) => if is_uniform(a) && a[0].same(&Sort::Bool) {
                Some(Sort::Bool)
            } else {
                None
            },
            Op::BoolMaj => expect(a, Sort::Bool, 3, Sort::Bool),
            Op::BoolToBv => expect(a, Sort::Bool, 1, Sort::BitVector(1)),
            Op::PfChallenge(c) => {
                let f: Sort = Sort::Field(c.field().clone());
                if all_are(a, &f) {
                    Some(f)
                } else {
                    None
                }
            },
            Op::IntNaryOp(_) => if is_uniform(a) && a[0].same(&Sort::Int) {
                Some(Sort::Int)
            } else {
                None
            },
            Op::IntBinOp(_) => expect(a, Sort::Int, 2, Sort::Int),
            Op::IntBinPred(_) => expect(a, Sort::Int, 2, Sort::Bool),
            Op::IntUnOp(_) => expect(a, Sort::Int, 1, Sort::Int),
            Op::IntSize => expect(a, Sort::Int, 1, Sort::BitVector(32)),
            Op::IntToBv(w) => expect(a, Sort::Int, 1, Sort::BitVector(*w)),
            Op::IntToPf(f) => expect(a, Sort::Int, 1, Sort::Field(f.clone())),
            Op::Witness(_) => if n == 1 {
                Some(a[0].clone())
            } else {
                None
            },
            Op::UndefinedFnCall(c) => if same_sorts(a, &c.arg_sorts) {
                Some(c.ret_sort.clone())
            } else {
                None
            },
            Op::ArrayMap(inner) => match split_arrays(a) {
                Some(parts) => match (inner.sort_of(&parts), &a[0]) {
                    (Some(v), Sort::Array(f)) => {
                        Some(
                            Sort::Array(
                                Box::new(ArraySort { key: f.key.clone(), val: v, size: f.size }),
                            ),
                        )
                    },
                    _ => None,
                },
                None => None,
            },
            Op::BvBit(_)
            | Op::BvConcat
            | Op::BvExtract(_, _)
            | Op::BvBinOp(_)
            | Op::BvUnOp(_)
            | Op::BvNaryOp(_)
            | Op::BvBinPred(_)
            | Op::BvSext(_)
            | Op::BvUext(_)
            | Op::UbvToPf(_) => self.sort_of_bv(a),
            Op::PfUnOp(_)
            | Op::PfDiv
            | Op::PfNaryOp(_)
            | Op::PfToBv(_)
            | Op::PfToInt
            | Op::PfToBoolTrusted
            | Op::PfFitsInBits(_) => self.sort_of_pf(a),
            _ => self.sort_of_parts(a),
        }
    }

    /// The part of [`Op::sort_of`] for operators on bit-vectors.
    fn sort_of_bv(&self, a: &Vec<Sort>) -> (r: Option<Sort>)
        requires
            match self {
                Op::BvBit(_)
                | Op::BvConcat
                | Op::BvExtract(_, _)
                | Op::BvBinOp(_)
                | Op::BvUnOp(_)
                | Op::BvNaryOp(_)
                | Op::BvBinPred(_)
                | Op::BvSext(_)
                | Op::BvUext(_)
                | Op::UbvToPf(_) => true,
                _ => false,
            },
        ensures
            sort_option(r) == op_sort(*self, sort_views(a@)),
    {
        let ghost s = sort_views(a@);
        let n: usize = a.len();
        if n == 0 {
            return None;
        }
        proof {
            assert(s[0] == a@[0]@);
            assert(n >= 2 ==> s[1] == a@[1]@);
        }
        if let Op::BvConcat = self {
            return match width_sum(a) {
                Some(w) => Some(Sort::BitVector(w)),
                None => None,
            };
        }
        let w: usize = match &a[0] {
            Sort::BitVector(w) => *w,
            _ => {
                return None;
            },
        };
        match self {
            Op::BvBit(i) => if n == 1 && *i < w {
                Some(Sort::Bool)
            } else {
                None
            },
            Op::BvExtract(h, l) => if n == 1 && *l <= *h && *h < w {
                Some(Sort::BitVector(*h - *l + 1))
            } else {
                None
            },
            Op::BvBinOp(_) => if n == 2 && a[0].same(&a[1]) {
                Some(Sort::BitVector(w))
            } else {
                None
            },
            Op::BvUnOp(_) => if n == 1 {
                Some(Sort::BitVector(w))
            } else {
                None
            },
            Op::BvNaryOp(_) => if is_uniform(a) {
                Some(Sort::BitVector(w))
            } else {
                None
            },
            Op::BvBinPred(_) => if n == 2 && a[0].same(&a[1]) {
                Some(Sort::Bool)
            } else {
                None
            },
            Op::BvSext(m) | Op::BvUext(m) => if n == 1 {
                match w.checked_add(*m) {
                    Some(v) => Some(Sort::BitVector(v)),
                    None => None,
                }
            } else {
                None
            },
            Op::UbvToPf(f) => if n == 1 {
                Some(Sort::Field(f.clone()))
            } else {
                None
            },
            _ => None,
        }
    }

    /// The part of [`Op::sort_of`] for operators on field elements.
    fn sort_of_pf(&self, a: &Vec<Sort>) -> (r: Option<Sort>)
        requires
            match self {
                Op::PfUnOp(_)
                | Op::PfDiv
                | Op::PfNaryOp(_)
                | Op::PfToBv(_)
                | Op::PfToInt
                | Op::PfToBoolTrusted
                | Op::PfFitsInBits(_) => true,
                _ => false,
            },
        ensures
            sort_option(r) == op_sort(*self, sort_views(a@)),
    {
        let ghost s = sort_views(a@);
        let n: usize = a.len();
        if n == 0 {
            return None;
        }
        proof {
            assert(s[0] == a@[0]@);
            assert(n >= 2 ==> s[1] == a@[1]@);
        }
        let f: &FieldT = match &a[0] {
            Sort::Field(f) => f,
            _ => {
                return None;
            },
        };
        match self {
            Op::PfUnOp(_) => if n == 1 {
                Some(Sort::Field(f.clone()))
            } else {
                None
            },
            Op::PfDiv => if n == 2 && a[0].same(&a[1]) {
                Some(Sort::Field(f.clone()))
            } else {
                None
            },
            Op::PfNaryOp(_) => if is_uniform(a) {
                Some(Sort::Field(f.clone()))
            } else {
                None
            },
            Op::PfToBv(w) => if n == 1 {
                Some(Sort::BitVector(*w))
            } else {
                None
            },
            Op::PfToInt => if n == 1 {
                Some(Sort::Int)
            } else {
                None
            },
            Op::PfToBoolTrusted | Op::PfFitsInBits(_) => if n == 1 {
                Some(Sort::Bool)
            } else {
                None
            },
            _ => None,
        }
    }

    /// The part of [`Op::sort_of`] for operators that make or take apart tuples and arrays.
    fn sort_of_parts(&self, a: &Vec<Sort>) -> (r: Option<Sort>)
        requires
            match self {
                Op::Tuple
                | Op::Field(_)
                | Op::Update(_)
                | Op::Array(_)
                | Op::Select
                | Op::Store
                | Op::CStore
                | Op::Fill(_)
                | Op::Rot(_) => true,
                _ => false,
            },
        ensures
            sort_option(r) == op_sort(*self, sort_views(a@)),
    {
        let ghost s = sort_views(a@);
        let n: usize = a.len();
        proof {
            assert forall|i: int| 0 <= i < n implies #[trigger] s[i] == a@[i]@ by {}
        }
        match self {
            Op::Tuple => {
                let v: Vec<Sort> = clone_sorts(a);
                Some(Sort::Tuple(v))
            },
            Op::Array(o) => if all_are(a, &o.val) {
                Some(
                    Sort::Array(
                        Box::new(
                            ArraySort { key: o.key.clone(), val: o.val.clone(), size: n },
                        ),
                    ),
                )
            } else {
                None
            },
            Op::Fill(o) => if n == 1 {
                Some(
                    Sort::Array(
                        Box::new(
                            ArraySort {
                                key: o.key_sort.clone(),
                                val: a[0].clone(),
                                size: o.size,
                            },
                        ),
                    ),
                )
            } else {
                None
            },
            _ => {
                if n == 0 {
                    return None;
                }
                assert(s[0] == a@[0]@);
                match &a[0] {
                    Sort::Tuple(t) => {
                        assert(s[0] == SortView::Tuple(sort_views(t@)));
                        match self {
                            Op::Field(i) => if n == 1 && *i < t.len() {
                                Some(t[*i].clone())
                            } else {
                                None
                            },
                            Op::Update(i) => if n == 2 && *i < t.len() && t[*i].same(&a[1]) {
                                Some(a[0].clone())
                            } else {
                                None
                            },
                            _ => None,
                        }
                    },
                    Sort::Array(x) => {
                        assert(s[0] == SortView::Array(
                            Box::new(x.key@),
                            Box::new(x.val@),
                            x.size as nat,
                        ));
                        match self {
                            Op::Select => if n == 2 && x.key.same(&a[1]) {
                                Some(x.val.clone())
                            } else {
                                None
                            },
                            Op::Store => if n == 3 && x.key.same(&a[1]) && x.val.same(&a[2]) {
                                Some(a[0].clone())
                            } else {
                                None
                            },
                            Op::CStore => if n == 4 && x.key.same(&a[1]) && x.val.same(&a[2])
                                && a[3].same(&Sort::Bool) {
                                Some(a[0].clone())
                            } else {
                                None
                            },
                            Op::Rot(_) => if n == 1 {
                                Some(a[0].clone())
                            } else {
                                None
                            },
                            _ => None,
                        }
                    },
                    _ => None,
                }
            },
        }
    }
}

/// A copy of several sorts.
fn clone_sorts(a: &Vec<Sort>) -> (r: Vec<Sort>)
    ensures
        sort_views(r@) == sort_views(a@),
{
    let mut out: Vec<Sort> = Vec::new();
    let mut i: usize = 0;
    while i < a.len()
        invariant
            i <= a@.len(),
            out@.len() == i,
            forall|j: int| 0 <= j < i ==> sort_view(#[trigger] out@[j]) == sort_view(a@[j]),
        decreases a@.len() - i,
    {
        out.push(a[i].clone());
        i = i + 1;
    }
    assert(sort_views(out@) =~= sort_views(a@));
    out
}

} // verus!
