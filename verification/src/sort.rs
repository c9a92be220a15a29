//! Sorts: the types of the IR.

use crate::bignat::{flip, int_rank, BigNat, Rank};
use crate::bv::power_of_two;
use crate::field::{field_rank, FieldT, FieldTView};
use crate::limbs::lemma_pow2_monotone;
use vstd::arithmetic::power2::{lemma2_to64, pow2};
use vstd::prelude::*;

verus! {

/// The sort of a value.
#[derive(Debug)]
pub enum Sort {
    Bool,
    /// Bit-vectors of the given width.
    BitVector(usize),
    Int,
    Field(FieldT),
    Tuple(Vec<Sort>),
    Array(Box<ArraySort>),
}

/// The sort of an array.
#[derive(Debug)]
pub struct ArraySort {
    pub key: Sort,
    pub val: Sort,
    pub size: usize,
}

/// What a [`Sort`] stands for.
pub enum SortView {
    Bool,
    BitVector(nat),
    Int,
    Field(FieldTView),
    Tuple(Seq<SortView>),
    Array(Box<SortView>, Box<SortView>, nat),
}

/// The view of a sort, with those of its parts.
pub open spec fn sort_view(s: Sort) -> SortView
    decreases s,
{
    match s {
        Sort::Bool => SortView::Bool,
        Sort::BitVector(w) => SortView::BitVector(w as nat),
        Sort::Int => SortView::Int,
        Sort::Field(f) => SortView::Field(f@),
        Sort::Tuple(v) => SortView::Tuple(sort_views(v@)),
        Sort::Array(a) => SortView::Array(
            Box::new(sort_view(a.key)),
            Box::new(sort_view(a.val)),
            a.size as nat,
        ),
    }
}

/// The views of several sorts.
pub open spec fn sort_views(s: Seq<Sort>) -> Seq<SortView>
    decreases s,
{
    Seq::new(
        s.len(),
        |i: int|
            if 0 <= i < s.len() {
                sort_view(s[i])
            } else {
                SortView::Bool
            },
    )
}

impl View for Sort {
    type V = SortView;

    open spec fn view(&self) -> SortView {
        sort_view(*self)
    }
}

/// Which kind of sort it is, as a number.
pub open spec fn sort_tag(s: SortView) -> int {
    match s {
        SortView::Bool => 0,
        SortView::BitVector(_) => 1,
        SortView::Int => 2,
        SortView::Field(_) => 3,
        SortView::Tuple(_) => 4,
        SortView::Array(_, _, _) => 5,
    }
}

/// An order on sorts: by kind, then by the parts from left to right.
pub open spec fn sort_rank(a: SortView, b: SortView) -> Rank
    decreases a,
{
    match (a, b) {
        (SortView::BitVector(v), SortView::BitVector(w)) => int_rank(v as int, w as int),
        (SortView::Field(f), SortView::Field(g)) => field_rank(f, g),
        (SortView::Tuple(s), SortView::Tuple(t)) => sorts_rank(s, t),
        (SortView::Array(k, v, n), SortView::Array(l, w, m)) => match sort_rank(*k, *l) {
            Rank::Same => match sort_rank(*v, *w) {
                Rank::Same => int_rank(n as int, m as int),
                r => r,
            },
            r => r,
        },
        _ => int_rank(sort_tag(a), sort_tag(b)),
    }
}

/// The order on sequences of sorts that goes by the first difference.
pub open spec fn sorts_rank(a: Seq<SortView>, b: Seq<SortView>) -> Rank
    decreases a,
{
    if a.len() == 0 || b.len() == 0 {
        int_rank(a.len() as int, b.len() as int)
    } else {
        match sort_rank(a[0], b[0]) {
            Rank::Same => sorts_rank(a.drop_first(), b.drop_first()),
            r => r,
        }
    }
}

/// Sorts that compare as the same are the same, and the order has two sides.
pub proof fn lemma_sort_rank(a: SortView, b: SortView)
    ensures
        (sort_rank(a, b) == Rank::Same) == (a == b),
        sort_rank(b, a) == flip(sort_rank(a, b)),
    decreases a,
{
    match (a, b) {
        (SortView::Tuple(s), SortView::Tuple(t)) => {
            lemma_sorts_rank(s, t);
        },
        (SortView::Array(k, v, n), SortView::Array(l, w, m)) => {
            lemma_sort_rank(*k, *l);
            lemma_sort_rank(*v, *w);
        },
        _ => {},
    }
}

/// The same of sequences.
proof fn lemma_sorts_rank(a: Seq<SortView>, b: Seq<SortView>)
    ensures
        (sorts_rank(a, b) == Rank::Same) == (a == b),
        sorts_rank(b, a) == flip(sorts_rank(a, b)),
    decreases a,
{
    if a.len() == 0 || b.len() == 0 {
        if a.len() == b.len() {
            assert(a =~= b);
        }
    } else {
        lemma_sort_rank(a[0], b[0]);
        lemma_sorts_rank(a.drop_first(), b.drop_first());
        assert(a =~= seq![a[0]] + a.drop_first());
        assert(b =~= seq![b[0]] + b.drop_first());
    }
}

/// The order on sorts is transitive.
pub proof fn lemma_sort_rank_chain(a: SortView, b: SortView, c: SortView)
    requires
        sort_rank(a, b) == Rank::Below,
        sort_rank(b, c) == Rank::Below,
    ensures
        sort_rank(a, c) == Rank::Below,
    decreases a,
{
    match (a, b, c) {
        (SortView::Tuple(s), SortView::Tuple(t), SortView::Tuple(u)) => {
            lemma_sorts_rank_chain(s, t, u);
        },
        (SortView::Array(k1, v1, _), SortView::Array(k2, v2, _), SortView::Array(k3, v3, _)) => {
            lemma_sort_rank(*k1, *k2);
            lemma_sort_rank(*k2, *k3);
            lemma_sort_rank(*v1, *v2);
            lemma_sort_rank(*v2, *v3);
            if sort_rank(*k1, *k2) == Rank::Below && sort_rank(*k2, *k3) == Rank::Below {
                lemma_sort_rank_chain(*k1, *k2, *k3);
            } else if sort_rank(*v1, *v2) == Rank::Below && sort_rank(*v2, *v3) == Rank::Below {
                lemma_sort_rank_chain(*v1, *v2, *v3);
            }
        },
        _ => {},
    }
}

/// The same of sequences.
proof fn lemma_sorts_rank_chain(a: Seq<SortView>, b: Seq<SortView>, c: Seq<SortView>)
    requires
        sorts_rank(a, b) == Rank::Below,
        sorts_rank(b, c) == Rank::Below,
    ensures
        sorts_rank(a, c) == Rank::Below,
    decreases a,
{
    if a.len() > 0 && b.len() > 0 && c.len() > 0 {
        lemma_sort_rank(a[0], b[0]);
        lemma_sort_rank(b[0], c[0]);
        if sort_rank(a[0], b[0]) == Rank::Below && sort_rank(b[0], c[0]) == Rank::Below {
            lemma_sort_rank_chain(a[0], b[0], c[0]);
        } else if sort_rank(a[0], b[0]) == Rank::Same && sort_rank(b[0], c[0]) == Rank::Same {
            lemma_sorts_rank_chain(a.drop_first(), b.drop_first(), c.drop_first());
        }
    }
}

/// How many keys there are of a sort, where they can be counted off.
pub open spec fn key_count(s: SortView) -> Option<nat> {
    match s {
        SortView::Bool => Some(2),
        SortView::BitVector(w) => Some(pow2(w)),
        SortView::Field(f) => Some(f.modulus()),
        _ => None,
    }
}

impl Clone for Sort {
    fn clone(&self) -> (r: Self)
        ensures
            r@ == self@,
        decreases self,
    {
        match self {
            Sort::Bool => Sort::Bool,
            Sort::BitVector(w) => Sort::BitVector(*w),
            Sort::Int => Sort::Int,
            Sort::Field(f) => Sort::Field(f.clone()),
            Sort::Tuple(v) => {
                let mut out: Vec<Sort> = Vec::new();
                let mut i: usize = 0;
                while i < v.len()
                    invariant
                        i <= v@.len(),
                        out@.len() == i,
                        forall|j: int| 0 <= j < i ==> sort_view(out@[j]) == sort_view(v@[j]),
                        *self == Sort::Tuple(*v),
                    decreases v@.len() - i,
                {
                    assert(decreases_to!(*self => self->Tuple_0));
                    assert(decreases_to!(*v => v@));
                    assert(decreases_to!(v@ => v@[i as int]));
                    out.push(v[i].clone());
                    i = i + 1;
                }
                assert(sort_views(out@) =~= sort_views(v@));
                Sort::Tuple(out)
            },
            Sort::Array(a) => Sort::Array(
                Box::new(
                    ArraySort { key: a.key.clone(), val: a.val.clone(), size: a.size },
                ),
            ),
        }
    }
}

/// How two machine integers compare.
pub fn usize_rank(a: usize, b: usize) -> (r: Rank)
    ensures
        r == int_rank(a as int, b as int),
{
    if a < b {
        Rank::Below
    } else if a == b {
        Rank::Same
    } else {
        Rank::Above
    }
}

impl Sort {
    /// The number of the kind of sort.
    fn tag(&self) -> (r: usize)
        ensures
            r == sort_tag(self@),
    {
        match self {
            Sort::Bool => 0,
            Sort::BitVector(_) => 1,
            Sort::Int => 2,
            Sort::Field(_) => 3,
            Sort::Tuple(_) => 4,
            Sort::Array(_) => 5,
        }
    }

    /// How two sorts compare.
    pub fn compare(&self, other: &Sort) -> (r: Rank)
        ensures
            r == sort_rank(self@, other@),
        decreases self,
    {
        match (self, other) {
            (Sort::BitVector(v), Sort::BitVector(w)) => usize_rank(*v, *w),
            (Sort::Field(f), Sort::Field(g)) => f.compare(g),
            (Sort::Tuple(s), Sort::Tuple(t)) => {
                let mut i: usize = 0;
                assert(sort_views(s@).skip(0) =~= sort_views(s@));
                assert(sort_views(t@).skip(0) =~= sort_views(t@));
                while i < s.len() && i < t.len()
                    invariant
                        i <= s@.len(),
                        i <= t@.len(),
                        *self == Sort::Tuple(*s),
                        *other == Sort::Tuple(*t),
                        sorts_rank(sort_views(s@), sort_views(t@)) == sorts_rank(
                            sort_views(s@).skip(i as int),
                            sort_views(t@).skip(i as int),
                        ),
                    decreases s@.len() - i,
                {
                    let r: Rank = s[i].compare(&t[i]);
                    proof {
                        let x = sort_views(s@).skip(i as int);
                        let y = sort_views(t@).skip(i as int);
                        assert(x[0] == s@[i as int]@);
                        assert(y[0] == t@[i as int]@);
                        assert(x.drop_first() =~= sort_views(s@).skip(i + 1));
                        assert(y.drop_first() =~= sort_views(t@).skip(i + 1));
                    }
                    match r {
                        Rank::Same => {},
                        _ => {
                            return r;
                        },
                    }
                    i = i + 1;
                }
                usize_rank(s.len(), t.len())
            },
            (Sort::Array(a), Sort::Array(b)) => match a.key.compare(&b.key) {
                Rank::Same => match a.val.compare(&b.val) {
                    Rank::Same => usize_rank(a.size, b.size),
                    r => r,
                },
                r => r,
            },
            _ => usize_rank(self.tag(), other.tag()),
        }
    }

    /// Whether two sorts are the same.
    pub fn same(&self, other: &Sort) -> (r: bool)
        ensures
            r == (self@ == other@),
    {
        proof {
            lemma_sort_rank(self@, other@);
        }
        match self.compare(other) {
            Rank::Same => true,
            _ => false,
        }
    }

    /// How many keys of this sort there are, at most `limit`; nothing where they cannot be
    /// counted off.
    pub fn keys_up_to(&self, limit: usize) -> (r: Option<usize>)
        ensures
            r == (match key_count(self@) {
                Some(n) => Some(
                    if n < limit {
                        n as usize
                    } else {
                        limit
                    },
                ),
                None => None,
            }),
    {
        let count: BigNat = match self {
            Sort::Bool => BigNat::from_u128(2),
            Sort::BitVector(w) => {
                if *w >= usize::BITS as usize {
                    proof {
                        lemma_pow2_exceeds_usize(*w as nat);
                    }
                    return Some(limit);
                }
                power_of_two(*w)
            },
            Sort::Field(f) => f.modulus(),
            _ => {
                return None;
            },
        };
        match count.to_usize() {
            Some(n) if n < limit => Some(n),
            _ => Some(limit),
        }
    }
}

/// A power of two with as many digits as a machine word is out of its range.
proof fn lemma_pow2_exceeds_usize(w: nat)
    requires
        w >= usize::BITS,
    ensures
        pow2(w) > usize::MAX,
{
    lemma2_to64();
    lemma_pow2_monotone(usize::BITS as nat, w);
    assert(pow2(32) > 0xffff_ffff);
    assert(pow2(64) > 0xffff_ffff_ffff_ffff);
}

} // verus!
