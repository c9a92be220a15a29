//! Terms: operators applied to terms, held in a table.

use crate::op::Op;
use std::collections::HashMap;
use vstd::prelude::*;

verus! {

/// A term: its place in a table.
#[derive(Clone, Copy, Debug, PartialEq, Eq, Structural)]
pub struct Term {
    id: usize,
}

impl View for Term {
    type V = usize;

    closed spec fn view(&self) -> usize {
        self.id
    }
}

impl Term {
    /// The place in the table.
    pub fn place(&self) -> (r: usize)
        ensures
            r == self@,
    {
        self.id
    }
}

/// An operator and the terms that it is applied to.
#[derive(Debug)]
struct Node {
    op: Op,
    cs: Vec<Term>,
}

/// What stands at one place of a table.
pub struct NodeView {
    pub op: Op,
    pub cs: Seq<usize>,
}

/// The places of several terms.
pub open spec fn term_views(s: Seq<Term>) -> Seq<usize> {
    Seq::new(s.len(), |i: int| s[i]@)
}

/// A table of terms. The terms that an operator is applied to stand before it.
#[derive(Debug)]
pub struct TermTable {
    nodes: Vec<Node>,
}

impl View for TermTable {
    type V = Seq<NodeView>;

    closed spec fn view(&self) -> Seq<NodeView> {
        Seq::new(
            self.nodes@.len(),
            |i: int| NodeView { op: self.nodes@[i].op, cs: term_views(self.nodes@[i].cs@) },
        )
    }
}

impl TermTable {
    /// A table without terms.
    pub fn new() -> (r: TermTable)
        ensures
            r@ == Seq::<NodeView>::empty(),
    {
        let r: TermTable = TermTable { nodes: Vec::new() };
        assert(r@ =~= Seq::empty());
        r
    }

    /// How many terms there are.
    pub fn len(&self) -> (r: usize)
        ensures
            r == self@.len(),
    {
        self.nodes.len()
    }

    /// Adds the term of `op` applied to `cs`.
    pub fn term(&mut self, op: Op, cs: Vec<Term>) -> (r: Term)
        requires
            forall|i: int| 0 <= i < cs@.len() ==> (#[trigger] cs@[i])@ < old(self)@.len(),
        ensures
            final(self)@ == old(self)@.push(NodeView { op, cs: term_views(cs@) }),
            r@ == old(self)@.len(),
    {
        let id: usize = self.nodes.len();
        self.nodes.push(Node { op, cs });
        assert(self@ =~= old(self)@.push(NodeView { op, cs: term_views(cs@) }));
        Term { id }
    }

    /// The operator of a term.
    pub fn op(&self, t: Term) -> (r: &Op)
        requires
            t@ < self@.len(),
        ensures
            *r == self@[t@ as int].op,
    {
        &self.nodes[t.id].op
    }

    /// The terms that the operator of a term is applied to.
    pub fn cs(&self, t: Term) -> (r: &Vec<Term>)
        requires
            t@ < self@.len(),
        ensures
            term_views(r@) == self@[t@ as int].cs,
    {
        &self.nodes[t.id].cs
    }
}

/// A map from terms.
#[verifier::reject_recursive_types(V)]
pub struct TermMap<V> {
    map: HashMap<usize, V>,
}

impl<V> View for TermMap<V> {
    type V = Map<usize, V>;

    closed spec fn view(&self) -> Map<usize, V> {
        self.map@
    }
}

impl<V> TermMap<V> {
    /// The map without entries.
    pub fn new() -> (r: TermMap<V>)
        ensures
            r@ == Map::<usize, V>::empty(),
    {
        TermMap { map: HashMap::new() }
    }

    /// Whether a term has an entry.
    pub fn contains_key(&self, t: Term) -> (r: bool)
        ensures
            r == self@.contains_key(t@),
    {
        broadcast use vstd::std_specs::hash::group_hash_axioms;

        self.map.contains_key(&t.id)
    }

    /// The entry of a term.
    pub fn get(&self, t: Term) -> (r: Option<&V>)
        ensures
            match r {
                Some(v) => self@.contains_key(t@) && *v == self@[t@],
                None => !self@.contains_key(t@),
            },
    {
        broadcast use vstd::std_specs::hash::group_hash_axioms;

        self.map.get(&t.id)
    }

    /// Sets the entry of a term.
    pub fn insert(&mut self, t: Term, v: V)
        ensures
            final(self)@ == old(self)@.insert(t@, v),
    {
        broadcast use vstd::std_specs::hash::group_hash_axioms;

        self.map.insert(t.id, v);
    }
}

} // verus!
