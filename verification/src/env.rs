//! Environments: the values of variables.

use crate::value::{Value, ValueView};
use vstd::hash_map::StringHashMap;
use vstd::prelude::*;

verus! {

/// The values of variables, by their names.
pub struct Env {
    map: StringHashMap<Value>,
}

impl View for Env {
    type V = Map<Seq<char>, ValueView>;

    closed spec fn view(&self) -> Map<Seq<char>, ValueView> {
        self.map@.map_values(|v: Value| v@)
    }
}

impl Env {
    /// No variable has a value.
    pub fn new() -> (r: Env)
        ensures
            r@ == Map::<Seq<char>, ValueView>::empty(),
    {
        let r: Env = Env { map: StringHashMap::new() };
        assert(r@ =~= Map::empty());
        r
    }

    /// Gives a variable a value, in place of the one that it had.
    pub fn insert(&mut self, name: String, v: Value)
        ensures
            final(self)@ == old(self)@.insert(name@, v@),
    {
        self.map.insert(name, v);
        assert(self@ =~= old(self)@.insert(name@, v@));
    }

    /// The value of a variable.
    pub fn get(&self, name: &str) -> (r: Option<&Value>)
        ensures
            match r {
                Some(v) => self@.contains_key(name@) && v@ == self@[name@],
                None => !self@.contains_key(name@),
            },
    {
        self.map.get(name)
    }
}

} // verus!
