//! The names in scope and their types.

use crate::types::Type;
use vstd::prelude::*;

verus! {

/// The map that a list of bindings stands for: a later binding of a name
/// hides an earlier one.
pub open spec fn bindings_map(bindings: Seq<(String, Type)>) -> Map<Seq<char>, Type>
    decreases bindings.len(),
{
    if bindings.len() == 0 {
        Map::empty()
    } else {
        bindings_map(bindings.drop_last()).insert(bindings.last().0@, bindings.last().1)
    }
}

/// A mapping from names to types. An environment is never changed: binding
/// a name gives a new environment and leaves the old one as it was.
pub struct Environment {
    bindings: Vec<(String, Type)>,
}

impl View for Environment {
    type V = Map<Seq<char>, Type>;

    closed spec fn view(&self) -> Map<Seq<char>, Type> {
        bindings_map(self.bindings@)
    }
}

impl Environment {
    /// The environment that binds no name.
    pub fn new() -> (result: Environment)
        ensures
            result@ == Map::<Seq<char>, Type>::empty(),
    {
        Environment { bindings: Vec::new() }
    }

    /// The type bound to `name`, if there is one.
    pub fn get(&self, name: &String) -> (result: Option<&Type>)
        ensures
            match result {
                Some(found) => self@.contains_key(name@) && *found == self@[name@],
                None => !self@.contains_key(name@),
            },
    {
        let mut found: Option<&Type> = None;
        let mut i: usize = 0;
        while i < self.bindings.len()
            invariant
                i <= self.bindings.len(),
                match found {
                    Some(t) => bindings_map(self.bindings@.take(i as int)).contains_key(name@)
                        && *t == bindings_map(self.bindings@.take(i as int))[name@],
                    None => !bindings_map(self.bindings@.take(i as int)).contains_key(name@),
                },
            decreases self.bindings.len() - i,
        {
            proof {
                assert(self.bindings@.take(i + 1).drop_last() == self.bindings@.take(i as int));
            }
            if self.bindings[i].0 == *name {
                found = Some(&self.bindings[i].1);
            }
            i = i + 1;
        }
        proof {
            assert(self.bindings@.take(i as int) == self.bindings@);
        }
        found
    }

    /// A copy of the environment in which `name` is bound to `type_`.
    pub fn extended(&self, name: String, type_: Type) -> (result: Environment)
        ensures
            result@ == self@.insert(name@, type_),
    {
        let mut bindings: Vec<(String, Type)> = Vec::new();
        let mut i: usize = 0;
        while i < self.bindings.len()
            invariant
                i <= self.bindings.len(),
                bindings_map(bindings@) == bindings_map(self.bindings@.take(i as int)),
            decreases self.bindings.len() - i,
        {
            let ghost before = bindings@;
            bindings.push((self.bindings[i].0.clone(), self.bindings[i].1.clone()));
            proof {
                assert(bindings@.drop_last() == before);
                assert(self.bindings@.take(i + 1).drop_last() == self.bindings@.take(i as int));
            }
            i = i + 1;
        }
        proof {
            assert(self.bindings@.take(i as int) == self.bindings@);
        }
        let ghost copied = bindings@;
        bindings.push((name, type_));
        proof {
            assert(bindings@.drop_last() == copied);
        }
        Environment { bindings }
    }
}

} // verus!
