//! The variables of one procedure activation.
use vstd::prelude::*;
use crate::number::Number;

verus! {

/// The value that a list of bindings gives to a name: a later binding
/// shadows an earlier one of the same name.
pub open spec fn lookup(entries: Seq<(String, Number)>, name: Seq<char>) -> Option<Number>
    decreases entries.len(),
{
    if entries.len() == 0 {
        None
    } else if entries.last().0@ == name {
        Some(entries.last().1)
    } else {
        lookup(entries.drop_last(), name)
    }
}

/// A mapping from variable names to values.
pub struct Environment {
    entries: Vec<(String, Number)>,
}

impl View for Environment {
    type V = Map<Seq<char>, Number>;

    closed spec fn view(&self) -> Map<Seq<char>, Number> {
        Map::new(
            |name: Seq<char>| lookup(self.entries@, name) is Some,
            |name: Seq<char>| lookup(self.entries@, name)->0,
        )
    }
}

impl Environment {
    /// An environment that binds nothing.
    pub fn new() -> (env: Environment)
        ensures
            env@ == Map::<Seq<char>, Number>::empty(),
    {
        let env = Environment { entries: Vec::new() };
        assert(env@ =~= Map::<Seq<char>, Number>::empty());
        env
    }

    /// Binds `name` to `value`, in place of what it was bound to before.
    pub fn insert(&mut self, name: String, value: Number)
        ensures
            final(self)@ == old(self)@.insert(name@, value),
    {
        self.entries.push((name, value));
        proof {
            assert(self.entries@.drop_last() =~= old(self).entries@);
            assert(self@ =~= old(self)@.insert(name@, value));
        }
    }

    /// The value of `name`, if it is bound.
    pub fn get(&self, name: &String) -> (value: Option<Number>)
        ensures
            value == if self@.contains_key(name@) {
                Some(self@[name@])
            } else {
                None
            },
    {
        let mut i: usize = self.entries.len();
        assert(self.entries@.take(i as int) =~= self.entries@);
        while i > 0
            invariant
                i <= self.entries.len(),
                lookup(self.entries@, name@) == lookup(self.entries@.take(i as int), name@),
            decreases i,
        {
            if self.entries[i - 1].0 == *name {
                return Some(self.entries[i - 1].1);
            }
            proof {
                assert(self.entries@.take(i as int).drop_last() =~= self.entries@.take(i - 1));
            }
            i = i - 1;
        }
        None
    }

    /// Whether `name` is bound.
    pub fn contains(&self, name: &String) -> (bound: bool)
        ensures
            bound == self@.contains_key(name@),
    {
        self.get(name).is_some()
    }

    /// Takes the binding of `name` away, if there is one.
    pub fn remove(&mut self, name: &String)
        ensures
            final(self)@ == old(self)@.remove(name@),
    {
        let mut kept: Vec<(String, Number)> = Vec::new();
        let mut i: usize = 0;
        while i < self.entries.len()
            invariant
                i <= self.entries.len(),
                forall|n: Seq<char>| #[trigger]
                    lookup(kept@, n) == if n == name@ {
                        None
                    } else {
                        lookup(self.entries@.take(i as int), n)
                    },
            decreases self.entries.len() - i,
        {
            let ghost before = kept@;
            proof {
                assert(self.entries@.take(i + 1).drop_last() =~= self.entries@.take(i as int));
            }
            if !(self.entries[i].0 == *name) {
                let entry_name = self.entries[i].0.clone();
                kept.push((entry_name, self.entries[i].1));
                proof {
                    assert(kept@.drop_last() =~= before);
                }
            }
            proof {
                let next = self.entries@.take(i + 1);
                assert(next.last() == self.entries@[i as int]);
                assert forall|n: Seq<char>| #[trigger]
                    lookup(kept@, n) == if n == name@ {
                        None
                    } else {
                        lookup(next, n)
                    } by {
                    assert(lookup(before, n) == if n == name@ {
                        None
                    } else {
                        lookup(next.drop_last(), n)
                    });
                }
            }
            i = i + 1;
        }
        proof {
            assert(self.entries@.take(i as int) =~= self.entries@);
        }
        self.entries = kept;
        proof {
            assert(self@ =~= old(self)@.remove(name@));
        }
    }
}

} // verus!
