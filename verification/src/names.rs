//! A map from names to values that remembers in which order the names came.
use vstd::prelude::*;

use crate::text::str_eq;

verus! {

/// A map from names to values. Walking it gives the names in the order in which they first came.
pub struct NameMap<T> {
    entries: Vec<(String, T)>,
}

impl<T: View> View for NameMap<T> {
    type V = Map<Seq<char>, T::V>;

    closed spec fn view(&self) -> Map<Seq<char>, T::V> {
        Map::new(
            |name: Seq<char>| self.order().contains(name),
            |name: Seq<char>| self.entries@[self.order().index_of(name)].1@,
        )
    }
}

impl<T> NameMap<T> {
    /// The names, in the order in which they first came.
    pub closed spec fn order(&self) -> Seq<Seq<char>> {
        Seq::new(self.entries@.len(), |i: int| self.entries@[i].0@)
    }

    /// No name stands twice.
    #[verifier::type_invariant]
    spec fn distinct(self) -> bool {
        self.order().no_duplicates()
    }
}

/// A name stands in a row without repetitions at one place.
proof fn lemma_index_of(names: Seq<Seq<char>>, i: int)
    requires
        names.no_duplicates(),
        0 <= i < names.len(),
    ensures
        names.index_of(names[i]) == i,
        names.contains(names[i]),
{
}

impl<T: View> NameMap<T> {
    /// A map without names.
    pub fn new() -> (r: Self)
        ensures
            r@ == Map::<Seq<char>, T::V>::empty(),
            r.order() == Seq::<Seq<char>>::empty(),
    {
        let r: NameMap<T> = NameMap { entries: Vec::new() };
        assert(r@ =~= Map::<Seq<char>, T::V>::empty());
        r
    }

    /// How many names there are. Each name with a value stands in the order once.
    pub fn len(&self) -> (n: usize)
        ensures
            n == self.order().len(),
            self.order().no_duplicates(),
            forall|name: Seq<char>|
                self.order().contains(name) <==> #[trigger] self@.contains_key(name),
    {
        proof {
            use_type_invariant(self);
        }
        self.entries.len()
    }

    /// Where a name stands in the order.
    fn position(&self, name: &str) -> (r: Option<usize>)
        ensures
            match r {
                Some(i) => i < self.order().len() && self.order()[i as int] == name@,
                None => !self.order().contains(name@),
            },
    {
        let mut i: usize = 0;
        while i < self.entries.len()
            invariant
                i <= self.entries@.len(),
                forall|k: int| 0 <= k < i ==> self.order()[k] != name@,
            decreases self.entries.len() - i,
        {
            if str_eq(self.entries[i].0.as_str(), name) {
                return Some(i);
            }
            i = i + 1;
        }
        None
    }

    /// The value of a name.
    pub fn get(&self, name: &str) -> (r: Option<&T>)
        ensures
            match r {
                Some(value) => self@.contains_key(name@) && self@[name@] == value@,
                None => !self@.contains_key(name@),
            },
    {
        proof {
            use_type_invariant(self);
        }
        match self.position(name) {
            Some(i) => {
                proof {
                    lemma_index_of(self.order(), i as int);
                }
                Some(&self.entries[i].1)
            },
            None => None,
        }
    }

    /// Whether there is a value for a name.
    pub fn contains_key(&self, name: &str) -> (r: bool)
        ensures
            r == self@.contains_key(name@),
    {
        self.get(name).is_some()
    }

    /// The name at place `i` of the order, and its value.
    pub fn entry(&self, i: usize) -> (r: (&String, &T))
        requires
            i < self.order().len(),
        ensures
            r.0@ == self.order()[i as int],
            self@.contains_key(r.0@),
            self@[r.0@] == r.1@,
    {
        proof {
            use_type_invariant(self);
            lemma_index_of(self.order(), i as int);
        }
        (&self.entries[i].0, &self.entries[i].1)
    }

    /// Gives a name a value, in place of the one it had.
    pub fn insert(&mut self, name: String, value: T)
        ensures
            final(self)@ == old(self)@.insert(name@, value@),
            final(self).order() == (if old(self)@.contains_key(name@) {
                old(self).order()
            } else {
                old(self).order().push(name@)
            }),
    {
        proof {
            use_type_invariant(&*self);
        }
        let at: Option<usize> = self.position(name.as_str());
        let mut entries: Vec<(String, T)> = Vec::new();
        core::mem::swap(&mut entries, &mut self.entries);
        let ghost before = NameMap { entries };
        let ghost key = name@;
        let ghost view = value@;
        match at {
            Some(i) => {
                entries.set(i, (name, value));
            },
            None => {
                entries.push((name, value));
            },
        }
        let ghost after = NameMap { entries };
        proof {
            if at is Some {
                assert(after.order() =~= before.order());
            } else {
                assert(after.order() =~= before.order().push(key));
            }
            assert(after.order().no_duplicates());
            assert forall|name: Seq<char>| #[trigger] after@.contains_key(name)
                <==> before@.insert(key, view).contains_key(name) by {
                if before.order().contains(name) {
                    let i = before.order().index_of(name);
                    assert(after.order()[i] == name);
                }
                if name == key {
                    if at is Some {
                        assert(after.order()[at->0 as int] == name);
                    } else {
                        assert(after.order().last() == name);
                    }
                }
            }
            assert forall|name: Seq<char>| #[trigger] after@.contains_key(name) implies after@[name]
                == before@.insert(key, view)[name] by {
                let i = after.order().index_of(name);
                assert(after.order().contains(name));
                assert(0 <= i < after.order().len() && after.order()[i] == name);
                if name == key {
                    let j = if at is Some { at->0 as int } else { before.order().len() as int };
                    assert(after.order()[j] == name);
                    assert(i == j);
                } else {
                    assert(before.order()[i] == name);
                    lemma_index_of(before.order(), i);
                }
            }
            assert(after@ =~= before@.insert(key, view));
        }
        self.entries = entries;
    }
}

} // verus!
