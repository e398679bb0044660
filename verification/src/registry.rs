//! Values kept by silo name.
use vstd::prelude::*;
use crate::text;

verus! {

/// A map from silo names to values. The names keep the order in which they came.
pub struct Registry<V> {
    entries: Vec<(String, V)>,
}

impl<V> View for Registry<V> {
    type V = Map<Seq<char>, V>;

    closed spec fn view(&self) -> Map<Seq<char>, V> {
        Map::new(
            |name: Seq<char>| self.names().contains(name),
            |name: Seq<char>| self.entries@[self.names().index_of(name)].1,
        )
    }
}

impl<V> Registry<V> {
    /// The names in the order in which they came.
    pub closed spec fn names(&self) -> Seq<Seq<char>> {
        self.entries@.map_values(|e: (String, V)| e.0@)
    }

    /// No name occurs twice.
    pub closed spec fn wf(&self) -> bool {
        self.names().no_duplicates()
    }

    /// The names are those that the map holds a value for, each once.
    pub proof fn lemma_names(&self)
        requires
            self.wf(),
        ensures
            self.names().no_duplicates(),
            forall|name: Seq<char>| self.names().contains(name) <==> #[trigger] self@.contains_key(name),
    {
    }

    /// The value at an index is the one that the name at that index has.
    proof fn lemma_at(&self, i: int)
        requires
            self.wf(),
            0 <= i < self.entries@.len(),
        ensures
            self@.contains_key(self.entries@[i].0@),
            self@[self.entries@[i].0@] == self.entries@[i].1,
    {
        let name = self.names()[i];
        assert(self.names().contains(name));
        let j = self.names().index_of(name);
        assert(self.names()[j] == name);
    }

    /// Replacing an entry by one of the same name changes the value of that name alone.
    proof fn lemma_replaced(before: Self, after: Self, i: int)
        requires
            before.wf(),
            0 <= i < before.entries@.len(),
            after.entries@ == before.entries@.update(i, after.entries@[i]),
            after.entries@[i].0@ == before.entries@[i].0@,
        ensures
            after.wf(),
            after.names() == before.names(),
            before@.contains_key(before.entries@[i].0@),
            after@ == before@.insert(before.entries@[i].0@, after.entries@[i].1),
    {
        let name = before.entries@[i].0@;
        assert(after.names() =~= before.names());
        before.lemma_at(i);
        after.lemma_at(i);
        assert(after@ =~= before@.insert(name, after.entries@[i].1)) by {
            assert forall|other: Seq<char>| #[trigger]
                after@.contains_key(other) && other != name implies after@[other]
                == before@[other] by {
                let j = after.names().index_of(other);
                assert(after.names()[j] == other);
            }
        }
    }

    /// An entry at the end adds its name.
    proof fn lemma_pushed(before: Self, after: Self, e: (String, V))
        requires
            before.wf(),
            !before.names().contains(e.0@),
            after.entries@ == before.entries@.push(e),
        ensures
            after.wf(),
            after.names() == before.names().push(e.0@),
            !before@.contains_key(e.0@),
            after@ == before@.insert(e.0@, e.1),
    {
        let n = before.entries@.len() as int;
        assert(after.names() =~= before.names().push(e.0@));
        after.lemma_at(n);
        assert(after@ =~= before@.insert(e.0@, e.1)) by {
            assert forall|other: Seq<char>| other != e.0@ implies (#[trigger] after@.contains_key(
                other,
            ) <==> before@.contains_key(other)) && (before@.contains_key(other) ==> after@[other]
                == before@[other]) by {
                if before.names().contains(other) {
                    let j = before.names().index_of(other);
                    assert(after.names()[j] == other);
                    before.lemma_at(j);
                    after.lemma_at(j);
                } else if after.names().contains(other) {
                    let j = after.names().index_of(other);
                    assert(after.names()[j] == other);
                    assert(j < n);
                    assert(before.names()[j] == other);
                }
            }
        }
    }

    /// A map without entries.
    pub fn new() -> (r: Self)
        ensures
            r.wf(),
            r@ == Map::<Seq<char>, V>::empty(),
            r.names() == Seq::<Seq<char>>::empty(),
    {
        let r = Registry { entries: Vec::new() };
        assert(r.names() =~= Seq::<Seq<char>>::empty());
        assert(r@ =~= Map::<Seq<char>, V>::empty());
        r
    }

    /// How many names there are.
    pub fn len(&self) -> (r: usize)
        ensures
            r == self.names().len(),
    {
        self.entries.len()
    }

    /// The name at an index.
    pub fn name_at(&self, i: usize) -> (r: &String)
        requires
            i < self.names().len(),
        ensures
            r@ == self.names()[i as int],
    {
        &self.entries[i].0
    }

    /// The index of a name.
    fn find(&self, name: &str) -> (r: Option<usize>)
        requires
            self.wf(),
        ensures
            match r {
                Some(i) => i < self.entries@.len() && self.entries@[i as int].0@ == name@,
                None => !self.names().contains(name@),
            },
    {
        let mut i: usize = 0;
        while i < self.entries.len()
            invariant
                i <= self.entries.len(),
                forall|j: int| 0 <= j < i ==> self.entries@[j].0@ != name@,
            decreases self.entries.len() - i,
        {
            if text::same(self.entries[i].0.as_str(), name) {
                return Some(i);
            }
            i = i + 1;
        }
        assert(forall|j: int| 0 <= j < self.names().len() ==> self.names()[j] != name@);
        None
    }

    /// The value that a name has.
    pub fn get(&self, name: &str) -> (r: Option<&V>)
        requires
            self.wf(),
        ensures
            match r {
                Some(v) => self@.contains_key(name@) && *v == self@[name@],
                None => !self@.contains_key(name@),
            },
    {
        match self.find(name) {
            Some(i) => {
                proof {
                    self.lemma_at(i as int);
                }
                Some(&self.entries[i].1)
            },
            None => None,
        }
    }

    /// The value that a name has, to change in place.
    pub fn get_mut(&mut self, name: &str) -> (r: Option<&mut V>)
        requires
            old(self).wf(),
        ensures
            final(self).wf(),
            final(self).names() == old(self).names(),
            match r {
                Some(v) => {
                    &&& old(self)@.contains_key(name@)
                    &&& *v == old(self)@[name@]
                    &&& final(self)@ == old(self)@.insert(name@, *final(v))
                },
                None => !old(self)@.contains_key(name@) && final(self)@ == old(self)@,
            },
    {
        match self.find(name) {
            Some(i) => {
                let ghost before = *self;
                proof {
                    before.lemma_at(i as int);
                    assert forall|after: Self|
                        after.entries@ == before.entries@.update(
                            i as int,
                            #[trigger] after.entries@[i as int],
                        ) && after.entries@[i as int].0 == before.entries@[i as int].0 implies {
                        &&& after.wf()
                        &&& after.names() == before.names()
                        &&& after@ == before@.insert(name@, after.entries@[i as int].1)
                    } by {
                        Self::lemma_replaced(before, after, i as int);
                    }
                }
                Some(&mut self.entries[i].1)
            },
            None => None,
        }
    }

    /// Gives `name` the value `value`, in place of the one that it had.
    pub fn insert(&mut self, name: &str, value: V)
        requires
            old(self).wf(),
        ensures
            final(self).wf(),
            final(self)@ == old(self)@.insert(name@, value),
            final(self).names() == if old(self)@.contains_key(name@) {
                old(self).names()
            } else {
                old(self).names().push(name@)
            },
    {
        match self.find(name) {
            Some(i) => {
                let ghost before = *self;
                self.entries[i] = (name.to_owned(), value);
                proof {
                    Self::lemma_replaced(before, *self, i as int);
                }
            },
            None => {
                let ghost before = *self;
                self.entries.push((name.to_owned(), value));
                proof {
                    Self::lemma_pushed(before, *self, self.entries@.last());
                }
            },
        }
    }
}

} // verus!
