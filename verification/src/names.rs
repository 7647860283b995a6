//! A map from names to values.

use vstd::prelude::*;

verus! {

/// A value that can be copied into an equal one.
pub trait Duplicate: View + Sized {
    /// A value with the same view.
    fn duplicate(&self) -> (r: Self)
        ensures
            r@ == self@,
    ;
}

impl Duplicate for u64 {
    fn duplicate(&self) -> (r: Self) {
        *self
    }
}

impl Duplicate for String {
    fn duplicate(&self) -> (r: Self) {
        self.clone()
    }
}

/// A map from names to values, seen as the map from the names' texts to the
/// values' views. It also has an order: that in which the names came in.
pub struct NameMap<V: View> {
    entries: Vec<(String, V)>,
}

impl<V: View> View for NameMap<V> {
    type V = Map<Seq<char>, V::V>;

    closed spec fn view(&self) -> Map<Seq<char>, V::V> {
        Map::new(
            |name: Seq<char>| self.order().contains(name),
            |name: Seq<char>| self.entries@[self.order().index_of(name)].1@,
        )
    }
}

impl<V: View> NameMap<V> {
    /// The names in the order in which they came in.
    pub closed spec fn order(&self) -> Seq<Seq<char>> {
        self.entries@.map_values(|e: (String, V)| e.0@)
    }

    #[verifier::type_invariant]
    spec fn names_differ(self) -> bool {
        self.order().no_duplicates()
    }

    proof fn lemma_entry(self, i: int)
        requires
            self.names_differ(),
            0 <= i < self.entries@.len(),
        ensures
            self@.contains_key(self.entries@[i].0@),
            self@[self.entries@[i].0@] == self.entries@[i].1@,
            self.order()[i] == self.entries@[i].0@,
    {
        let name = self.entries@[i].0@;
        assert(self.order()[i] == name);
        assert(self.order().contains(name));
    }

    /// The map that holds nothing.
    pub fn new() -> (r: Self)
        ensures
            r@ == Map::<Seq<char>, V::V>::empty(),
            r.order() == Seq::<Seq<char>>::empty(),
    {
        let r = NameMap { entries: Vec::new() };
        assert(r.order() == Seq::<Seq<char>>::empty());
        assert(r@ == Map::<Seq<char>, V::V>::empty());
        r
    }

    /// Where `name` stands in the order.
    fn position(&self, name: &str) -> (r: Option<usize>)
        ensures
            match r {
                Some(i) => i < self.entries@.len() && self.entries@[i as int].0@ == name@
                    && self.order()[i as int] == name@ && self@.contains_key(name@),
                None => !self@.contains_key(name@) && !self.order().contains(name@),
            },
    {
        proof {
            use_type_invariant(self);
        }
        let wanted: String = name.to_owned();
        let mut i: usize = 0;
        while i < self.entries.len()
            invariant
                wanted@ == name@,
                i <= self.entries.len(),
                self.names_differ(),
                forall|j: int| 0 <= j < i ==> #[trigger] self.order()[j] != name@,
            decreases self.entries.len() - i,
        {
            if self.entries[i].0 == wanted {
                proof {
                    self.lemma_entry(i as int);
                }
                return Some(i);
            }
            i = i + 1;
        }
        assert(!self.order().contains(name@));
        None
    }

    /// The value of `name`.
    pub fn get(&self, name: &str) -> (r: Option<&V>)
        ensures
            match r {
                Some(v) => self@.contains_key(name@) && v@ == self@[name@],
                None => !self@.contains_key(name@),
            },
    {
        proof {
            use_type_invariant(self);
        }
        match self.position(name) {
            Some(i) => {
                proof {
                    self.lemma_entry(i as int);
                }
                Some(&self.entries[i].1)
            },
            None => None,
        }
    }

    /// How many names there are. The order lists each of them once.
    pub fn len(&self) -> (r: usize)
        ensures
            r == self.order().len(),
            r == self@.len(),
            self.order().no_duplicates(),
            forall|name: Seq<char>| #[trigger]
                self@.contains_key(name) <==> self.order().contains(name),
    {
        proof {
            use_type_invariant(self);
            self.order().unique_seq_to_set();
            assert(self@.dom() == self.order().to_set());
        }
        self.entries.len()
    }

    /// The name and the value at place `i` of the order.
    pub fn entry(&self, i: usize) -> (r: (&String, &V))
        requires
            i < self.order().len(),
        ensures
            r.0@ == self.order()[i as int],
            self@.contains_key(r.0@),
            r.1@ == self@[r.0@],
    {
        proof {
            use_type_invariant(self);
            self.lemma_entry(i as int);
        }
        (&self.entries[i].0, &self.entries[i].1)
    }

    /// Gives `name` the value `value`. A new name goes to the end of the order.
    pub fn insert(&mut self, name: String, value: V)
        ensures
            final(self)@ == old(self)@.insert(name@, value@),
            final(self).order() == (if old(self)@.contains_key(name@) {
                old(self).order()
            } else {
                old(self).order().push(name@)
            }),
    {
        proof {
            use_type_invariant(&*self);
        }
        let place: Option<usize> = self.position(name.as_str());
        let ghost before = *self;
        let ghost text = name@;
        let mut entries: Vec<(String, V)> = Vec::new();
        std::mem::swap(&mut entries, &mut self.entries);
        match place {
            Some(i) => {
                entries.set(i, (name, value));
            },
            None => {
                entries.push((name, value));
            },
        }
        let ghost after = NameMap { entries };
        proof {
            if place is None {
                assert(after.order() == before.order().push(text));
            } else {
                assert(after.order() == before.order());
            }
            assert(after.names_differ());
            let k: int = match place {
                Some(i) => i as int,
                None => before.entries@.len() as int,
            };
            after.lemma_entry(k);
            assert forall|n: Seq<char>| #[trigger] after@.contains_key(n) == before@.insert(
                text,
                value@,
            ).contains_key(n) by {
                if before.order().contains(n) {
                    let j = before.order().index_of(n);
                    assert(after.order()[j] == n);
                }
            }
            assert forall|n: Seq<char>| after@.contains_key(n) && n != text implies #[trigger] after@[n]
                == before@[n] by {
                let j = before.order().index_of(n);
                after.lemma_entry(j);
                before.lemma_entry(j);
            }
            assert(after@ == before@.insert(text, value@));
        }
        self.entries = entries;
    }

    /// Takes `name` out. The other names keep their order.
    pub fn remove(&mut self, name: &str)
        ensures
            final(self)@ == old(self)@.remove(name@),
            final(self).order() == (if old(self)@.contains_key(name@) {
                old(self).order().remove(old(self).order().index_of(name@))
            } else {
                old(self).order()
            }),
    {
        proof {
            use_type_invariant(&*self);
        }
        let place: Option<usize> = self.position(name);
        match place {
            Some(i) => {
                let ghost before = *self;
                let mut entries: Vec<(String, V)> = Vec::new();
                std::mem::swap(&mut entries, &mut self.entries);
                let _gone = entries.remove(i);
                let ghost after = NameMap { entries };
                proof {
                    assert(after.order() == before.order().remove(i as int));
                    assert(before.order().index_of(name@) == i);
                    assert(after.names_differ());
                    assert forall|n: Seq<char>| #[trigger] after@.contains_key(n)
                        == before@.remove(name@).contains_key(n) by {
                        if before.order().contains(n) && n != name@ {
                            let j = before.order().index_of(n);
                            let k = if j < i {
                                j
                            } else {
                                j - 1
                            };
                            assert(after.order()[k] == n);
                        }
                        if after.order().contains(n) {
                            let j = after.order().index_of(n);
                            let k = if j < i {
                                j
                            } else {
                                j + 1
                            };
                            assert(before.order()[k] == n);
                        }
                    }
                    assert forall|n: Seq<char>| after@.contains_key(n) implies #[trigger] after@[n]
                        == before@[n] by {
                        let j = after.order().index_of(n);
                        let k = if j < i {
                            j
                        } else {
                            j + 1
                        };
                        after.lemma_entry(j);
                        before.lemma_entry(k);
                    }
                    assert(after@ == before@.remove(name@));
                }
                self.entries = entries;
            },
            None => {
                assert(self@ == self@.remove(name@));
            },
        }
    }
}

impl<V: Duplicate> NameMap<V> {
    /// A map with the same contents in the same order.
    pub fn duplicate(&self) -> (r: Self)
        ensures
            r@ == self@,
            r.order() == self.order(),
    {
        let mut out: NameMap<V> = NameMap::new();
        let n: usize = self.len();
        let mut i: usize = 0;
        while i < n
            invariant
                n == self.order().len(),
                self.order().no_duplicates(),
                i <= n,
                out.order() == self.order().take(i as int),
                forall|name: Seq<char>| #[trigger]
                    out@.contains_key(name) <==> self.order().take(i as int).contains(name),
                forall|name: Seq<char>| #[trigger]
                    out@.contains_key(name) ==> self@.contains_key(name) && out@[name]
                        == self@[name],
            decreases n - i,
        {
            let e: (&String, &V) = self.entry(i);
            let ghost seen = self.order().take(i as int);
            let ghost more = self.order().take(i + 1);
            assert(!seen.contains(e.0@));
            assert(more == seen.push(e.0@));
            out.insert(e.0.clone(), e.1.duplicate());
            proof {
                assert forall|name: Seq<char>| #[trigger] out@.contains_key(name)
                    <==> more.contains(name) by {
                    if seen.contains(name) {
                        assert(more[seen.index_of(name)] == name);
                    }
                    assert(more[i as int] == e.0@);
                }
            }
            i = i + 1;
        }
        assert(self.order().take(n as int) == self.order());
        assert(out@ == self@);
        out
    }
}

} // verus!
