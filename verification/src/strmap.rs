//! A map from strings to strings, kept as a list of entries with distinct keys.
use vstd::prelude::*;

verus! {

/// A finite map from strings to strings (shell variables, completion scripts).
pub struct StringMap {
    entries: Vec<(String, String)>,
}

/// The value that a map gives a key, or the empty string where it has none.
pub open spec fn lookup_or_empty(m: Map<Seq<char>, Seq<char>>, k: Seq<char>) -> Seq<char> {
    if m.dom().contains(k) {
        m[k]
    } else {
        Seq::empty()
    }
}

impl StringMap {
    #[verifier::type_invariant]
    spec fn keys_distinct(self) -> bool {
        forall|i: int, j: int|
            0 <= i < self.entries.len() && 0 <= j < self.entries.len() && i != j
                ==> #[trigger] self.entries@[i].0@ != #[trigger] self.entries@[j].0@
    }

    spec fn has_key_at(self, k: Seq<char>, i: int) -> bool {
        0 <= i < self.entries.len() && self.entries@[i].0@ == k
    }

    /// The map's contents.
    pub closed spec fn contents(self) -> Map<Seq<char>, Seq<char>> {
        Map::new(
            |k: Seq<char>| exists|i: int| self.has_key_at(k, i),
            |k: Seq<char>| self.entries@[choose|i: int| self.has_key_at(k, i)].1@,
        )
    }

    proof fn lemma_entry(self, i: int)
        requires
            self.keys_distinct(),
            0 <= i < self.entries.len(),
        ensures
            self.contents().dom().contains(self.entries@[i].0@),
            self.contents()[self.entries@[i].0@] == self.entries@[i].1@,
    {
        let k = self.entries@[i].0@;
        assert(self.has_key_at(k, i));
        let j = choose|j: int| self.has_key_at(k, j);
        assert(self.entries@[j].0@ == self.entries@[i].0@);
    }

    /// An empty map.
    pub fn new() -> (m: Self)
        ensures
            m@ == Map::<Seq<char>, Seq<char>>::empty(),
    {
        let m = StringMap { entries: Vec::new() };
        assert(m.contents() =~= Map::<Seq<char>, Seq<char>>::empty());
        m
    }

    /// The position of the entry with the given key.
    fn find(&self, key: &str) -> (r: Option<usize>)
        ensures
            match r {
                Some(i) => i < self.entries.len() && self.entries@[i as int].0@ == key@,
                None => !self@.dom().contains(key@),
            },
    {
        let k = key.to_owned();
        let mut i: usize = 0;
        while i < self.entries.len()
            invariant
                i <= self.entries.len(),
                k@ == key@,
                forall|j: int| 0 <= j < i ==> self.entries@[j].0@ != key@,
            decreases self.entries.len() - i,
        {
            if self.entries[i].0 == k {
                return Some(i);
            }
            i += 1;
        }
        None
    }

    /// The value of `key`, if the map has one.
    pub fn get(&self, key: &str) -> (r: Option<String>)
        ensures
            match r {
                Some(v) => self@.dom().contains(key@) && v@ == self@[key@],
                None => !self@.dom().contains(key@),
            },
    {
        proof {
            use_type_invariant(self);
        }
        match self.find(key) {
            Some(i) => {
                proof {
                    self.lemma_entry(i as int);
                }
                Some(self.entries[i].1.clone())
            },
            None => None,
        }
    }

    /// Sets `key` to `value`, replacing the value it had.
    pub fn insert(&mut self, key: String, value: String)
        ensures
            final(self)@ == old(self)@.insert(key@, value@),
    {
        proof {
            use_type_invariant(&*self);
        }
        let ghost old_map = self@;
        match self.find(key.as_str()) {
            Some(i) => {
                proof {
                    self.lemma_entry(i as int);
                }
                let ghost kv = key@;
                let ghost vv = value@;
                let mut entries = Vec::new();
                std::mem::swap(&mut entries, &mut self.entries);
                entries.set(i, (key, value));
                self.entries = entries;
                proof {
                    assert(self.has_key_at(kv, i as int));
                    assert forall|k: Seq<char>| #[trigger] self@.dom().contains(k) <==> old_map.insert(kv, vv).dom().contains(k) by {
                        if old_map.dom().contains(k) && k != kv {
                            let j = choose|j: int| old(self).has_key_at(k, j);
                            assert(self.has_key_at(k, j));
                        }
                        if self@.dom().contains(k) {
                            let j = choose|j: int| self.has_key_at(k, j);
                            if j != i {
                                assert(old(self).has_key_at(k, j));
                            }
                        }
                    }
                    assert forall|k: Seq<char>| #[trigger] self@.dom().contains(k) implies self@[k] == old_map.insert(kv, vv)[k] by {
                        let j = choose|j: int| self.has_key_at(k, j);
                        self.lemma_entry(j);
                        if j != i {
                            old(self).lemma_entry(j);
                        }
                    }
                    assert(self@ =~= old_map.insert(kv, vv));
                }
            },
            None => {
                let ghost kv = key@;
                let ghost vv = value@;
                let mut entries = Vec::new();
                std::mem::swap(&mut entries, &mut self.entries);
                proof {
                    assert forall|j: int| 0 <= j < entries.len() implies entries@[j].0@ != kv by {
                        if entries@[j].0@ == kv {
                            assert(old(self).has_key_at(kv, j));
                        }
                    }
                }
                entries.push((key, value));
                self.entries = entries;
                proof {
                    let n = self.entries.len() - 1;
                    assert forall|k: Seq<char>| #[trigger] self@.dom().contains(k) <==> old_map.insert(kv, vv).dom().contains(k) by {
                        if old_map.dom().contains(k) {
                            let j = choose|j: int| old(self).has_key_at(k, j);
                            assert(self.has_key_at(k, j));
                        }
                        if k == kv {
                            assert(self.has_key_at(k, n));
                        }
                        if self@.dom().contains(k) {
                            let j = choose|j: int| self.has_key_at(k, j);
                            if j != n {
                                assert(old(self).has_key_at(k, j));
                            }
                        }
                    }
                    assert forall|k: Seq<char>| #[trigger] self@.dom().contains(k) implies self@[k] == old_map.insert(kv, vv)[k] by {
                        let j = choose|j: int| self.has_key_at(k, j);
                        self.lemma_entry(j);
                        if j != n {
                            old(self).lemma_entry(j);
                        }
                    }
                    assert(self@ =~= old_map.insert(kv, vv));
                }
            },
        }
    }

    /// Removes `key` and its value, and returns the entry that was removed.
    pub fn remove_entry(&mut self, key: &str) -> (r: Option<(String, String)>)
        ensures
            final(self)@ == old(self)@.remove(key@),
            match r {
                Some(kv) => old(self)@.dom().contains(key@) && kv.0@ == key@ && kv.1@ == old(self)@[key@],
                None => !old(self)@.dom().contains(key@),
            },
    {
        proof {
            use_type_invariant(&*self);
        }
        let ghost old_map = self@;
        match self.find(key) {
            Some(i) => {
                proof {
                    self.lemma_entry(i as int);
                }
                let ghost old_entries = self.entries@;
                let mut entries = Vec::new();
                std::mem::swap(&mut entries, &mut self.entries);
                let kv = entries.remove(i);
                self.entries = entries;
                proof {
                    assert forall|k: Seq<char>| #[trigger] self@.dom().contains(k) <==> old_map.remove(key@).dom().contains(k) by {
                        if old_map.dom().contains(k) && k != key@ {
                            let j = choose|j: int| old(self).has_key_at(k, j);
                            if j < i {
                                assert(self.has_key_at(k, j));
                            } else {
                                assert(j != i);
                                assert(self.has_key_at(k, j - 1));
                            }
                        }
                        if self@.dom().contains(k) {
                            let j = choose|j: int| self.has_key_at(k, j);
                            if j < i {
                                assert(old(self).has_key_at(k, j));
                            } else {
                                assert(old(self).has_key_at(k, j + 1));
                            }
                        }
                    }
                    assert forall|k: Seq<char>| #[trigger] self@.dom().contains(k) implies self@[k] == old_map.remove(key@)[k] by {
                        let j = choose|j: int| self.has_key_at(k, j);
                        self.lemma_entry(j);
                        if j < i {
                            old(self).lemma_entry(j);
                        } else {
                            old(self).lemma_entry(j + 1);
                        }
                    }
                    assert(self@ =~= old_map.remove(key@));
                }
                Some(kv)
            },
            None => {
                assert(self@ =~= old_map.remove(key@));
                None
            },
        }
    }
}

/// The completion scripts a shell session starts with: none.
pub fn get_completions() -> (m: StringMap)
    ensures
        m@ == Map::<Seq<char>, Seq<char>>::empty(),
{
    StringMap::new()
}

impl View for StringMap {
    type V = Map<Seq<char>, Seq<char>>;

    open spec fn view(&self) -> Map<Seq<char>, Seq<char>> {
        self.contents()
    }
}

} // verus!
