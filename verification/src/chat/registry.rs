use vstd::prelude::*;

verus! {

/// A table of values keyed by string, in which no key occurs twice.
#[derive(Debug)]
pub struct Registry<V> {
    entries: Vec<(String, V)>,
}

impl<V> Registry<V> {
    /// The keys, in the order of the entries.
    pub closed spec fn key_seq(&self) -> Seq<Seq<char>> {
        self.entries@.map_values(|e: (String, V)| e.0@)
    }

    /// The values, in the order of the entries.
    pub closed spec fn value_seq(&self) -> Seq<V> {
        self.entries@.map_values(|e: (String, V)| e.1)
    }

    /// Well-formedness: no key occurs twice.
    pub closed spec fn wf(&self) -> bool {
        self.key_seq().no_duplicates()
    }

    /// What the table maps each key to.
    pub closed spec fn as_map(&self) -> Map<Seq<char>, V> {
        Map::new(
            |k: Seq<char>| self.key_seq().contains(k),
            |k: Seq<char>| self.value_seq()[self.key_seq().index_of(k)],
        )
    }

    /// The entry at position `i` is what the table maps its key to.
    proof fn lemma_entry(&self, i: int)
        requires
            self.wf(),
            0 <= i < self.entries@.len(),
        ensures
            self.as_map().dom().contains(self.key_seq()[i]),
            self.as_map()[self.key_seq()[i]] == self.entries@[i].1,
    {
        let k = self.key_seq()[i];
        assert(self.key_seq().contains(k));
        let j = self.key_seq().index_of(k);
        assert(self.key_seq()[j] == k);
    }

    /// The keys of the table are those of its entries, and the table has as
    /// many keys as entries.
    pub proof fn lemma_keys(&self)
        requires
            self.wf(),
        ensures
            forall|k: Seq<char>| #[trigger] self@.dom().contains(k) <==> self.key_seq().contains(k),
            forall|i: int|
                0 <= i < self.key_seq().len() ==> #[trigger] self@[self.key_seq()[i]]
                    == self.value_seq()[i],
            self.value_seq().len() == self.key_seq().len(),
            self.key_seq().no_duplicates(),
            self@.dom().finite(),
            self@.len() == self.key_seq().len(),
    {
        assert forall|i: int| 0 <= i < self.key_seq().len() implies #[trigger] self.as_map()[
            self.key_seq()[i]] == self.value_seq()[i] by {
            self.lemma_entry(i);
        }
        assert(self.as_map().dom() =~= self.key_seq().to_set());
        self.key_seq().unique_seq_to_set();
    }

    /// An empty table.
    pub fn new() -> (r: Self)
        ensures
            r.wf(),
            r@ == Map::<Seq<char>, V>::empty(),
    {
        let r = Registry { entries: Vec::new() };
        assert(r@ =~= Map::<Seq<char>, V>::empty());
        r
    }

    /// The position of `key` among the entries.
    fn find(&self, key: &String) -> (r: Option<usize>)
        ensures
            match r {
                Some(i) => i < self.entries@.len() && self.key_seq()[i as int] == key@,
                None => !self.key_seq().contains(key@),
            },
    {
        let mut i: usize = 0;
        while i < self.entries.len()
            invariant
                i <= self.entries@.len(),
                forall|j: int| 0 <= j < i ==> self.key_seq()[j] != key@,
            decreases self.entries@.len() - i,
        {
            if self.entries[i].0 == *key {
                return Some(i);
            }
            i = i + 1;
        }
        None
    }

    /// The number of keys.
    pub fn len(&self) -> (r: usize)
        requires
            self.wf(),
        ensures
            r == self@.len(),
            r == self.key_seq().len(),
    {
        proof {
            self.lemma_keys();
        }
        self.entries.len()
    }

    /// Whether the table holds no key.
    pub fn is_empty(&self) -> (r: bool)
        requires
            self.wf(),
        ensures
            r == (self@.len() == 0),
            r == (self@ == Map::<Seq<char>, V>::empty()),
    {
        proof {
            self.lemma_keys();
            if self.entries@.len() != 0 {
                assert(self@.dom().contains(self.key_seq()[0]));
            }
            if self.entries@.len() == 0 {
                assert(self@ =~= Map::<Seq<char>, V>::empty());
            }
        }
        self.entries.len() == 0
    }

    /// Whether `key` is in the table.
    pub fn contains_key(&self, key: &String) -> (r: bool)
        ensures
            r == self@.dom().contains(key@),
    {
        self.find(key).is_some()
    }

    /// The value that `key` maps to, if any.
    pub fn get(&self, key: &String) -> (r: Option<&V>)
        requires
            self.wf(),
        ensures
            match r {
                Some(v) => self@.dom().contains(key@) && *v == self@[key@],
                None => !self@.dom().contains(key@),
            },
    {
        match self.find(key) {
            Some(i) => {
                proof {
                    self.lemma_entry(i as int);
                }
                Some(&self.entries[i].1)
            },
            None => None,
        }
    }

    /// The key of the entry at position `i`.
    pub fn key_at(&self, i: usize) -> (r: &String)
        requires
            i < self.key_seq().len(),
        ensures
            r@ == self.key_seq()[i as int],
    {
        &self.entries[i].0
    }

    /// The value of the entry at position `i`.
    pub fn value_at(&self, i: usize) -> (r: &V)
        requires
            self.wf(),
            i < self.key_seq().len(),
        ensures
            *r == self@[self.key_seq()[i as int]],
            *r == self.value_seq()[i as int],
    {
        proof {
            self.lemma_entry(i as int);
        }
        &self.entries[i].1
    }

    /// Removes the entry at position `i` and gives back its key and value.
    fn take_entry(&mut self, i: usize) -> (r: (String, V))
        requires
            old(self).wf(),
            i < old(self).entries@.len(),
        ensures
            final(self).wf(),
            r.0@ == old(self).key_seq()[i as int],
            r.1 == old(self)@[r.0@],
            final(self)@ == old(self)@.remove(r.0@),
    {
        let ghost o = *self;
        proof {
            o.lemma_entry(i as int);
        }
        let r = self.entries.remove(i);
        let ghost k = r.0@;
        proof {
            assert(self.key_seq() =~= o.key_seq().remove(i as int));
            assert(self.value_seq() =~= o.value_seq().remove(i as int));
            assert forall|a: int, b: int|
                0 <= a < b < self.key_seq().len() implies self.key_seq()[a]
                != self.key_seq()[b] by {
                let oa = if a < i {
                    a
                } else {
                    a + 1
                };
                let ob = if b < i {
                    b
                } else {
                    b + 1
                };
                assert(o.key_seq()[oa] == self.key_seq()[a]);
                assert(o.key_seq()[ob] == self.key_seq()[b]);
            }
            assert forall|x: Seq<char>| #[trigger]
                self@.dom().contains(x) <==> o@.remove(k).dom().contains(x) by {
                if self.key_seq().contains(x) {
                    let j = choose|j: int| 0 <= j < self.key_seq().len() && self.key_seq()[j] == x;
                    let oj = if j < i {
                        j
                    } else {
                        j + 1
                    };
                    assert(o.key_seq()[oj] == x);
                    assert(oj != i);
                }
                if o@.remove(k).dom().contains(x) {
                    let j = choose|j: int| 0 <= j < o.key_seq().len() && o.key_seq()[j] == x;
                    assert(j != i);
                    let nj = if j < i {
                        j
                    } else {
                        j - 1
                    };
                    assert(self.key_seq()[nj] == x);
                }
            }
            assert forall|x: Seq<char>| #[trigger]
                self@.dom().contains(x) implies self@[x] == o@.remove(k)[x] by {
                let j = choose|j: int| 0 <= j < self.key_seq().len() && self.key_seq()[j] == x;
                self.lemma_entry(j);
                let oj = if j < i {
                    j
                } else {
                    j + 1
                };
                o.lemma_entry(oj);
            }
            assert(self@ =~= o@.remove(k));
        }
        r
    }

    /// Maps `key` to `value` and gives back the value it mapped to before.
    pub fn insert(&mut self, key: String, value: V) -> (r: Option<V>)
        requires
            old(self).wf(),
        ensures
            final(self).wf(),
            final(self)@ == old(self)@.insert(key@, value),
            match r {
                Some(v) => old(self)@.dom().contains(key@) && v == old(self)@[key@],
                None => !old(self)@.dom().contains(key@),
            },
    {
        let ghost o = *self;
        let prev = match self.find(&key) {
            Some(i) => {
                let (_, v) = self.take_entry(i);
                Some(v)
            },
            None => None,
        };
        let ghost mid = *self;
        let ghost k = key@;
        self.entries.push((key, value));
        proof {
            assert(self.key_seq() =~= mid.key_seq().push(k));
            assert(self.value_seq() =~= mid.value_seq().push(value));
            mid.lemma_keys();
            assert(!mid@.dom().contains(k));
            assert(!mid.key_seq().contains(k));
            assert forall|a: int, b: int|
                0 <= a < b < self.key_seq().len() implies self.key_seq()[a]
                != self.key_seq()[b] by {
                if b == mid.key_seq().len() {
                    assert(mid.key_seq()[a] == self.key_seq()[a]);
                }
            }
            let n = mid.key_seq().len() as int;
            self.lemma_entry(n);
            assert forall|x: Seq<char>| #[trigger]
                self@.dom().contains(x) <==> mid@.insert(k, value).dom().contains(x) by {
                if self.key_seq().contains(x) && x != k {
                    let j = choose|j: int| 0 <= j < self.key_seq().len() && self.key_seq()[j] == x;
                    assert(mid.key_seq()[j] == x);
                }
                if mid.key_seq().contains(x) {
                    let j = choose|j: int| 0 <= j < mid.key_seq().len() && mid.key_seq()[j] == x;
                    assert(self.key_seq()[j] == x);
                }
            }
            assert forall|x: Seq<char>| #[trigger]
                self@.dom().contains(x) implies self@[x] == mid@.insert(k, value)[x] by {
                if x != k {
                    let j = choose|j: int| 0 <= j < self.key_seq().len() && self.key_seq()[j] == x;
                    self.lemma_entry(j);
                    assert(j != n);
                    mid.lemma_entry(j);
                }
            }
            assert(self@ =~= mid@.insert(k, value));
            assert(mid@.insert(k, value) =~= o@.insert(k, value));
        }
        prev
    }

    /// Removes `key` and gives back the value it mapped to.
    pub fn remove(&mut self, key: &String) -> (r: Option<V>)
        requires
            old(self).wf(),
        ensures
            final(self).wf(),
            final(self)@ == old(self)@.remove(key@),
            match r {
                Some(v) => old(self)@.dom().contains(key@) && v == old(self)@[key@],
                None => !old(self)@.dom().contains(key@),
            },
    {
        match self.find(key) {
            Some(i) => {
                let (_, v) = self.take_entry(i);
                Some(v)
            },
            None => {
                proof {
                    assert(self@.remove(key@) =~= self@);
                }
                None
            },
        }
    }
}

impl<V> View for Registry<V> {
    type V = Map<Seq<char>, V>;

    closed spec fn view(&self) -> Map<Seq<char>, V> {
        self.as_map()
    }
}

} // verus!
