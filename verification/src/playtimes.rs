use vstd::prelude::*;

verus! {

/// Play times in minutes, keyed by game id; inserting an id that is present
/// replaces its time.
#[derive(Debug)]
pub struct Playtimes {
    entries: Vec<(String, u32)>,
}

impl Playtimes {
    /// No id is recorded twice.
    #[verifier::type_invariant]
    closed spec fn keys_distinct(&self) -> bool {
        forall|i: int, j: int|
            0 <= i < self.entries@.len() && 0 <= j < self.entries@.len() && i != j
                ==> (#[trigger] self.entries@[i]).0@ != (#[trigger] self.entries@[j]).0@
    }

    closed spec fn has_key_at(&self, k: Seq<char>, i: int) -> bool {
        0 <= i < self.entries@.len() && self.entries@[i].0@ == k
    }
}

impl View for Playtimes {
    type V = Map<Seq<char>, u32>;

    closed spec fn view(&self) -> Map<Seq<char>, u32> {
        Map::new(
            |k: Seq<char>| exists|i: int| self.has_key_at(k, i),
            |k: Seq<char>| self.entries@[choose|i: int| self.has_key_at(k, i)].1,
        )
    }
}

impl Playtimes {
    proof fn lemma_lookup(&self, k: Seq<char>, i: int)
        requires
            self.keys_distinct(),
            self.has_key_at(k, i),
        ensures
            self@.contains_key(k),
            self@[k] == self.entries@[i].1,
    {
        let j = choose|j: int| self.has_key_at(k, j);
        assert(self.has_key_at(k, j));
        if i != j {
            assert(self.entries@[i].0@ != self.entries@[j].0@);
        }
    }

    /// An empty table.
    pub fn new() -> (res: Playtimes)
        ensures
            res@ == Map::<Seq<char>, u32>::empty(),
    {
        let res = Playtimes { entries: Vec::new() };
        assert(res@ =~= Map::<Seq<char>, u32>::empty());
        res
    }

    /// Where `id` is recorded.
    fn find(&self, id: &String) -> (res: Option<usize>)
        ensures
            res matches Some(i) ==> self.has_key_at(id@, i as int),
            res is None ==> forall|i: int| !self.has_key_at(id@, i),
    {
        let mut i: usize = 0;
        while i < self.entries.len()
            invariant
                i <= self.entries@.len(),
                forall|j: int| 0 <= j < i ==> !self.has_key_at(id@, j),
            decreases self.entries@.len() - i,
        {
            if self.entries[i].0 == *id {
                return Some(i);
            }
            i = i + 1;
        }
        None
    }

    /// The play time recorded for `id`.
    pub fn get(&self, id: &str) -> (res: Option<&u32>)
        ensures
            self@.contains_key(id@) ==> res == Some(&self@[id@]),
            !self@.contains_key(id@) ==> res is None,
    {
        proof {
            use_type_invariant(self);
        }
        let key = id.to_owned();
        match self.find(&key) {
            Some(i) => {
                proof {
                    self.lemma_lookup(id@, i as int);
                }
                Some(&self.entries[i].1)
            },
            None => None,
        }
    }

    /// Records `minutes` for `id`, replacing what was recorded for it.
    pub fn insert(&mut self, id: String, minutes: u32)
        ensures
            final(self)@ == old(self)@.insert(id@, minutes),
    {
        proof {
            use_type_invariant(&*self);
        }
        let ghost before = *self;
        let found = self.find(&id);
        let mut entries: Vec<(String, u32)> = Vec::new();
        std::mem::swap(&mut entries, &mut self.entries);
        match found {
            Some(i) => {
                entries.set(i, (id, minutes));
                self.entries = entries;
                proof {
                    let m1 = self@;
                    let m0 = before@.insert(before.entries@[i as int].0@, minutes);
                    assert(self.entries@ == before.entries@.update(i as int, (id, minutes)));
                    assert forall|k: Seq<char>| #[trigger] m1.contains_key(k) <==> m0.contains_key(k) by {
                        if m0.contains_key(k) && k != before.entries@[i as int].0@ {
                            let j = choose|j: int| before.has_key_at(k, j);
                            assert(self.entries@[j] == before.entries@[j]);
                            assert(self.has_key_at(k, j));
                        }
                        if k == before.entries@[i as int].0@ {
                            assert(self.has_key_at(k, i as int));
                        }
                        if m1.contains_key(k) {
                            let j = choose|j: int| self.has_key_at(k, j);
                            if j != i {
                                assert(self.entries@[j] == before.entries@[j]);
                                assert(before.has_key_at(k, j));
                            }
                        }
                    }
                    assert forall|k: Seq<char>| #[trigger] m1.contains_key(k) implies m1[k] == m0[k] by {
                        let j = choose|j: int| self.has_key_at(k, j);
                        self.lemma_lookup(k, j);
                        if j != i {
                            assert(self.entries@[j] == before.entries@[j]);
                            before.lemma_lookup(k, j);
                        }
                    }
                    assert(m1 =~= m0);
                }
            },
            None => {
                entries.push((id, minutes));
                proof {
                    let n = before.entries@.len() as int;
                    assert forall|a: int, b: int|
                        0 <= a < entries@.len() && 0 <= b < entries@.len() && a != b
                            implies (#[trigger] entries@[a]).0@ != (#[trigger] entries@[b]).0@ by {
                        if a < n && b < n {
                            assert(before.entries@[a] == entries@[a]);
                            assert(before.entries@[b] == entries@[b]);
                        } else if a == n {
                            assert(!before.has_key_at(entries@[n].0@, b));
                        } else {
                            assert(!before.has_key_at(entries@[n].0@, a));
                        }
                    }
                }
                self.entries = entries;
                proof {
                    let n = before.entries@.len() as int;
                    let m1 = self@;
                    let m0 = before@.insert(self.entries@[n as int].0@, minutes);
                    assert forall|k: Seq<char>| #[trigger] m1.contains_key(k) <==> m0.contains_key(k) by {
                        if m0.contains_key(k) && k != self.entries@[n as int].0@ {
                            let j = choose|j: int| before.has_key_at(k, j);
                            assert(self.has_key_at(k, j));
                        }
                        if k == self.entries@[n as int].0@ {
                            assert(self.has_key_at(k, n as int));
                        }
                        if m1.contains_key(k) {
                            let j = choose|j: int| self.has_key_at(k, j);
                            if j != n {
                                assert(before.has_key_at(k, j));
                            }
                        }
                    }
                    assert forall|k: Seq<char>| #[trigger] m1.contains_key(k) implies m1[k] == m0[k] by {
                        let j = choose|j: int| self.has_key_at(k, j);
                        self.lemma_lookup(k, j);
                        if j != n {
                            before.lemma_lookup(k, j);
                        }
                    }
                    assert(m1 =~= m0);
                }
            },
        }
    }
}

} // verus!
