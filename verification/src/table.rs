//! A table from string keys to values that remembers the order in which
//! keys were first inserted.
use vstd::prelude::*;
use crate::text::str_eq;

verus! {

/// The keys of `s` do not repeat.
pub open spec fn keys_unique<V>(s: Seq<(Seq<char>, V)>) -> bool {
    forall|i: int, j: int| 0 <= i < s.len() && 0 <= j < s.len() && i != j ==> s[i].0 != s[j].0
}

/// `s` has an entry with key `k`.
pub open spec fn has_key<V>(s: Seq<(Seq<char>, V)>, k: Seq<char>) -> bool {
    exists|i: int| 0 <= i < s.len() && s[i].0 == k
}

/// The position of key `k` in `s`.
pub open spec fn key_pos<V>(s: Seq<(Seq<char>, V)>, k: Seq<char>) -> int {
    choose|i: int| 0 <= i < s.len() && s[i].0 == k
}

/// The map that the entries `s` stand for.
pub open spec fn map_of<V>(s: Seq<(Seq<char>, V)>) -> Map<Seq<char>, V> {
    Map::new(|k: Seq<char>| has_key(s, k), |k: Seq<char>| s[key_pos(s, k)].1)
}

/// With unique keys, the entry at `i` is the one that `key_pos` finds.
pub proof fn lemma_key_pos<V>(s: Seq<(Seq<char>, V)>, i: int)
    requires
        keys_unique(s),
        0 <= i < s.len(),
    ensures
        has_key(s, s[i].0),
        key_pos(s, s[i].0) == i,
        map_of(s).contains_key(s[i].0),
        map_of(s)[s[i].0] == s[i].1,
{
    assert(has_key(s, s[i].0));
}

/// The view of a table's entries.
pub open spec fn entry_views<V>(e: Seq<(String, V)>) -> Seq<(Seq<char>, V)> {
    e.map_values(|p: (String, V)| (p.0@, p.1))
}

/// Entries keyed by strings; a key occurs at most once, and entries keep the
/// order in which their keys were first inserted.
pub struct Table<V> {
    entries: Vec<(String, V)>,
}

impl<V> Table<V> {
    #[verifier::type_invariant]
    spec fn wf(self) -> bool {
        keys_unique(entry_views(self.entries@))
    }

    /// The entries, in order.
    pub closed spec fn seq(self) -> Seq<(Seq<char>, V)> {
        entry_views(self.entries@)
    }

    /// The map the table stands for.
    pub open spec fn map(self) -> Map<Seq<char>, V> {
        map_of(self.seq())
    }

    /// An empty table.
    pub fn new() -> (t: Self)
        ensures
            t.seq() == Seq::<(Seq<char>, V)>::empty(),
            t.map() == Map::<Seq<char>, V>::empty(),
    {
        let t = Table { entries: Vec::new() };
        assert(entry_views(t.entries@) =~= Seq::<(Seq<char>, V)>::empty());
        assert(map_of(t.seq()) =~= Map::<Seq<char>, V>::empty());
        t
    }

    /// The number of entries.
    pub fn len(&self) -> (n: usize)
        ensures
            n == self.seq().len(),
    {
        self.entries.len()
    }

    /// The position of key `k`, if the table has it.
    pub fn position(&self, k: &str) -> (r: Option<usize>)
        ensures
            match r {
                Some(i) => i < self.seq().len() && self.seq()[i as int].0 == k@,
                None => !has_key(self.seq(), k@),
            },
    {
        let mut i: usize = 0;
        while i < self.entries.len()
            invariant
                i <= self.entries@.len(),
                forall|j: int| 0 <= j < i ==> self.entries@[j].0@ != k@,
            decreases self.entries@.len() - i,
        {
            if str_eq(self.entries[i].0.as_str(), k) {
                return Some(i);
            }
            i += 1;
        }
        proof {
            if has_key(self.seq(), k@) {
                let j = choose|j: int| 0 <= j < self.seq().len() && self.seq()[j].0 == k@;
                assert(self.entries@[j].0@ == k@);
            }
        }
        None
    }

    /// The key and value of entry `i`.
    pub fn entry(&self, i: usize) -> (r: (&String, &V))
        requires
            i < self.seq().len(),
        ensures
            (r.0@, *r.1) == self.seq()[i as int],
    {
        let p = &self.entries[i];
        (&p.0, &p.1)
    }

    /// The value stored under `k`.
    pub fn get(&self, k: &str) -> (r: Option<&V>)
        ensures
            match r {
                Some(v) => self.map().contains_key(k@) && self.map()[k@] == *v,
                None => !self.map().contains_key(k@),
            },
    {
        proof {
            use_type_invariant(self);
        }
        match self.position(k) {
            Some(i) => {
                proof {
                    lemma_key_pos(self.seq(), i as int);
                }
                Some(&self.entries[i].1)
            },
            None => None,
        }
    }

    /// Stores `v` under `k`: in place if the key is there, else at the end.
    pub fn insert(&mut self, k: String, v: V)
        ensures
            final(self).map() == old(self).map().insert(k@, v),
            has_key(old(self).seq(), k@) ==> final(self).seq().len() == old(self).seq().len(),
            !has_key(old(self).seq(), k@) ==> final(self).seq() == old(self).seq().push((k@, v)),
    {
        proof {
            use_type_invariant(&*self);
        }
        let ghost s0 = self.seq();
        match self.position(k.as_str()) {
            Some(i) => {
                let ghost e0 = self.entries@;
                let mut entries = Vec::new();
                std::mem::swap(&mut entries, &mut self.entries);
                entries.set(i, (k, v));
                let ghost s1 = entry_views(entries@);
                proof {
                    assert(s1 =~= s0.update(i as int, (k@, v)));
                    assert(keys_unique(s1)) by {
                        assert forall|a: int, b: int|
                            0 <= a < s1.len() && 0 <= b < s1.len() && a != b implies s1[a].0
                            != s1[b].0 by {
                            assert(s1[a].0 == s0[a].0);
                            assert(s1[b].0 == s0[b].0);
                        }
                    }
                    assert(map_of(s1) =~= map_of(s0).insert(k@, v)) by {
                        assert forall|q: Seq<char>| #[trigger] has_key(s1, q) == (has_key(s0, q)
                            || q == k@) by {
                            if has_key(s1, q) {
                                let j = choose|j: int| 0 <= j < s1.len() && s1[j].0 == q;
                                assert(s0[j].0 == q);
                            }
                            if has_key(s0, q) {
                                let j = choose|j: int| 0 <= j < s0.len() && s0[j].0 == q;
                                assert(s1[j].0 == q);
                            }
                            if q == k@ {
                                assert(s1[i as int].0 == q);
                            }
                        }
                        assert forall|q: Seq<char>| has_key(s1, q) implies map_of(s1)[q]
                            == map_of(s0).insert(k@, v)[q] by {
                            let j = key_pos(s1, q);
                            lemma_key_pos(s1, j);
                            if q != k@ {
                                lemma_key_pos(s0, j);
                            }
                        }
                    }
                }
                self.entries = entries;
            },
            None => {
                let mut entries = Vec::new();
                std::mem::swap(&mut entries, &mut self.entries);
                entries.push((k, v));
                proof {
                    let s1 = entry_views(entries@);
                    assert(s1 =~= s0.push((k@, v)));
                    assert(keys_unique(s1)) by {
                        assert forall|a: int, b: int|
                            0 <= a < s1.len() && 0 <= b < s1.len() && a != b implies s1[a].0
                            != s1[b].0 by {
                            if a < s0.len() && b < s0.len() {
                                assert(s1[a] == s0[a]);
                                assert(s1[b] == s0[b]);
                            } else if a < s0.len() {
                                assert(s1[a] == s0[a]);
                            } else {
                                assert(s1[b] == s0[b]);
                            }
                        }
                    }
                    assert(map_of(s1) =~= map_of(s0).insert(k@, v)) by {
                        assert forall|q: Seq<char>| #[trigger] has_key(s1, q) == (has_key(s0, q)
                            || q == k@) by {
                            if has_key(s1, q) {
                                let j = choose|j: int| 0 <= j < s1.len() && s1[j].0 == q;
                                if j < s0.len() {
                                    assert(s0[j].0 == q);
                                }
                            }
                            if has_key(s0, q) {
                                let j = choose|j: int| 0 <= j < s0.len() && s0[j].0 == q;
                                assert(s1[j].0 == q);
                            }
                            if q == k@ {
                                assert(s1[s0.len() as int].0 == q);
                            }
                        }
                        assert forall|q: Seq<char>| has_key(s1, q) implies map_of(s1)[q]
                            == map_of(s0).insert(k@, v)[q] by {
                            let j = key_pos(s1, q);
                            lemma_key_pos(s1, j);
                            if q != k@ {
                                assert(j < s0.len());
                                assert(s1[j] == s0[j]);
                                lemma_key_pos(s0, j);
                            }
                        }
                    }
                }
                self.entries = entries;
            },
        }
    }

    /// Removes the entry for `k`, handing back its value; the other entries
    /// keep their order.
    pub fn remove(&mut self, k: &str) -> (r: Option<V>)
        ensures
            final(self).map() == old(self).map().remove(k@),
            match r {
                Some(v) => old(self).map().contains_key(k@) && old(self).map()[k@] == v,
                None => !old(self).map().contains_key(k@),
            },
    {
        proof {
            use_type_invariant(&*self);
        }
        let ghost s0 = self.seq();
        match self.position(k) {
            Some(i) => {
                proof {
                    lemma_key_pos(s0, i as int);
                }
                let mut entries = Vec::new();
                std::mem::swap(&mut entries, &mut self.entries);
                let (_, v) = entries.remove(i);
                let ghost s1 = entry_views(entries@);
                proof {
                    assert(s1 =~= s0.remove(i as int));
                    assert(keys_unique(s1)) by {
                        assert forall|a: int, b: int|
                            0 <= a < s1.len() && 0 <= b < s1.len() && a != b implies s1[a].0
                            != s1[b].0 by {
                            let a0 = if a < i { a } else { a + 1 };
                            let b0 = if b < i { b } else { b + 1 };
                            assert(s1[a] == s0[a0]);
                            assert(s1[b] == s0[b0]);
                        }
                    }
                    assert(map_of(s1) =~= map_of(s0).remove(k@)) by {
                        assert forall|q: Seq<char>| #[trigger] has_key(s1, q) == (has_key(s0, q)
                            && q != k@) by {
                            if has_key(s1, q) {
                                let j = choose|j: int| 0 <= j < s1.len() && s1[j].0 == q;
                                let j0 = if j < i { j } else { j + 1 };
                                assert(s1[j] == s0[j0]);
                            }
                            if has_key(s0, q) && q != k@ {
                                let j = choose|j: int| 0 <= j < s0.len() && s0[j].0 == q;
                                if j < i {
                                    assert(s1[j] == s0[j]);
                                } else {
                                    assert(j != i);
                                    assert(s1[j - 1] == s0[j]);
                                }
                            }
                        }
                        assert forall|q: Seq<char>| has_key(s1, q) implies map_of(s1)[q]
                            == map_of(s0).remove(k@)[q] by {
                            let j = key_pos(s1, q);
                            lemma_key_pos(s1, j);
                            let j0 = if j < i { j } else { j + 1 };
                            assert(s1[j] == s0[j0]);
                            lemma_key_pos(s0, j0);
                        }
                    }
                }
                self.entries = entries;
                Some(v)
            },
            None => {
                proof {
                    assert(map_of(s0).remove(k@) =~= map_of(s0));
                }
                None
            },
        }
    }
}

} // verus!
