use vstd::prelude::*;

use crate::text::str_eq;

verus! {

/// The views of a sequence of pairs of strings.
pub open spec fn pair_views(v: Seq<(String, String)>) -> Seq<(Seq<char>, Seq<char>)> {
    v.map_values(|p: (String, String)| (p.0@, p.1@))
}

/// A map from strings to strings, kept as a list of entries in insertion
/// order, no key occurring twice.
pub struct StrMap {
    entries: Vec<(String, String)>,
}

impl StrMap {
    /// The entries as pairs of character sequences.
    pub closed spec fn pairs(&self) -> Seq<(Seq<char>, Seq<char>)> {
        pair_views(self.entries@)
    }

    /// No key occurs twice.
    pub closed spec fn wf(&self) -> bool {
        forall|i: int, j: int|
            0 <= i < self.pairs().len() && 0 <= j < self.pairs().len() && i != j
                ==> #[trigger] self.pairs()[i].0 != #[trigger] self.pairs()[j].0
    }

    /// Some entry has the key `k`.
    pub closed spec fn has_key(&self, k: Seq<char>) -> bool {
        exists|i: int| 0 <= i < self.pairs().len() && #[trigger] self.pairs()[i].0 == k
    }

    proof fn lemma_value_at(&self, i: int)
        requires
            self.wf(),
            0 <= i < self.pairs().len(),
        ensures
            self@.dom().contains(self.pairs()[i].0),
            self@[self.pairs()[i].0] == self.pairs()[i].1,
    {
        let k = self.pairs()[i].0;
        assert(self.has_key(k));
        let j = choose|j: int| 0 <= j < self.pairs().len() && #[trigger] self.pairs()[j].0 == k;
        assert(j == i);
    }

    /// An empty map.
    pub fn new() -> (m: StrMap)
        ensures
            m.wf(),
            m@ == Map::<Seq<char>, Seq<char>>::empty(),
    {
        let m = StrMap { entries: Vec::new() };
        assert(m.pairs() =~= Seq::<(Seq<char>, Seq<char>)>::empty());
        assert(m@ =~= Map::<Seq<char>, Seq<char>>::empty());
        m
    }

    /// The number of keys.
    pub fn len(&self) -> (n: usize)
        requires
            self.wf(),
        ensures
            n == self@.len(),
    {
        proof {
            self.lemma_dom_len();
        }
        self.entries.len()
    }

    proof fn lemma_dom_len(&self)
        requires
            self.wf(),
        ensures
            self@.dom().finite(),
            self@.dom().len() == self.pairs().len(),
        decreases self.pairs().len(),
    {
        let ps = self.pairs();
        let keys = Seq::new(ps.len(), |i: int| ps[i].0);
        assert forall|k: Seq<char>| self@.dom().contains(k) <==> keys.contains(k) by {
            if self@.dom().contains(k) {
                let i = choose|i: int| 0 <= i < ps.len() && #[trigger] ps[i].0 == k;
                assert(keys[i] == k);
            }
            if keys.contains(k) {
                let i = choose|i: int| 0 <= i < keys.len() && keys[i] == k;
                assert(ps[i].0 == k);
            }
        }
        assert(self@.dom() =~= keys.to_set());
        assert(keys.no_duplicates()) by {
            assert forall|i: int, j: int| 0 <= i < keys.len() && 0 <= j < keys.len() && i != j
                implies keys[i] != keys[j] by {
                assert(ps[i].0 != ps[j].0);
            }
        }
        keys.unique_seq_to_set();
    }

    /// The index of the entry with key `k`, if any.
    fn find(&self, k: &str) -> (r: Option<usize>)
        requires
            self.wf(),
        ensures
            match r {
                Some(i) => i < self.pairs().len() && self.pairs()[i as int].0 == k@,
                None => !self@.dom().contains(k@),
            },
    {
        let mut i: usize = 0;
        while i < self.entries.len()
            invariant
                i <= self.entries@.len(),
                self.pairs().len() == self.entries@.len(),
                forall|j: int| 0 <= j < i ==> #[trigger] self.pairs()[j].0 != k@,
            decreases self.entries@.len() - i,
        {
            assert(self.pairs()[i as int].0 == self.entries@[i as int].0@);
            if str_eq(self.entries[i].0.as_str(), k) {
                return Some(i);
            }
            i = i + 1;
        }
        None
    }

    /// Whether `k` is a key.
    pub fn contains_key(&self, k: &str) -> (b: bool)
        requires
            self.wf(),
        ensures
            b == self@.dom().contains(k@),
    {
        match self.find(k) {
            Some(i) => {
                proof {
                    self.lemma_value_at(i as int);
                }
                true
            },
            None => false,
        }
    }

    /// The value of the key `k`, if any.
    pub fn get(&self, k: &str) -> (r: Option<&String>)
        requires
            self.wf(),
        ensures
            match r {
                Some(v) => self@.dom().contains(k@) && self@[k@] == v@,
                None => !self@.dom().contains(k@),
            },
    {
        match self.find(k) {
            Some(i) => {
                proof {
                    self.lemma_value_at(i as int);
                }
                assert(self.pairs()[i as int].1 == self.entries@[i as int].1@);
                Some(&self.entries[i].1)
            },
            None => None,
        }
    }

    /// Sets the value of `k` to `v`, adding the key when it is new.
    pub fn insert(&mut self, k: String, v: String)
        requires
            old(self).wf(),
        ensures
            final(self).wf(),
            final(self)@ == old(self)@.insert(k@, v@),
    {
        let ghost old_map = self@;
        let ghost old_pairs = self.pairs();
        proof {
            assert forall|j: int| 0 <= j < old_pairs.len() implies self@.dom().contains(
                #[trigger] old_pairs[j].0,
            ) && self@[old_pairs[j].0] == old_pairs[j].1 by {
                self.lemma_value_at(j);
            }
        }
        match self.find(k.as_str()) {
            Some(i) => {
                let ghost kv = k@;
                let ghost vv = v@;
                self.entries.set(i, (k, v));
                assert(self.pairs() =~= old_pairs.update(i as int, (kv, vv)));
                assert(self.wf());
                assert forall|j: int| 0 <= j < self.pairs().len() implies self@.dom().contains(
                    #[trigger] self.pairs()[j].0,
                ) && self@[self.pairs()[j].0] == self.pairs()[j].1 by {
                    self.lemma_value_at(j);
                }
                assert forall|key: Seq<char>|
                    self@.dom().contains(key) <==> old_map.insert(kv, vv).dom().contains(key) by {
                    if self@.dom().contains(key) {
                        let j = choose|j: int| 0 <= j < self.pairs().len() && #[trigger] self.pairs()[j].0 == key;
                        if j != i {
                            assert(old_pairs[j].0 == key);
                        }
                    }
                    if old_map.dom().contains(key) {
                        let j = choose|j: int| 0 <= j < old_pairs.len() && #[trigger] old_pairs[j].0 == key;
                        assert(self.pairs()[j].0 == key);
                    }
                }
                assert forall|key: Seq<char>| #[trigger] self@.dom().contains(key) implies self@[key]
                    == old_map.insert(kv, vv)[key] by {
                    let j = choose|j: int| 0 <= j < self.pairs().len() && #[trigger] self.pairs()[j].0 == key;
                    if j != i {
                        assert(old_pairs[j].0 == key);
                    }
                }
                assert(self@ =~= old_map.insert(kv, vv));
            },
            None => {
                let ghost kv = k@;
                let ghost vv = v@;
                self.entries.push((k, v));
                assert(self.pairs() =~= old_pairs.push((kv, vv)));
                assert forall|j: int| 0 <= j < old_pairs.len() implies old_pairs[j].0 != kv by {
                    assert(old_map.dom().contains(old_pairs[j].0));
                }
                assert(self.wf());
                assert forall|j: int| 0 <= j < self.pairs().len() implies self@.dom().contains(
                    #[trigger] self.pairs()[j].0,
                ) && self@[self.pairs()[j].0] == self.pairs()[j].1 by {
                    self.lemma_value_at(j);
                }
                assert forall|key: Seq<char>|
                    self@.dom().contains(key) <==> old_map.insert(kv, vv).dom().contains(key) by {
                    if self@.dom().contains(key) {
                        let j = choose|j: int| 0 <= j < self.pairs().len() && #[trigger] self.pairs()[j].0 == key;
                        if j < old_pairs.len() {
                            assert(old_pairs[j].0 == key);
                        }
                    }
                    if old_map.dom().contains(key) {
                        let j = choose|j: int| 0 <= j < old_pairs.len() && #[trigger] old_pairs[j].0 == key;
                        assert(self.pairs()[j].0 == key);
                    }
                    if key == kv {
                        assert(self.pairs()[old_pairs.len() as int].0 == key);
                    }
                }
                assert forall|key: Seq<char>| #[trigger] self@.dom().contains(key) implies self@[key]
                    == old_map.insert(kv, vv)[key] by {
                    let j = choose|j: int| 0 <= j < self.pairs().len() && #[trigger] self.pairs()[j].0 == key;
                    if j < old_pairs.len() {
                        assert(old_pairs[j].0 == key);
                    }
                }
                assert(self@ =~= old_map.insert(kv, vv));
            },
        }
    }

    /// Removes the key `k` and its value, if it is there.
    pub fn remove(&mut self, k: &str)
        requires
            old(self).wf(),
        ensures
            final(self).wf(),
            final(self)@ == old(self)@.remove(k@),
    {
        let ghost old_map = self@;
        let ghost old_pairs = self.pairs();
        proof {
            assert forall|j: int| 0 <= j < old_pairs.len() implies self@.dom().contains(
                #[trigger] old_pairs[j].0,
            ) && self@[old_pairs[j].0] == old_pairs[j].1 by {
                self.lemma_value_at(j);
            }
        }
        match self.find(k) {
            Some(i) => {
                let _ = self.entries.remove(i);
                assert(self.pairs() =~= old_pairs.remove(i as int));
                assert forall|a: int, b: int|
                    0 <= a < self.pairs().len() && 0 <= b < self.pairs().len() && a != b
                        implies #[trigger] self.pairs()[a].0 != #[trigger] self.pairs()[b].0 by {
                    let a2 = if a < i { a } else { a + 1 };
                    let b2 = if b < i { b } else { b + 1 };
                    assert(self.pairs()[a] == old_pairs[a2]);
                    assert(self.pairs()[b] == old_pairs[b2]);
                }
                assert(self.wf());
                assert forall|j: int| 0 <= j < self.pairs().len() implies self@.dom().contains(
                    #[trigger] self.pairs()[j].0,
                ) && self@[self.pairs()[j].0] == self.pairs()[j].1 by {
                    self.lemma_value_at(j);
                }
                assert forall|key: Seq<char>|
                    self@.dom().contains(key) <==> old_map.remove(k@).dom().contains(key) by {
                    if self@.dom().contains(key) {
                        let j = choose|j: int| 0 <= j < self.pairs().len() && #[trigger] self.pairs()[j].0 == key;
                        let j2 = if j < i { j } else { j + 1 };
                        assert(old_pairs[j2].0 == key);
                        assert(j2 != i);
                    }
                    if old_map.remove(k@).dom().contains(key) {
                        let j = choose|j: int| 0 <= j < old_pairs.len() && #[trigger] old_pairs[j].0 == key;
                        assert(j != i);
                        let j1 = if j < i { j } else { j - 1 };
                        assert(self.pairs()[j1].0 == key);
                    }
                }
                assert forall|key: Seq<char>| #[trigger] self@.dom().contains(key) implies self@[key]
                    == old_map.remove(k@)[key] by {
                    let j = choose|j: int| 0 <= j < self.pairs().len() && #[trigger] self.pairs()[j].0 == key;
                    let j2 = if j < i { j } else { j + 1 };
                    assert(old_pairs[j2].0 == key);
                }
                assert(self@ =~= old_map.remove(k@));
            },
            None => {
                assert(self@ =~= old_map.remove(k@));
            },
        }
    }
}

impl View for StrMap {
    type V = Map<Seq<char>, Seq<char>>;

    closed spec fn view(&self) -> Map<Seq<char>, Seq<char>> {
        Map::new(
            |k: Seq<char>| self.has_key(k),
            |k: Seq<char>|
                self.pairs()[choose|i: int| 0 <= i < self.pairs().len() && #[trigger] self.pairs()[i].0 == k].1,
        )
    }
}

} // verus!
