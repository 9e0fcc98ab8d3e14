//! A table keyed by text (channel names, peer addresses, stream ids), the
//! shape of every lookup table of the framework.

use vstd::prelude::*;

verus! {

/// A map from text keys to values, each key at most once.
pub struct Registry<V> {
    entries: Vec<(String, V)>,
}

impl<V> View for Registry<V> {
    type V = Map<Seq<char>, V>;

    open spec fn view(&self) -> Map<Seq<char>, V> {
        self.as_map()
    }
}

impl<V> Registry<V> {
    /// No key occurs twice.
    pub closed spec fn wf(&self) -> bool {
        forall|i: int, j: int|
            0 <= i < j < self.entries@.len() ==> (#[trigger] self.entries@[i]).0@
                != (#[trigger] self.entries@[j]).0@
    }

    spec fn has_key_at(&self, k: Seq<char>, i: int) -> bool {
        0 <= i < self.entries@.len() && self.entries@[i].0@ == k
    }

    /// The table as a map from each key's text to its value.
    pub closed spec fn as_map(&self) -> Map<Seq<char>, V> {
        Map::new(
            |k: Seq<char>| exists|i: int| self.has_key_at(k, i),
            |k: Seq<char>| self.entries@[choose|i: int| self.has_key_at(k, i)].1,
        )
    }

    proof fn lemma_view_at(&self, i: int)
        requires
            self.wf(),
            0 <= i < self.entries@.len(),
        ensures
            self.view().contains_key(self.entries@[i].0@),
            self.view()[self.entries@[i].0@] == self.entries@[i].1,
    {
        let k = self.entries@[i].0@;
        assert(self.has_key_at(k, i));
        let j = choose|j: int| self.has_key_at(k, j);
        if j != i {
            if j < i {
                assert(self.entries@[j].0@ != self.entries@[i].0@);
            } else {
                assert(self.entries@[i].0@ != self.entries@[j].0@);
            }
        }
    }

    proof fn lemma_view_absent(&self, k: Seq<char>)
        requires
            forall|i: int| 0 <= i < self.entries@.len() ==> self.entries@[i].0@ != k,
        ensures
            !self.view().contains_key(k),
    {
    }

    /// An empty table.
    pub fn new() -> (r: Registry<V>)
        ensures
            r.wf(),
            r.view() == Map::<Seq<char>, V>::empty(),
    {
        let r = Registry { entries: Vec::new() };
        assert(r.view() =~= Map::<Seq<char>, V>::empty());
        r
    }

    /// The position of `key` among the entries.
    fn find(&self, key: &String) -> (r: Option<usize>)
        requires
            self.wf(),
        ensures
            match r {
                Some(i) => i < self.entries@.len() && self.entries@[i as int].0@ == key@,
                None => forall|i: int|
                    0 <= i < self.entries@.len() ==> self.entries@[i].0@ != key@,
            },
    {
        let mut i: usize = 0;
        while i < self.entries.len()
            invariant
                i <= self.entries@.len(),
                forall|j: int| 0 <= j < i ==> self.entries@[j].0@ != key@,
            decreases self.entries@.len() - i,
        {
            if self.entries[i].0 == *key {
                return Some(i);
            }
            i = i + 1;
        }
        None
    }

    /// Whether `key` is in the table.
    pub fn contains_key(&self, key: &String) -> (b: bool)
        requires
            self.wf(),
        ensures
            b == self.view().contains_key(key@),
    {
        match self.find(key) {
            Some(i) => {
                proof {
                    self.lemma_view_at(i as int);
                }
                true
            },
            None => {
                proof {
                    self.lemma_view_absent(key@);
                }
                false
            },
        }
    }

    /// The value under `key`, if any.
    pub fn get(&self, key: &String) -> (r: Option<&V>)
        requires
            self.wf(),
        ensures
            match r {
                Some(v) => self.view().contains_key(key@) && *v == self.view()[key@],
                None => !self.view().contains_key(key@),
            },
    {
        match self.find(key) {
            Some(i) => {
                proof {
                    self.lemma_view_at(i as int);
                }
                Some(&self.entries[i].1)
            },
            None => {
                proof {
                    self.lemma_view_absent(key@);
                }
                None
            },
        }
    }

    /// Takes the entry under `key` out of the table, if there is one.
    pub fn remove(&mut self, key: &String) -> (r: Option<V>)
        requires
            old(self).wf(),
        ensures
            final(self).wf(),
            final(self).view() == old(self).view().remove(key@),
            match r {
                Some(v) => old(self).view().contains_key(key@) && v == old(self).view()[key@],
                None => !old(self).view().contains_key(key@),
            },
    {
        match self.find(key) {
            Some(i) => {
                proof {
                    self.lemma_view_at(i as int);
                }
                let ghost before = *self;
                let (_k, v) = self.entries.remove(i);
                proof {
                    assert(self.entries@ == before.entries@.remove(i as int));
                    assert forall|a: int, b: int|
                        0 <= a < b < self.entries@.len() implies (#[trigger] self.entries@[a]).0@
                        != (#[trigger] self.entries@[b]).0@ by {
                        let a0 = if a < i { a } else { a + 1 };
                        let b0 = if b < i { b } else { b + 1 };
                        assert(self.entries@[a] == before.entries@[a0]);
                        assert(self.entries@[b] == before.entries@[b0]);
                        assert(before.entries@[a0].0@ != before.entries@[b0].0@);
                    }
                    assert forall|k: Seq<char>|
                        #[trigger] self.view().contains_key(k) == before.view().remove(
                            key@,
                        ).contains_key(k) by {
                        if self.view().contains_key(k) {
                            let j = choose|j: int| self.has_key_at(k, j);
                            let j0 = if j < i { j } else { j + 1 };
                            assert(self.entries@[j] == before.entries@[j0]);
                            assert(before.has_key_at(k, j0));
                            if k == key@ {
                                assert(before.entries@[j0].0@ == before.entries@[i as int].0@);
                                assert(j0 != i);
                                if j0 < i {
                                    assert(before.entries@[j0].0@ != before.entries@[i as int].0@);
                                } else {
                                    assert(before.entries@[i as int].0@ != before.entries@[j0].0@);
                                }
                            }
                        }
                        if before.view().remove(key@).contains_key(k) {
                            let j0 = choose|j: int| before.has_key_at(k, j);
                            assert(j0 != i);
                            let j = if j0 < i { j0 } else { j0 - 1 };
                            assert(self.entries@[j] == before.entries@[j0]);
                            assert(self.has_key_at(k, j));
                        }
                    }
                    assert forall|k: Seq<char>| #[trigger]
                        self.view().contains_key(k) implies self.view()[k] == before.view()[k] by {
                        let j = choose|j: int| self.has_key_at(k, j);
                        let j0 = if j < i { j } else { j + 1 };
                        assert(self.entries@[j] == before.entries@[j0]);
                        self.lemma_view_at(j);
                        before.lemma_view_at(j0);
                    }
                    assert(self.view() =~= before.view().remove(key@));
                }
                Some(v)
            },
            None => {
                proof {
                    self.lemma_view_absent(key@);
                    assert(self.view() =~= self.view().remove(key@));
                }
                None
            },
        }
    }

    /// Puts `value` under `key`, replacing what was there, which it returns.
    pub fn insert(&mut self, key: String, value: V) -> (r: Option<V>)
        requires
            old(self).wf(),
        ensures
            final(self).wf(),
            final(self).view() == old(self).view().insert(key@, value),
            match r {
                Some(v) => old(self).view().contains_key(key@) && v == old(self).view()[key@],
                None => !old(self).view().contains_key(key@),
            },
    {
        let ghost k = key@;
        let previous = self.remove(&key);
        let ghost mid = *self;
        self.entries.push((key, value));
        proof {
            let n = mid.entries@.len() as int;
            assert(!mid.view().contains_key(k));
            assert forall|i: int| 0 <= i < n implies mid.entries@[i].0@ != k by {
                mid.lemma_view_at(i);
            }
            assert forall|a: int, b: int|
                0 <= a < b < self.entries@.len() implies (#[trigger] self.entries@[a]).0@
                != (#[trigger] self.entries@[b]).0@ by {
                assert(self.entries@[a] == mid.entries@[a]);
                if b < n {
                    assert(self.entries@[b] == mid.entries@[b]);
                }
            }
            assert(self.entries@[n].0@ == k);
            assert(self.has_key_at(k, n));
            self.lemma_view_at(n);
            assert forall|k2: Seq<char>|
                #[trigger] self.view().contains_key(k2) == mid.view().insert(k, value).contains_key(
                    k2,
                ) by {
                if k2 != k {
                    if self.view().contains_key(k2) {
                        let j = choose|j: int| self.has_key_at(k2, j);
                        assert(j != n);
                        assert(self.entries@[j] == mid.entries@[j]);
                        assert(mid.has_key_at(k2, j));
                    }
                    if mid.view().contains_key(k2) {
                        let j = choose|j: int| mid.has_key_at(k2, j);
                        assert(self.entries@[j] == mid.entries@[j]);
                        assert(self.has_key_at(k2, j));
                    }
                }
            }
            assert forall|k2: Seq<char>| #[trigger]
                self.view().contains_key(k2) && k2 != k implies self.view()[k2]
                == mid.view()[k2] by {
                let j = choose|j: int| self.has_key_at(k2, j);
                assert(j != n);
                assert(self.entries@[j] == mid.entries@[j]);
                self.lemma_view_at(j);
                mid.lemma_view_at(j);
            }
            assert(self.view() =~= mid.view().insert(k, value));
            assert(mid.view().insert(k, value) =~= old(self).view().insert(k, value));
        }
        previous
    }

    /// Empties the table.
    pub fn clear(&mut self)
        ensures
            final(self).wf(),
            final(self).view() == Map::<Seq<char>, V>::empty(),
    {
        self.entries.clear();
        assert(self.view() =~= Map::<Seq<char>, V>::empty());
    }
}


/// `keys` lists, once each, exactly the keys of `m` whose entry is tagged
/// with `channel`.
pub open spec fn lists_channel<V>(
    keys: Seq<String>,
    m: Map<Seq<char>, (String, V)>,
    channel: Seq<char>,
) -> bool {
    &&& forall|i: int|
        0 <= i < keys.len() ==> m.contains_key(#[trigger] keys[i]@) && m[keys[i]@].0@ == channel
    &&& forall|k: Seq<char>|
        m.contains_key(k) && #[trigger] m[k].0@ == channel ==> exists|i: int|
            0 <= i < keys.len() && (#[trigger] keys[i])@ == k
    &&& forall|i: int, j: int| 0 <= i < j < keys.len() ==> (#[trigger] keys[i])@ != (#[trigger] keys[j])@
}

impl<V> Registry<(String, V)> {
    /// The keys whose entry is tagged with `channel`.
    pub fn keys_on(&self, channel: &String) -> (keys: Vec<String>)
        requires
            self.wf(),
        ensures
            lists_channel(keys@, self.view(), channel@),
    {
        let mut keys: Vec<String> = Vec::new();
        let mut i: usize = 0;
        while i < self.entries.len()
            invariant
                self.wf(),
                i <= self.entries@.len(),
                forall|a: int|
                    0 <= a < keys@.len() ==> exists|j: int|
                        0 <= j < i && (#[trigger] keys@[a])@ == self.entries@[j].0@
                            && self.entries@[j].1.0@ == channel@,
                forall|j: int|
                    0 <= j < i && (#[trigger] self.entries@[j]).1.0@ == channel@ ==> exists|a: int|
                        0 <= a < keys@.len() && (#[trigger] keys@[a])@ == self.entries@[j].0@,
                forall|a: int, b: int|
                    0 <= a < b < keys@.len() ==> (#[trigger] keys@[a])@ != (#[trigger] keys@[b])@,
            decreases self.entries@.len() - i,
        {
            if self.entries[i].1.0 == *channel {
                let ghost before = keys@;
                keys.push(self.entries[i].0.clone());
                proof {
                    let n = before.len() as int;
                    assert(keys@[n]@ == self.entries@[i as int].0@);
                    assert forall|a: int| 0 <= a < n implies keys@[a]@ != keys@[n]@ by {
                        assert(keys@[a] == before[a]);
                        let j = choose|j: int|
                            0 <= j < i && (#[trigger] before[a])@ == self.entries@[j].0@
                                && self.entries@[j].1.0@ == channel@;
                        assert(self.entries@[j].0@ != self.entries@[i as int].0@);
                    }
                    assert forall|a: int|
                        0 <= a < keys@.len() implies exists|j: int|
                            0 <= j < i + 1 && (#[trigger] keys@[a])@ == self.entries@[j].0@
                                && self.entries@[j].1.0@ == channel@ by {
                        if a < n {
                            assert(keys@[a] == before[a]);
                        } else {
                            assert(keys@[a]@ == self.entries@[i as int].0@);
                        }
                    }
                    assert forall|j: int|
                        0 <= j < i + 1 && (#[trigger] self.entries@[j]).1.0@ == channel@ implies exists|a: int|
                            0 <= a < keys@.len() && (#[trigger] keys@[a])@ == self.entries@[j].0@ by {
                        if j < i {
                            let a = choose|a: int|
                                0 <= a < before.len() && (#[trigger] before[a])@ == self.entries@[j].0@;
                            assert(keys@[a] == before[a]);
                        } else {
                            assert(keys@[n]@ == self.entries@[j].0@);
                        }
                    }
                }
            }
            i = i + 1;
        }
        proof {
            let m = self.view();
            assert forall|a: int|
                0 <= a < keys@.len() implies m.contains_key(#[trigger] keys@[a]@)
                && m[keys@[a]@].0@ == channel@ by {
                let j = choose|j: int|
                    0 <= j < i && (#[trigger] keys@[a])@ == self.entries@[j].0@
                        && self.entries@[j].1.0@ == channel@;
                self.lemma_view_at(j);
            }
            assert forall|k: Seq<char>|
                m.contains_key(k) && #[trigger] m[k].0@ == channel@ implies exists|a: int|
                    0 <= a < keys@.len() && (#[trigger] keys@[a])@ == k by {
                let j = choose|j: int| self.has_key_at(k, j);
                self.lemma_view_at(j);
                assert(self.entries@[j].1.0@ == channel@);
            }
        }
        keys
    }
}

} // verus!
