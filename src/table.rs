use vstd::prelude::*;

verus! {

/// A value that can be copied at run time with the same view.
pub trait Duplicate: View + Sized {
    fn duplicate(&self) -> (r: Self)
        ensures
            r@ == self@,
    ;
}

/// A key that can be compared at run time in agreement with its view.
pub trait TableKey: Duplicate {
    fn same_key(&self, other: &Self) -> (r: bool)
        ensures
            r == (self@ == other@),
    ;
}

impl Duplicate for String {
    fn duplicate(&self) -> (r: Self) {
        self.clone()
    }
}

impl Duplicate for u128 {
    fn duplicate(&self) -> (r: Self) {
        *self
    }
}

impl Duplicate for (String, String) {
    fn duplicate(&self) -> (r: Self) {
        (self.0.clone(), self.1.clone())
    }
}

impl Duplicate for u64 {
    fn duplicate(&self) -> (r: Self) {
        *self
    }
}

impl TableKey for u64 {
    fn same_key(&self, other: &Self) -> (r: bool) {
        *self == *other
    }
}

impl TableKey for String {
    fn same_key(&self, other: &Self) -> (r: bool) {
        self.eq(other)
    }
}

impl TableKey for (String, String) {
    fn same_key(&self, other: &Self) -> (r: bool) {
        self.0.eq(&other.0) && self.1.eq(&other.1)
    }
}

/// A small associative table: a vector of entries with pairwise distinct keys,
/// seen as the finite map from each key to its value.
pub struct Table<K: View, V: View> {
    entries: Vec<(K, V)>,
    contents: Ghost<Map<<K as View>::V, <V as View>::V>>,
}

impl<K: TableKey, V: View> View for Table<K, V> {
    type V = Map<<K as View>::V, <V as View>::V>;

    closed spec fn view(&self) -> Self::V {
        self.contents@
    }
}

impl<K: TableKey, V: View> Table<K, V> {
    /// The entries agree with the map, and no key occurs twice.
    pub closed spec fn wf(&self) -> bool {
        &&& forall|i: int|
            0 <= i < self.entries.len() ==> {
                &&& #[trigger] self.contents@.contains_key(self.entries@[i].0@)
                &&& self.contents@[self.entries@[i].0@] == self.entries@[i].1@
            }
        &&& forall|k: <K as View>::V| #[trigger]
            self.contents@.contains_key(k) ==> exists|i: int|
                0 <= i < self.entries.len() && #[trigger] self.entries@[i].0@ == k
        &&& forall|i: int, j: int|
            0 <= i < self.entries.len() && 0 <= j < self.entries.len() && i != j
                ==> #[trigger] self.entries@[i].0@ != #[trigger] self.entries@[j].0@
    }

    pub fn new() -> (r: Self)
        ensures
            r.wf(),
            r@ == Map::<<K as View>::V, <V as View>::V>::empty(),
    {
        Table { entries: Vec::new(), contents: Ghost(Map::empty()) }
    }

    proof fn lemma_entry_is_held(&self, j: int)
        requires
            self.wf(),
            0 <= j < self.entries.len(),
        ensures
            self@.contains_key(self.entries@[j].0@),
    {
    }

    proof fn lemma_key_has_entry(&self, k: <K as View>::V)
        requires
            self.wf(),
            self@.contains_key(k),
        ensures
            exists|j: int| 0 <= j < self.entries.len() && self.entries@[j].0@ == k,
    {
    }

    fn position(&self, k: &K) -> (r: Option<usize>)
        requires
            self.wf(),
        ensures
            r.is_none() ==> !self@.contains_key(k@),
            r.is_some() ==> {
                &&& r.unwrap() < self.entries.len()
                &&& self.entries@[r.unwrap() as int].0@ == k@
                &&& self@.contains_key(k@)
            },
    {
        let mut i: usize = 0;
        while i < self.entries.len()
            invariant
                self.wf(),
                i <= self.entries.len(),
                forall|j: int| 0 <= j < i ==> self.entries@[j].0@ != k@,
            decreases self.entries.len() - i,
        {
            if self.entries[i].0.same_key(k) {
                assert(self.contents@.contains_key(self.entries@[i as int].0@));
                return Some(i);
            }
            i += 1;
        }
        None
    }

    /// The value stored under `k`, if any.
    pub fn get(&self, k: &K) -> (r: Option<&V>)
        requires
            self.wf(),
        ensures
            r.is_some() == self@.contains_key(k@),
            r.is_some() ==> r.unwrap()@ == self@[k@],
    {
        match self.position(k) {
            Some(i) => {
                assert(self.contents@[self.entries@[i as int].0@] == self.entries@[i as int].1@);
                Some(&self.entries[i].1)
            },
            None => None,
        }
    }

    /// Stores `v` under `k`, replacing what was there.
    pub fn put(&mut self, k: K, v: V)
        requires
            old(self).wf(),
        ensures
            final(self).wf(),
            final(self)@ == old(self)@.insert(k@, v@),
    {
        let ghost kv = k@;
        let ghost vv = v@;
        let ghost old_entries = self.entries@;
        let ghost new_map = self.contents@.insert(kv, vv);
        match self.position(&k) {
            Some(i) => {
                self.entries.set(i, (k, v));
                self.contents = Ghost(new_map);
                assert forall|kk| #[trigger] self.contents@.contains_key(kk) implies exists|j: int|
                    0 <= j < self.entries.len() && #[trigger] self.entries@[j].0@ == kk by {
                    if kk == kv {
                        assert(self.entries@[i as int].0@ == kk);
                    } else {
                        let j = choose|j: int| 0 <= j < old_entries.len() && #[trigger] old_entries[j].0@ == kk;
                        assert(self.entries@[j].0@ == kk);
                    }
                }
            },
            None => {
                self.entries.push((k, v));
                self.contents = Ghost(new_map);
                assert forall|kk| #[trigger] self.contents@.contains_key(kk) implies exists|j: int|
                    0 <= j < self.entries.len() && #[trigger] self.entries@[j].0@ == kk by {
                    if kk == kv {
                        assert(self.entries@[old_entries.len() as int].0@ == kk);
                    } else {
                        let j = choose|j: int| 0 <= j < old_entries.len() && #[trigger] old_entries[j].0@ == kk;
                        assert(self.entries@[j].0@ == kk);
                    }
                }
            },
        }
    }

    /// Removes the entry under `k`, if there is one, and hands its value back.
    pub fn take(&mut self, k: &K) -> (r: Option<V>)
        requires
            old(self).wf(),
        ensures
            final(self).wf(),
            final(self)@ == old(self)@.remove(k@),
            r.is_some() == old(self)@.contains_key(k@),
            r.is_some() ==> r.unwrap()@ == old(self)@[k@],
    {
        let ghost kv = k@;
        let ghost old_entries = self.entries@;
        let ghost new_map = self.contents@.remove(kv);
        match self.position(k) {
            Some(i) => {
                let (_, v) = self.entries.remove(i);
                self.contents = Ghost(new_map);
                assert forall|j: int| 0 <= j < self.entries.len() implies {
                    &&& #[trigger] self.contents@.contains_key(self.entries@[j].0@)
                    &&& self.contents@[self.entries@[j].0@] == self.entries@[j].1@
                } by {
                    if j < i {
                        assert(self.entries@[j] == old_entries[j]);
                        assert(old_entries[j].0@ != old_entries[i as int].0@);
                    } else {
                        assert(self.entries@[j] == old_entries[j + 1]);
                        assert(old_entries[j + 1].0@ != old_entries[i as int].0@);
                    }
                }
                assert forall|kk| #[trigger] self.contents@.contains_key(kk) implies exists|j: int|
                    0 <= j < self.entries.len() && #[trigger] self.entries@[j].0@ == kk by {
                    let j = choose|j: int| 0 <= j < old_entries.len() && #[trigger] old_entries[j].0@ == kk;
                    if j < i {
                        assert(self.entries@[j].0@ == kk);
                    } else {
                        assert(j != i);
                        assert(self.entries@[j - 1].0@ == kk);
                    }
                }
                assert forall|a: int, b: int|
                    0 <= a < self.entries.len() && 0 <= b < self.entries.len() && a != b
                    implies #[trigger] self.entries@[a].0@ != #[trigger] self.entries@[b].0@ by {
                    let oa = if a < i { a } else { a + 1 };
                    let ob = if b < i { b } else { b + 1 };
                    assert(self.entries@[a] == old_entries[oa]);
                    assert(self.entries@[b] == old_entries[ob]);
                }
                Some(v)
            },
            None => {
                assert(self.contents@ =~= new_map);
                None
            },
        }
    }

    /// Removes the entry under `k`, if there is one.
    pub fn remove(&mut self, k: &K)
        requires
            old(self).wf(),
        ensures
            final(self).wf(),
            final(self)@ == old(self)@.remove(k@),
    {
        let _ = self.take(k);
    }

    /// A second table with the same contents.
    pub fn duplicate(&self) -> (r: Self) where V: Duplicate
        requires
            self.wf(),
        ensures
            r.wf(),
            r@ == self@,
    {
        let mut entries: Vec<(K, V)> = Vec::new();
        let mut i: usize = 0;
        while i < self.entries.len()
            invariant
                self.wf(),
                i <= self.entries.len(),
                entries.len() == i,
                forall|j: int| 0 <= j < i ==> #[trigger] entries@[j].0@ == self.entries@[j].0@
                    && entries@[j].1@ == self.entries@[j].1@,
            decreases self.entries.len() - i,
        {
            let e = (self.entries[i].0.duplicate(), self.entries[i].1.duplicate());
            entries.push(e);
            i += 1;
        }
        let r = Table { entries, contents: Ghost(self.contents@) };
        assert forall|k| #[trigger] r.contents@.contains_key(k) implies exists|j: int|
            0 <= j < r.entries.len() && #[trigger] r.entries@[j].0@ == k by {
            let j = choose|j: int| 0 <= j < self.entries.len() && #[trigger] self.entries@[j].0@ == k;
            assert(r.entries@[j].0@ == k);
        }
        assert forall|a: int, b: int|
            0 <= a < r.entries.len() && 0 <= b < r.entries.len() && a != b
            implies #[trigger] r.entries@[a].0@ != #[trigger] r.entries@[b].0@ by {
            assert(self.entries@[a].0@ != self.entries@[b].0@);
        }
        r
    }

    /// The entries, in the order in which they are held.
    pub closed spec fn entry_seq(&self) -> Seq<(K, V)> {
        self.entries@
    }

    /// The keys and values, in the order in which they are held.
    pub fn entries(&self) -> (r: &Vec<(K, V)>)
        requires
            self.wf(),
        ensures
            r@ == self.entry_seq(),
            forall|i: int| 0 <= i < r.len() ==> {
                &&& #[trigger] self@.contains_key(r@[i].0@)
                &&& self@[r@[i].0@] == r@[i].1@
            },
            forall|k| #[trigger] self@.contains_key(k) ==> exists|i: int|
                0 <= i < r.len() && #[trigger] r@[i].0@ == k,
            forall|i: int, j: int|
                0 <= i < r.len() && 0 <= j < r.len() && i != j ==> #[trigger] r@[i].0@
                    != #[trigger] r@[j].0@,
    {
        assert forall|i: int| 0 <= i < self.entries.len() implies {
            &&& #[trigger] self@.contains_key(self.entries@[i].0@)
            &&& self@[self.entries@[i].0@] == self.entries@[i].1@
        } by {
            assert(self.contents@.contains_key(self.entries@[i].0@));
        }
        &self.entries
    }
}

impl<V: View> Table<u64, V> {
    /// The greatest key, if there is one.
    pub fn max_key(&self) -> (r: Option<u64>)
        requires
            self.wf(),
        ensures
            match r {
                Some(t) => self@.contains_key(t) && forall|n: u64| #[trigger] self@.contains_key(n) ==> n <= t,
                None => forall|n: u64| !#[trigger] self@.contains_key(n),
            },
    {
        let mut best: Option<u64> = None;
        let mut i: usize = 0;
        while i < self.entries.len()
            invariant
                self.wf(),
                i <= self.entries.len(),
                i == 0 <==> best is None,
                best is Some ==> exists|j: int| 0 <= j < i && self.entries@[j].0 == best->Some_0,
                best is Some ==> forall|j: int| 0 <= j < i ==> #[trigger] self.entries@[j].0 <= best->Some_0,
            decreases self.entries.len() - i,
        {
            let n = self.entries[i].0;
            best = match best {
                Some(t) => if n > t {
                    Some(n)
                } else {
                    Some(t)
                },
                None => Some(n),
            };
            i += 1;
        }
        proof {
            match best {
                Some(t) => {
                    let j0 = choose|j: int| 0 <= j < self.entries.len() && self.entries@[j].0 == t;
                    self.lemma_entry_is_held(j0);
                    assert forall|n: u64| #[trigger] self@.contains_key(n) implies n <= t by {
                        self.lemma_key_has_entry(n);
                        let j = choose|j: int| 0 <= j < self.entries.len() && self.entries@[j].0@ == n;
                        assert(self.entries@[j].0 <= t);
                    }
                },
                None => {
                    assert forall|n: u64| !#[trigger] self@.contains_key(n) by {
                        if self@.contains_key(n) {
                            self.lemma_key_has_entry(n);
                        }
                    }
                },
            }
        }
        best
    }
}

} // verus!
