//! A map from strings to values that keeps its entries in insertion order
//! and holds each key at most once.
use vstd::prelude::*;

verus! {

/// Index of the entry with key `k` in `ps`, or `-1`.
pub open spec fn find_key<W>(ps: Seq<(Seq<char>, W)>, k: Seq<char>) -> int
    decreases ps.len(),
{
    if ps.len() == 0 {
        -1
    } else if ps.last().0 == k {
        ps.len() - 1
    } else {
        find_key(ps.drop_last(), k)
    }
}

/// The value stored under `k`, if any.
pub open spec fn lookup<W>(ps: Seq<(Seq<char>, W)>, k: Seq<char>) -> Option<W> {
    let i = find_key(ps, k);
    if i >= 0 {
        Some(ps[i].1)
    } else {
        None
    }
}

/// `ps` with `k` bound to `v`: the entry keeps its place when `k` is
/// already present, and is appended otherwise (`HashMap::insert`).
pub open spec fn insert_key<W>(ps: Seq<(Seq<char>, W)>, k: Seq<char>, v: W) -> Seq<(Seq<char>, W)> {
    let i = find_key(ps, k);
    if i >= 0 {
        ps.update(i, (k, v))
    } else {
        ps.push((k, v))
    }
}

/// No key occurs twice in `ps`.
pub open spec fn keys_unique<W>(ps: Seq<(Seq<char>, W)>) -> bool {
    forall|i: int, j: int| 0 <= i < j < ps.len() ==> #[trigger] ps[i].0 != #[trigger] ps[j].0
}

/// `find_key` gives -1 or the position of an entry with that key.
pub proof fn lemma_find_key_range<W>(ps: Seq<(Seq<char>, W)>, k: Seq<char>)
    ensures
        -1 <= find_key(ps, k) < ps.len(),
        find_key(ps, k) >= 0 ==> ps[find_key(ps, k)].0 == k,
    decreases ps.len(),
{
    if ps.len() > 0 && ps.last().0 != k {
        lemma_find_key_range(ps.drop_last(), k);
    }
}

pub proof fn lemma_find_key<W>(ps: Seq<(Seq<char>, W)>, k: Seq<char>)
    requires
        keys_unique(ps),
    ensures
        -1 <= find_key(ps, k) < ps.len(),
        find_key(ps, k) >= 0 ==> ps[find_key(ps, k)].0 == k,
        find_key(ps, k) < 0 ==> forall|j: int| 0 <= j < ps.len() ==> #[trigger] ps[j].0 != k,
        forall|j: int| 0 <= j < ps.len() && #[trigger] ps[j].0 == k ==> j == find_key(ps, k),
    decreases ps.len(),
{
    if ps.len() > 0 && ps.last().0 != k {
        let q = ps.drop_last();
        assert(keys_unique(q)) by {
            assert forall|i: int, j: int| 0 <= i < j < q.len() implies #[trigger] q[i].0 != #[trigger] q[j].0 by {
                assert(q[i] == ps[i] && q[j] == ps[j]);
            }
        }
        lemma_find_key(q, k);
        assert forall|j: int| 0 <= j < ps.len() && #[trigger] ps[j].0 == k implies j == find_key(ps, k) by {
            assert(j < ps.len() - 1);
            assert(q[j] == ps[j]);
        }
    }
}

pub proof fn lemma_insert_key<W>(ps: Seq<(Seq<char>, W)>, k: Seq<char>, v: W)
    requires
        keys_unique(ps),
    ensures
        keys_unique(insert_key(ps, k, v)),
        lookup(insert_key(ps, k, v), k) == Some(v),
        forall|k2: Seq<char>| k2 != k ==> lookup(insert_key(ps, k, v), k2) == lookup(ps, k2),
{
    lemma_find_key(ps, k);
    let r = insert_key(ps, k, v);
    assert(keys_unique(r));
    lemma_find_key(r, k);
    if find_key(ps, k) >= 0 {
        assert(r[find_key(ps, k)].0 == k);
    } else {
        assert(r[ps.len() as int].0 == k);
    }
    assert forall|k2: Seq<char>| k2 != k implies lookup(r, k2) == lookup(ps, k2) by {
        lemma_find_key(ps, k2);
        lemma_find_key(r, k2);
        if find_key(ps, k2) >= 0 {
            assert(r[find_key(ps, k2)].0 == k2);
        }
        if find_key(r, k2) >= 0 {
            assert(find_key(r, k2) < ps.len());
            assert(ps[find_key(r, k2)].0 == k2);
        }
    }
}

/// A string-keyed map whose entries stay in insertion order.
pub struct StrMap<V> {
    pub entries: Vec<(String, V)>,
}

impl<V: DeepView> StrMap<V> {
    /// The entries as (key, value) pairs of plain values, in order.
    pub open spec fn pairs(&self) -> Seq<(Seq<char>, V::V)> {
        Seq::new(self.entries@.len(), |i: int| (self.entries@[i].0@, self.entries@[i].1.deep_view()))
    }

    /// No key is held twice.
    pub open spec fn wf(&self) -> bool {
        keys_unique(self.pairs())
    }

    /// The empty map.
    pub fn new() -> (r: Self)
        ensures
            r.pairs() == Seq::<(Seq<char>, V::V)>::empty(),
            r.wf(),
    {
        let r = StrMap { entries: Vec::new() };
        assert(r.pairs() =~= Seq::<(Seq<char>, V::V)>::empty());
        r
    }

    /// The number of entries.
    pub fn len(&self) -> (r: usize)
        ensures
            r == self.pairs().len(),
    {
        self.entries.len()
    }

    /// Position of the entry with key `key`, if any.
    pub fn position(&self, key: &String) -> (r: Option<usize>)
        requires
            self.wf(),
        ensures
            match r {
                Some(i) => i == find_key(self.pairs(), key@) && i < self.pairs().len(),
                None => find_key(self.pairs(), key@) < 0,
            },
    {
        proof {
            lemma_find_key(self.pairs(), key@);
        }
        let mut i = self.entries.len();
        while i > 0
            invariant
                i <= self.entries@.len(),
                forall|j: int| i <= j < self.entries@.len() ==> #[trigger] self.pairs()[j].0 != key@,
                keys_unique(self.pairs()),
            decreases i,
        {
            let ghost ps = self.pairs();
            if self.entries[i - 1].0 == *key {
                proof {
                    assert(ps[i - 1].0 == key@);
                    lemma_find_key(ps, key@);
                }
                return Some(i - 1);
            }
            i = i - 1;
        }
        None
    }

    /// The value stored under `key`, if any.
    pub fn get(&self, key: &String) -> (r: Option<&V>)
        requires
            self.wf(),
        ensures
            match r {
                Some(v) => lookup(self.pairs(), key@) == Some(v.deep_view()),
                None => lookup(self.pairs(), key@) is None,
            },
    {
        match self.position(key) {
            Some(i) => Some(&self.entries[i].1),
            None => None,
        }
    }

    /// Binds `key` to `value`; an existing entry keeps its place.
    pub fn insert(&mut self, key: String, value: V)
        requires
            old(self).wf(),
        ensures
            final(self).wf(),
            final(self).pairs() == insert_key(old(self).pairs(), key@, value.deep_view()),
    {
        let ghost ps = self.pairs();
        let ghost kv = (key@, value.deep_view());
        proof {
            lemma_insert_key(ps, key@, value.deep_view());
        }
        match self.position(&key) {
            Some(i) => {
                self.entries.set(i, (key, value));
                assert(self.pairs() =~= ps.update(i as int, kv));
            },
            None => {
                self.entries.push((key, value));
                assert(self.pairs() =~= ps.push(kv));
            },
        }
    }
}


/// `ps` with `x` appended to the list under `k` (a new list when `k` is absent).
pub open spec fn append_at<W>(ps: Seq<(Seq<char>, Seq<W>)>, k: Seq<char>, x: W) -> Seq<(Seq<char>, Seq<W>)> {
    let i = find_key(ps, k);
    if i >= 0 {
        ps.update(i, (k, ps[i].1.push(x)))
    } else {
        ps.push((k, seq![x]))
    }
}

/// `ps` with an empty list under `k` unless `k` is present (`entry().or_default()`).
pub open spec fn ensure_key<W>(ps: Seq<(Seq<char>, Seq<W>)>, k: Seq<char>) -> Seq<(Seq<char>, Seq<W>)> {
    if find_key(ps, k) >= 0 {
        ps
    } else {
        ps.push((k, Seq::empty()))
    }
}

impl<T: DeepView> StrMap<Vec<T>> {
    /// Appends `item` to the list under `key`, creating the list if needed.
    pub fn append(&mut self, key: &String, item: T)
        requires
            old(self).wf(),
        ensures
            final(self).wf(),
            final(self).pairs() == append_at(old(self).pairs(), key@, item.deep_view()),
    {
        let ghost ps = self.pairs();
        proof {
            lemma_find_key(ps, key@);
        }
        match self.position(key) {
            Some(i) => {
                let ghost old_list = self.entries@[i as int].1;
                self.entries[i].1.push(item);
                proof {
                    assert(self.entries@[i as int].1.deep_view() =~= old_list.deep_view().push(item.deep_view()));
                    assert(self.pairs() =~= ps.update(i as int, (key@, ps[i as int].1.push(item.deep_view()))));
                    assert forall|a: int, b: int| 0 <= a < b < self.pairs().len() implies #[trigger] self.pairs()[a].0 != #[trigger] self.pairs()[b].0 by {
                        assert(self.pairs()[a].0 == ps[a].0);
                        assert(self.pairs()[b].0 == ps[b].0);
                    }
                }
            },
            None => {
                let mut list: Vec<T> = Vec::new();
                list.push(item);
                let k = key.clone();
                self.entries.push((k, list));
                proof {
                    assert(list.deep_view() =~= seq![item.deep_view()]);
                    assert(self.pairs() =~= ps.push((key@, seq![item.deep_view()])));
                }
            },
        }
    }

    /// Makes sure an (empty) list exists under `key`.
    pub fn ensure(&mut self, key: &String)
        requires
            old(self).wf(),
        ensures
            final(self).wf(),
            final(self).pairs() == ensure_key(old(self).pairs(), key@),
    {
        let ghost ps = self.pairs();
        proof {
            lemma_find_key(ps, key@);
        }
        match self.position(key) {
            Some(_) => {},
            None => {
                let k = key.clone();
                let list: Vec<T> = Vec::new();
                proof {
                    assert(list.deep_view() =~= Seq::<T::V>::empty());
                }
                self.entries.push((k, list));
                proof {
                    assert(self.pairs() =~= ps.push((key@, Seq::<T::V>::empty())));
                }
            },
        }
    }
}

} // verus!
