//! A map from string keys to values, kept as a list of entries whose keys are
//! distinct. Every pending registry of a turn is one of these.
use vstd::prelude::*;

verus! {

pub open spec fn has_key_at<V>(entries: Seq<(String, V)>, k: Seq<char>, i: int) -> bool {
    0 <= i < entries.len() && entries[i].0@ == k
}

pub open spec fn keys_distinct<V>(entries: Seq<(String, V)>) -> bool {
    forall|i: int, j: int|
        0 <= i < entries.len() && 0 <= j < entries.len() && i != j ==> entries[i].0@
            != entries[j].0@
}

/// The map that a list of entries with distinct keys stands for.
pub open spec fn map_of_entries<V>(entries: Seq<(String, V)>) -> Map<Seq<char>, V> {
    Map::new(
        |k: Seq<char>| exists|i: int| has_key_at(entries, k, i),
        |k: Seq<char>| entries[choose|i: int| has_key_at(entries, k, i)].1,
    )
}

proof fn lemma_map_of_entries_at<V>(entries: Seq<(String, V)>, i: int)
    requires
        keys_distinct(entries),
        0 <= i < entries.len(),
    ensures
        map_of_entries(entries).contains_key(entries[i].0@),
        map_of_entries(entries)[entries[i].0@] == entries[i].1,
{
    let k = entries[i].0@;
    assert(has_key_at(entries, k, i));
    let j = choose|j: int| has_key_at(entries, k, j);
    assert(j == i);
}

proof fn lemma_map_of_entries_all<V>(entries: Seq<(String, V)>)
    requires
        keys_distinct(entries),
    ensures
        forall|i: int|
            #![trigger entries[i]]
            0 <= i < entries.len() ==> map_of_entries(entries).contains_key(entries[i].0@)
                && map_of_entries(entries)[entries[i].0@] == entries[i].1,
{
    assert forall|i: int| #![trigger entries[i]] 0 <= i < entries.len() implies map_of_entries(
        entries,
    ).contains_key(entries[i].0@) && map_of_entries(entries)[entries[i].0@] == entries[i].1 by {
        lemma_map_of_entries_at(entries, i);
    }
}

/// A value that can be copied into a new one with the same view.
pub trait Duplicate: View + Sized {
    fn duplicate(&self) -> (r: Self)
        ensures
            r@ == self@;
}

pub struct KeyedMap<V> {
    entries: Vec<(String, V)>,
}

impl<V> View for KeyedMap<V> {
    type V = Map<Seq<char>, V>;

    closed spec fn view(&self) -> Map<Seq<char>, V> {
        map_of_entries(self.entries@)
    }
}

impl<V> KeyedMap<V> {
    pub closed spec fn wf(&self) -> bool {
        keys_distinct(self.entries@)
    }

    pub fn new() -> (r: Self)
        ensures
            r.wf(),
            r@ == Map::<Seq<char>, V>::empty(),
    {
        let r = KeyedMap { entries: Vec::new() };
        assert(r@ =~= Map::<Seq<char>, V>::empty());
        r
    }

    pub fn len(&self) -> (r: usize)
        requires
            self.wf(),
        ensures
            r == self@.len(),
    {
        proof {
            self.lemma_len();
        }
        self.entries.len()
    }

    pub fn is_empty(&self) -> (r: bool)
        requires
            self.wf(),
        ensures
            r == (self@ == Map::<Seq<char>, V>::empty()),
    {
        proof {
            self.lemma_len();
            if self@ == Map::<Seq<char>, V>::empty() {
                assert(self@.dom().len() == 0);
            }
            if self.entries@.len() == 0 {
                assert(self@ =~= Map::<Seq<char>, V>::empty());
            }
        }
        self.entries.len() == 0
    }

    proof fn lemma_len(&self)
        requires
            self.wf(),
        ensures
            self@.dom().finite(),
            self@.len() == self.entries@.len(),
        decreases self.entries@.len(),
    {
        let e = self.entries@;
        let ks = Seq::new(e.len(), |i: int| e[i].0@);
        assert(ks.no_duplicates());
        ks.unique_seq_to_set();
        assert(self@.dom() =~= ks.to_set()) by {
            assert forall|k: Seq<char>| self@.dom().contains(k) implies ks.to_set().contains(k) by {
                let i = choose|i: int| has_key_at(e, k, i);
                assert(ks[i] == k);
            }
            assert forall|k: Seq<char>| ks.to_set().contains(k) implies self@.dom().contains(k) by {
                let i = choose|i: int| 0 <= i < ks.len() && ks[i] == k;
                assert(has_key_at(e, k, i));
            }
        }
        vstd::seq_lib::seq_to_set_is_finite(ks);
    }

    /// The position of the entry under `key`, if there is one.
    fn find(&self, key: &str) -> (r: Option<usize>)
        requires
            self.wf(),
        ensures
            r is None ==> !self@.contains_key(key@),
            r matches Some(i) ==> has_key_at(self.entries@, key@, i as int),
    {
        let wanted = key.to_owned();
        let mut i: usize = 0;
        while i < self.entries.len()
            invariant
                wanted@ == key@,
                i <= self.entries@.len(),
                forall|j: int| 0 <= j < i ==> self.entries@[j].0@ != key@,
            decreases self.entries@.len() - i,
        {
            if self.entries[i].0 == wanted {
                return Some(i);
            }
            i = i + 1;
        }
        None
    }

    pub fn contains_key(&self, key: &str) -> (r: bool)
        requires
            self.wf(),
        ensures
            r == self@.contains_key(key@),
    {
        match self.find(key) {
            Some(_) => true,
            None => false,
        }
    }

    pub fn get(&self, key: &str) -> (r: Option<&V>)
        requires
            self.wf(),
        ensures
            r is None ==> !self@.contains_key(key@),
            r matches Some(v) ==> self@.contains_key(key@) && self@[key@] == *v,
    {
        match self.find(key) {
            Some(i) => {
                proof {
                    lemma_map_of_entries_at(self.entries@, i as int);
                }
                Some(&self.entries[i].1)
            },
            None => None,
        }
    }

    /// Removes the entry at `i`; the last entry takes its place.
    fn take_at(&mut self, i: usize) -> (r: (String, V))
        requires
            old(self).wf(),
            i < old(self).entries@.len(),
        ensures
            final(self).wf(),
            r == old(self).entries@[i as int],
            final(self).entries@.len() == old(self).entries@.len() - 1,
            final(self)@ == old(self)@.remove(r.0@),
    {
        let ghost e = self.entries@;
        let r = self.entries.swap_remove(i);
        proof {
            let n = self.entries@;
            let k = r.0@;
            assert(forall|j: int| 0 <= j < n.len() ==> (#[trigger] n[j] == e[j] || (j == i && n[j] == e[e.len() - 1])));
            assert forall|a: int, b: int| 0 <= a < n.len() && 0 <= b < n.len() && a != b implies n[a].0@ != n[b].0@ by {
                let a0 = if a == i { e.len() - 1 } else { a };
                let b0 = if b == i { e.len() - 1 } else { b };
                assert(n[a] == e[a0]);
                assert(n[b] == e[b0]);
            }
            lemma_map_of_entries_all(e);
            lemma_map_of_entries_all(n);
            assert forall|q: Seq<char>| #[trigger] self@.contains_key(q) <==> old(self)@.remove(k).contains_key(q) by {
                if self@.contains_key(q) {
                    let j = choose|j: int| has_key_at(n, q, j);
                    let j0 = if j == i { e.len() - 1 } else { j };
                    assert(n[j] == e[j0]);
                    assert(has_key_at(e, q, j0));
                    assert(j0 != i);
                }
                if old(self)@.remove(k).contains_key(q) {
                    let j = choose|j: int| has_key_at(e, q, j);
                    assert(j != i);
                    let j1 = if j == e.len() - 1 { i as int } else { j };
                    assert(n[j1] == e[j]);
                    assert(has_key_at(n, q, j1));
                }
            }
            assert forall|q: Seq<char>| #[trigger] self@.contains_key(q) implies self@[q] == old(self)@.remove(k)[q] by {
                let j = choose|j: int| has_key_at(n, q, j);
                let j0 = if j == i { e.len() - 1 } else { j };
                assert(n[j] == e[j0]);
            }
            assert(self@ =~= old(self)@.remove(k));
        }
        r
    }

    /// Inserts `value` under `key`, handing back the value it replaces.
    pub fn insert(&mut self, key: String, value: V) -> (r: Option<V>)
        requires
            old(self).wf(),
        ensures
            final(self).wf(),
            final(self)@ == old(self)@.insert(key@, value),
            r is None ==> !old(self)@.contains_key(key@),
            r matches Some(v) ==> old(self)@.contains_key(key@) && old(self)@[key@] == v,
    {
        let previous = match self.find(key.as_str()) {
            Some(i) => {
                proof {
                    lemma_map_of_entries_at(self.entries@, i as int);
                }
                let (_, v) = self.take_at(i);
                Some(v)
            },
            None => None,
        };
        let ghost mid = self@;
        let ghost e = self.entries@;
        assert(!mid.contains_key(key@));
        self.entries.push((key, value));
        proof {
            let n = self.entries@;
            let k = key@;
            assert forall|j: int| 0 <= j < e.len() implies n[j].0@ != k by {
                lemma_map_of_entries_at(e, j);
                assert(n[j] == e[j]);
            }
            assert forall|a: int, b: int| 0 <= a < n.len() && 0 <= b < n.len() && a != b implies n[a].0@ != n[b].0@ by {
                if a < e.len() {
                    assert(n[a] == e[a]);
                }
                if b < e.len() {
                    assert(n[b] == e[b]);
                }
            }
            lemma_map_of_entries_all(e);
            lemma_map_of_entries_all(n);
            assert(has_key_at(n, k, e.len() as int));
            assert forall|q: Seq<char>| #[trigger] self@.contains_key(q) <==> mid.insert(k, value).contains_key(q) by {
                if self@.contains_key(q) && q != k {
                    let j = choose|j: int| has_key_at(n, q, j);
                    assert(j < e.len());
                    assert(n[j] == e[j]);
                    assert(has_key_at(e, q, j));
                }
                if mid.contains_key(q) {
                    let j = choose|j: int| has_key_at(e, q, j);
                    assert(n[j] == e[j]);
                    assert(has_key_at(n, q, j));
                }
            }
            assert forall|q: Seq<char>| #[trigger] self@.contains_key(q) implies self@[q] == mid.insert(k, value)[q] by {
                let j = choose|j: int| has_key_at(n, q, j);
                if j < e.len() {
                    assert(n[j] == e[j]);
                }
            }
            assert(self@ =~= mid.insert(k, value));
            assert(mid.insert(k, value) =~= old(self)@.insert(k, value));
        }
        previous
    }

    /// Removes the entry under `key` and hands back its value.
    pub fn remove(&mut self, key: &str) -> (r: Option<V>)
        requires
            old(self).wf(),
        ensures
            final(self).wf(),
            final(self)@ == old(self)@.remove(key@),
            r is None ==> !old(self)@.contains_key(key@),
            r matches Some(v) ==> old(self)@.contains_key(key@) && old(self)@[key@] == v,
    {
        match self.find(key) {
            Some(i) => {
                proof {
                    lemma_map_of_entries_at(self.entries@, i as int);
                }
                let (_, v) = self.take_at(i);
                Some(v)
            },
            None => {
                assert(self@ =~= self@.remove(key@));
                None
            },
        }
    }

    /// Drops every entry.
    pub fn clear(&mut self)
        ensures
            final(self).wf(),
            final(self)@ == Map::<Seq<char>, V>::empty(),
    {
        self.entries.clear();
        assert(self@ =~= Map::<Seq<char>, V>::empty());
    }

    /// Moves every entry of `other` in, replacing values under equal keys.
    pub fn extend(&mut self, other: KeyedMap<V>)
        requires
            old(self).wf(),
            other.wf(),
        ensures
            final(self).wf(),
            final(self)@ == old(self)@.union_prefer_right(other@),
    {
        let mut rest = other;
        while rest.entries.len() > 0
            invariant
                self.wf(),
                rest.wf(),
                self@.union_prefer_right(rest@) == old(self)@.union_prefer_right(other@),
            decreases rest.entries@.len(),
        {
            let last = rest.entries.len() - 1;
            let ghost before_self = self@;
            let ghost before_rest = rest@;
            proof {
                lemma_map_of_entries_at(rest.entries@, last as int);
            }
            let (k, v) = rest.take_at(last);
            let ghost kk = k@;
            self.insert(k, v);
            proof {
                assert(self@.union_prefer_right(rest@) =~= before_self.union_prefer_right(
                    before_rest,
                ));
            }
        }
        proof {
            assert(rest@ =~= Map::<Seq<char>, V>::empty());
            assert(self@.union_prefer_right(rest@) =~= self@);
        }
    }
}

impl<V: Duplicate> KeyedMap<V> {
    /// A copy of the map whose values have the same views.
    pub fn duplicate(&self) -> (r: Self)
        requires
            self.wf(),
        ensures
            r.wf(),
            r@.map_values(|v: V| v@) == self@.map_values(|v: V| v@),
    {
        let mut entries: Vec<(String, V)> = Vec::new();
        let mut i: usize = 0;
        while i < self.entries.len()
            invariant
                i <= self.entries@.len(),
                entries@.len() == i,
                forall|j: int|
                    #![trigger entries@[j]]
                    0 <= j < i ==> entries@[j].0@ == self.entries@[j].0@ && entries@[j].1@
                        == self.entries@[j].1@,
            decreases self.entries@.len() - i,
        {
            let key = self.entries[i].0.clone();
            let value = self.entries[i].1.duplicate();
            entries.push((key, value));
            i = i + 1;
        }
        let r = KeyedMap { entries };
        proof {
            let e = self.entries@;
            let n = r.entries@;
            assert(keys_distinct(n)) by {
                assert forall|a: int, b: int|
                    0 <= a < n.len() && 0 <= b < n.len() && a != b implies n[a].0@ != n[b].0@ by {
                    assert(n[a].0@ == e[a].0@);
                    assert(n[b].0@ == e[b].0@);
                }
            }
            lemma_map_of_entries_all(e);
            lemma_map_of_entries_all(n);
            assert forall|q: Seq<char>| #[trigger] r@.contains_key(q) <==> self@.contains_key(q) by {
                if r@.contains_key(q) {
                    let j = choose|j: int| has_key_at(n, q, j);
                    assert(n[j].0@ == e[j].0@);
                    assert(has_key_at(e, q, j));
                }
                if self@.contains_key(q) {
                    let j = choose|j: int| has_key_at(e, q, j);
                    assert(n[j].0@ == e[j].0@);
                    assert(has_key_at(n, q, j));
                }
            }
            assert forall|q: Seq<char>| #[trigger] r@.contains_key(q) implies r@[q]@ == self@[q]@ by {
                let j = choose|j: int| has_key_at(n, q, j);
                assert(n[j].0@ == e[j].0@);
                assert(n[j].1@ == e[j].1@);
            }
            assert(r@.map_values(|v: V| v@) =~= self@.map_values(|v: V| v@));
        }
        r
    }
}

} // verus!
