//! A map keyed by names, walked in the order of its keys.
use vstd::prelude::*;
use crate::utils::text::{
    text_lt, string_lt, lemma_text_lt_irreflexive, lemma_text_lt_transitive,
    lemma_text_lt_total,
};

verus! {

/// The keys of `es` stand in strictly increasing order.
pub open spec fn keys_strictly_sorted<V>(es: Seq<(String, V)>) -> bool {
    forall|i: int, j: int|
        0 <= i < j < es.len() ==> text_lt(#[trigger] es[i].0@, #[trigger] es[j].0@)
}

/// `k` is the key of some entry of `es`.
pub open spec fn has_key<V>(es: Seq<(String, V)>, k: Seq<char>) -> bool {
    exists|i: int| 0 <= i < es.len() && #[trigger] es[i].0@ == k
}

/// The position of the entry whose key is `k`.
pub open spec fn key_position<V>(es: Seq<(String, V)>, k: Seq<char>) -> int {
    choose|i: int| 0 <= i < es.len() && #[trigger] es[i].0@ == k
}

/// The map that the entries `es` describe.
pub open spec fn entries_map<V>(es: Seq<(String, V)>) -> Map<Seq<char>, V> {
    Map::new(|k: Seq<char>| has_key(es, k), |k: Seq<char>| es[key_position(es, k)].1)
}

/// Sorted keys are distinct.
pub proof fn lemma_sorted_keys_distinct<V>(es: Seq<(String, V)>, i: int, j: int)
    requires
        keys_strictly_sorted(es),
        0 <= i < es.len(),
        0 <= j < es.len(),
        i != j,
    ensures
        es[i].0@ != es[j].0@,
{
    if i < j {
        assert(text_lt(es[i].0@, es[j].0@));
        lemma_text_lt_irreflexive(es[i].0@);
    } else {
        assert(text_lt(es[j].0@, es[i].0@));
        lemma_text_lt_irreflexive(es[j].0@);
    }
}

/// In sorted entries, the entry at `i` is what the map holds for its key.
pub proof fn lemma_entries_map_at<V>(es: Seq<(String, V)>, i: int)
    requires
        keys_strictly_sorted(es),
        0 <= i < es.len(),
    ensures
        entries_map(es).contains_key(es[i].0@),
        entries_map(es)[es[i].0@] == es[i].1,
        key_position(es, es[i].0@) == i,
{
    assert(has_key(es, es[i].0@));
    let p = key_position(es, es[i].0@);
    if p != i {
        lemma_sorted_keys_distinct(es, p, i);
    }
}

/// Sorted entries hold as many keys as they have entries.
pub proof fn lemma_entries_map_len<V>(es: Seq<(String, V)>)
    requires
        keys_strictly_sorted(es),
    ensures
        entries_map(es).dom().finite(),
        entries_map(es).dom().len() == es.len(),
{
    let keys = es.map_values(|e: (String, V)| e.0@);
    assert forall|i: int, j: int| 0 <= i < keys.len() && 0 <= j < keys.len() && i != j implies keys[i]
        != keys[j] by {
        lemma_sorted_keys_distinct(es, i, j);
    }
    assert(keys.no_duplicates());
    keys.unique_seq_to_set();
    assert forall|k: Seq<char>| entries_map(es).dom().contains(k) <==> keys.to_set().contains(k) by {
        if has_key(es, k) {
            let i = choose|i: int| 0 <= i < es.len() && #[trigger] es[i].0@ == k;
            assert(keys[i] == k);
        }
        if keys.contains(k) {
            let i = choose|i: int| 0 <= i < keys.len() && keys[i] == k;
            assert(es[i].0@ == k);
        }
    }
    assert(entries_map(es).dom() =~= keys.to_set());
}

/// A map from names to values, kept as entries in increasing key order.
pub struct NameMap<V> {
    entries: Vec<(String, V)>,
}

impl<V> View for NameMap<V> {
    type V = Map<Seq<char>, V>;

    open spec fn view(&self) -> Map<Seq<char>, V> {
        entries_map(self.entries())
    }
}

impl<V> NameMap<V> {
    /// The entries, in increasing key order.
    pub closed spec fn entries(&self) -> Seq<(String, V)> {
        self.entries@
    }

    /// The entries are kept in strictly increasing key order.
    pub open spec fn wf(&self) -> bool {
        keys_strictly_sorted(self.entries())
    }

    /// The keys, in increasing order.
    pub open spec fn key_seq(&self) -> Seq<Seq<char>> {
        self.entries().map_values(|e: (String, V)| e.0@)
    }

    pub fn new() -> (r: Self)
        ensures
            r.wf(),
            r.entries() == Seq::<(String, V)>::empty(),
            r@ == Map::<Seq<char>, V>::empty(),
    {
        let r = NameMap { entries: Vec::new() };
        assert(r@ =~= Map::<Seq<char>, V>::empty());
        r
    }

    /// The number of entries; in a well-formed map, the number of keys the
    /// map holds.
    pub fn len(&self) -> (r: usize)
        ensures
            r == self.entries().len(),
            self.wf() ==> r == self@.dom().len(),
    {
        proof {
            if self.wf() {
                lemma_entries_map_len(self.entries());
            }
        }
        self.entries.len()
    }

    pub fn key_at(&self, i: usize) -> (r: &String)
        requires
            i < self.entries().len(),
        ensures
            *r == self.entries()[i as int].0,
    {
        &self.entries[i].0
    }

    pub fn value_at(&self, i: usize) -> (r: &V)
        requires
            i < self.entries().len(),
        ensures
            *r == self.entries()[i as int].1,
    {
        &self.entries[i].1
    }

    /// The position of the entry whose key is `key`, if there is one.
    pub fn index_of(&self, key: &String) -> (r: Option<usize>)
        ensures
            match r {
                Some(i) => i < self.entries().len() && self.entries()[i as int].0@ == key@,
                None => !has_key(self.entries(), key@),
            },
    {
        let n = self.entries.len();
        let mut i: usize = 0;
        while i < n
            invariant
                n == self.entries().len(),
                i <= n,
                forall|j: int| 0 <= j < i ==> self.entries()[j].0@ != key@,
            decreases n - i,
        {
            if self.entries[i].0 == *key {
                return Some(i);
            }
            i = i + 1;
        }
        None
    }

    /// What the map holds for `key`.
    pub fn get(&self, key: &String) -> (r: Option<&V>)
        requires
            self.wf(),
        ensures
            match r {
                Some(v) => self@.contains_key(key@) && *v == self@[key@],
                None => !self@.contains_key(key@),
            },
    {
        match self.index_of(key) {
            Some(i) => {
                proof {
                    lemma_entries_map_at(self.entries(), i as int);
                }
                Some(&self.entries[i].1)
            },
            None => None,
        }
    }

    /// Whether the map holds `key`.
    pub fn contains_key(&self, key: &String) -> (r: bool)
        ensures
            r == self@.contains_key(key@),
    {
        self.index_of(key).is_some()
    }

    /// The first position whose key is not below `key`.
    fn lower_bound(&self, key: &String) -> (r: usize)
        ensures
            r <= self.entries().len(),
            forall|j: int| 0 <= j < r ==> text_lt(#[trigger] self.entries()[j].0@, key@),
            r < self.entries().len() ==> !text_lt(self.entries()[r as int].0@, key@),
    {
        let n = self.entries.len();
        let mut i: usize = 0;
        while i < n
            invariant
                n == self.entries().len(),
                i <= n,
                forall|j: int| 0 <= j < i ==> text_lt(#[trigger] self.entries()[j].0@, key@),
            decreases n - i,
        {
            if !string_lt(&self.entries[i].0, key) {
                return i;
            }
            i = i + 1;
        }
        n
    }

    /// Sets what the map holds for `key` to `value`, replacing what it held.
    pub fn insert(&mut self, key: String, value: V)
        requires
            old(self).wf(),
        ensures
            final(self).wf(),
            final(self)@ == old(self)@.insert(key@, value),
    {
        let ghost old_es = self.entries@;
        let p = self.lower_bound(&key);
        if p < self.entries.len() && self.entries[p].0 == key {
            let ghost new_es = old_es.update(p as int, (key, value));
            self.entries.set(p, (key, value));
            assert(self.entries@ == new_es);
            assert forall|i: int, j: int| 0 <= i < j < new_es.len() implies text_lt(
                #[trigger] new_es[i].0@,
                #[trigger] new_es[j].0@,
            ) by {
                assert(old_es[i].0@ == new_es[i].0@);
                assert(old_es[j].0@ == new_es[j].0@);
            }
            proof { self.lemma_insert_view(old_es, p as int, false); }
        } else {
            let ghost new_es = old_es.insert(p as int, (key, value));
            self.entries.insert(p, (key, value));
            assert(self.entries@ == new_es);
            proof {
                if p < old_es.len() {
                    lemma_text_lt_total(key@, old_es[p as int].0@);
                }
            }
            assert forall|i: int, j: int| 0 <= i < j < new_es.len() implies text_lt(
                #[trigger] new_es[i].0@,
                #[trigger] new_es[j].0@,
            ) by {
                if j < p {
                } else if j == p {
                } else if i < p {
                    assert(new_es[j] == old_es[j - 1]);
                    if j - 1 > p {
                        assert(text_lt(old_es[p as int].0@, old_es[j - 1].0@));
                        lemma_text_lt_transitive(key@, old_es[p as int].0@, old_es[j - 1].0@);
                    }
                    lemma_text_lt_transitive(new_es[i].0@, key@, new_es[j].0@);
                } else if i == p {
                    assert(new_es[j] == old_es[j - 1]);
                    if j - 1 > p {
                        assert(text_lt(old_es[p as int].0@, old_es[j - 1].0@));
                        lemma_text_lt_transitive(key@, old_es[p as int].0@, old_es[j - 1].0@);
                    }
                } else {
                    assert(new_es[i] == old_es[i - 1]);
                    assert(new_es[j] == old_es[j - 1]);
                }
            }
            assert forall|j: int| 0 <= j < old_es.len() implies #[trigger] old_es[j].0@ != key@ by {
                if j < p {
                    lemma_text_lt_irreflexive(key@);
                } else if j > p {
                    assert(text_lt(old_es[p as int].0@, old_es[j].0@));
                    lemma_text_lt_transitive(key@, old_es[p as int].0@, old_es[j].0@);
                    lemma_text_lt_irreflexive(key@);
                }
            }
            assert(new_es[p as int] == (key, value));
            proof { self.lemma_insert_view(old_es, p as int, true); }
        }
    }

    /// Drops what the map holds for `key`, if anything.
    pub fn remove(&mut self, key: &String)
        requires
            old(self).wf(),
        ensures
            final(self).wf(),
            final(self)@ == old(self)@.remove(key@),
    {
        let ghost old_es = self.entries@;
        match self.index_of(key) {
            Some(p) => {
                let _ = self.entries.remove(p);
                let ghost es = self.entries@;
                assert(es == old_es.remove(p as int));
                assert forall|i: int, j: int| 0 <= i < j < es.len() implies text_lt(
                    #[trigger] es[i].0@,
                    #[trigger] es[j].0@,
                ) by {
                    let oi = if i < p { i } else { i + 1 };
                    let oj = if j < p { j } else { j + 1 };
                    assert(es[i] == old_es[oi]);
                    assert(es[j] == old_es[oj]);
                }
                proof {
                    let m = entries_map(old_es).remove(key@);
                    assert forall|q: Seq<char>| #[trigger] m.contains_key(q) implies entries_map(
                        es,
                    ).contains_key(q) && entries_map(es)[q] == m[q] by {
                        let i = key_position(old_es, q);
                        lemma_entries_map_at(old_es, i);
                        assert(i != p);
                        let ni = if i < p { i } else { i - 1 };
                        assert(es[ni] == old_es[i]);
                        lemma_entries_map_at(es, ni);
                    }
                    assert forall|q: Seq<char>| #[trigger] entries_map(es).contains_key(q) implies m.contains_key(q) by {
                        let i = key_position(es, q);
                        let oi = if i < p { i } else { i + 1 };
                        assert(old_es[oi] == es[i]);
                        assert(has_key(old_es, q));
                        if q == key@ {
                            lemma_sorted_keys_distinct(old_es, oi, p as int);
                        }
                    }
                    assert(entries_map(es) =~= m);
                }
            },
            None => {
                assert(self@ =~= old(self)@.remove(key@));
            },
        }
    }

    /// Drops everything the map holds.
    pub fn clear(&mut self)
        ensures
            final(self).wf(),
            final(self).entries() == Seq::<(String, V)>::empty(),
            final(self)@ == Map::<Seq<char>, V>::empty(),
    {
        self.entries.clear();
        assert(self@ =~= Map::<Seq<char>, V>::empty());
    }

    /// The keys, in increasing order.
    pub fn keys(&self) -> (r: Vec<String>)
        ensures
            r@.len() == self.entries().len(),
            forall|i: int| 0 <= i < r@.len() ==> #[trigger] r@[i]@ == self.entries()[i].0@,
    {
        let n = self.entries.len();
        let mut r: Vec<String> = Vec::new();
        let mut i: usize = 0;
        while i < n
            invariant
                n == self.entries().len(),
                i <= n,
                r@.len() == i,
                forall|j: int| 0 <= j < i ==> #[trigger] r@[j]@ == self.entries()[j].0@,
            decreases n - i,
        {
            r.push(self.entries[i].0.clone());
            i = i + 1;
        }
        r
    }
}

impl<V> NameMap<V> {
    proof fn lemma_insert_view(&self, old_es: Seq<(String, V)>, p: int, grew: bool)
        requires
            keys_strictly_sorted(old_es),
            keys_strictly_sorted(self.entries()),
            0 <= p <= old_es.len(),
            grew ==> self.entries() == old_es.insert(p, self.entries()[p]),
            grew ==> p < self.entries().len(),
            grew ==> !has_key(old_es, self.entries()[p].0@),
            !grew ==> p < old_es.len() && self.entries() == old_es.update(p, self.entries()[p]),
            !grew ==> old_es[p].0@ == self.entries()[p].0@,
        ensures
            entries_map(self.entries()) == entries_map(old_es).insert(
                self.entries()[p].0@,
                self.entries()[p].1,
            ),
    {
        let es = self.entries();
        let k = es[p].0@;
        let m = entries_map(old_es).insert(k, es[p].1);
        lemma_entries_map_at(es, p);
        assert forall|q: Seq<char>| #[trigger] m.contains_key(q) implies entries_map(es).contains_key(q)
            && entries_map(es)[q] == m[q] by {
            if q != k {
                assert(has_key(old_es, q));
                let i = key_position(old_es, q);
                lemma_entries_map_at(old_es, i);
                let ni = if grew && i >= p { i + 1 } else { i };
                assert(es[ni] == old_es[i]);
                lemma_entries_map_at(es, ni);
            }
        }
        assert forall|q: Seq<char>| #[trigger] entries_map(es).contains_key(q) implies m.contains_key(q) by {
            if q != k {
                let i = key_position(es, q);
                assert(es[i].0@ == q);
                let oi = if grew && i > p { i - 1 } else { i };
                assert(old_es[oi] == es[i]);
                assert(has_key(old_es, q));
            }
        }
        assert(entries_map(es) =~= m);
    }
}


/// What a read gives back after a write: after `insert(k, v)` the map holds
/// `v` for `k` and what it held for every other key; after `remove(k)` it
/// holds nothing for `k` and what it held for every other key.
pub proof fn law_read_after_write<V>(m: Map<Seq<char>, V>, k: Seq<char>, v: V, q: Seq<char>)
    ensures
        m.insert(k, v).contains_key(k) && m.insert(k, v)[k] == v,
        q != k ==> (m.insert(k, v).contains_key(q) == m.contains_key(q) && (m.contains_key(q) ==> m.insert(
            k,
            v,
        )[q] == m[q])),
        !m.remove(k).contains_key(k),
        q != k ==> (m.remove(k).contains_key(q) == m.contains_key(q) && (m.contains_key(q) ==> m.remove(
            k,
        )[q] == m[q])),
{
}

} // verus!
