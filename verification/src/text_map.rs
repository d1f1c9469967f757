//! A map keyed by text, kept as a list of entries with distinct keys.
//!
//! Its view is a `Map<K, V>`; the order of the entries is the order
//! in which keys were first inserted.

use vstd::prelude::*;

verus! {

/// The keys of `p` are pairwise distinct.
pub open spec fn unique_keys<K, V>(p: Seq<(K, V)>) -> bool {
    forall|i: int, j: int| 0 <= i < p.len() && 0 <= j < p.len() && i != j ==> p[i].0 != p[j].0
}

/// Whether some entry of `p` has key `k`.
pub open spec fn has_key<K, V>(p: Seq<(K, V)>, k: K) -> bool {
    exists|i: int| 0 <= i < p.len() && #[trigger] p[i].0 == k
}

/// The map that a list of entries with distinct keys stands for.
pub open spec fn pairs_map<K, V>(p: Seq<(K, V)>) -> Map<K, V> {
    Map::new(
        |k: K| has_key(p, k),
        |k: K| p[choose|i: int| 0 <= i < p.len() && #[trigger] p[i].0 == k].1,
    )
}

pub proof fn lemma_pairs_map_index<K, V>(p: Seq<(K, V)>, i: int)
    requires
        unique_keys(p),
        0 <= i < p.len(),
    ensures
        pairs_map(p).dom().contains(p[i].0),
        pairs_map(p)[p[i].0] == p[i].1,
{
    assert(has_key(p, p[i].0));
    let j = choose|j: int| 0 <= j < p.len() && #[trigger] p[j].0 == p[i].0;
    assert(j == i);
}

pub proof fn lemma_pairs_map_key<K, V>(p: Seq<(K, V)>, k: K) -> (i: int)
    requires
        unique_keys(p),
        pairs_map(p).dom().contains(k),
    ensures
        0 <= i < p.len(),
        p[i].0 == k,
        pairs_map(p)[k] == p[i].1,
{
    let i = choose|i: int| 0 <= i < p.len() && #[trigger] p[i].0 == k;
    lemma_pairs_map_index(p, i);
    i
}

pub proof fn lemma_pairs_map_empty<K, V>(p: Seq<(K, V)>)
    requires
        p.len() == 0,
    ensures
        pairs_map(p) == Map::<K, V>::empty(),
        unique_keys(p),
{
    assert(pairs_map(p) =~= Map::<K, V>::empty());
}

pub proof fn lemma_pairs_map_push<K, V>(p: Seq<(K, V)>, k: K, v: V)
    requires
        unique_keys(p),
        !pairs_map(p).dom().contains(k),
    ensures
        unique_keys(p.push((k, v))),
        pairs_map(p.push((k, v))) == pairs_map(p).insert(k, v),
{
    let q = p.push((k, v));
    assert forall|i: int, j: int| 0 <= i < q.len() && 0 <= j < q.len() && i != j implies q[i].0
        != q[j].0 by {
        if i < p.len() && j < p.len() {
            assert(q[i] == p[i] && q[j] == p[j]);
        } else if i < p.len() {
            assert(q[i] == p[i]);
            assert(has_key(p, p[i].0));
        } else {
            assert(q[j] == p[j]);
            assert(has_key(p, p[j].0));
        }
    }
    assert forall|key: K| #[trigger] pairs_map(q).dom().contains(key) == pairs_map(
        p,
    ).insert(k, v).dom().contains(key) by {
        if has_key(q, key) {
            let i = choose|i: int| 0 <= i < q.len() && #[trigger] q[i].0 == key;
            if i < p.len() {
                assert(p[i].0 == key);
                assert(has_key(p, key));
            }
        }
        if has_key(p, key) {
            let i = choose|i: int| 0 <= i < p.len() && #[trigger] p[i].0 == key;
            assert(q[i].0 == key);
        }
        if key == k {
            assert(q[p.len() as int].0 == key);
        }
    }
    assert forall|key: K| #[trigger] pairs_map(q).dom().contains(key) implies pairs_map(
        q,
    )[key] == pairs_map(p).insert(k, v)[key] by {
        let i = lemma_pairs_map_key(q, key);
        if i < p.len() {
            assert(q[i] == p[i]);
            lemma_pairs_map_index(p, i);
        }
    }
    assert(pairs_map(q) =~= pairs_map(p).insert(k, v));
}

pub proof fn lemma_pairs_map_update<K, V>(p: Seq<(K, V)>, i: int, v: V)
    requires
        unique_keys(p),
        0 <= i < p.len(),
    ensures
        unique_keys(p.update(i, (p[i].0, v))),
        pairs_map(p.update(i, (p[i].0, v))) == pairs_map(p).insert(p[i].0, v),
{
    let q = p.update(i, (p[i].0, v));
    assert forall|a: int, b: int| 0 <= a < q.len() && 0 <= b < q.len() && a != b implies q[a].0
        != q[b].0 by {
        assert(q[a].0 == p[a].0 && q[b].0 == p[b].0);
    }
    assert forall|key: K| #[trigger] pairs_map(q).dom().contains(key) == pairs_map(
        p,
    ).insert(p[i].0, v).dom().contains(key) by {
        if has_key(q, key) {
            let j = choose|j: int| 0 <= j < q.len() && #[trigger] q[j].0 == key;
            assert(p[j].0 == key);
            assert(has_key(p, key));
        }
        if has_key(p, key) {
            let j = choose|j: int| 0 <= j < p.len() && #[trigger] p[j].0 == key;
            assert(q[j].0 == key);
        }
        if key == p[i].0 {
            assert(q[i].0 == key);
        }
    }
    assert forall|key: K| #[trigger] pairs_map(q).dom().contains(key) implies pairs_map(
        q,
    )[key] == pairs_map(p).insert(p[i].0, v)[key] by {
        let j = lemma_pairs_map_key(q, key);
        if j != i {
            assert(q[j] == p[j]);
            lemma_pairs_map_index(p, j);
        }
    }
    assert(pairs_map(q) =~= pairs_map(p).insert(p[i].0, v));
}

/// A map from text keys to values.
#[derive(Debug)]
pub struct TextMap<V> {
    entries: Vec<(String, V)>,
}

impl<V> View for TextMap<V> {
    type V = Map<Seq<char>, V>;

    closed spec fn view(&self) -> Map<Seq<char>, V> {
        pairs_map(self.pairs())
    }
}

impl<V> TextMap<V> {
    /// The keys of the entries are distinct (the type's invariant).
    #[verifier::type_invariant]
    pub closed spec fn keys_distinct(self) -> bool {
        unique_keys(self.pairs())
    }

    /// The entries, in order, with each key taken by its view.
    pub closed spec fn pairs(self) -> Seq<(Seq<char>, V)> {
        self.entries@.map_values(|e: (String, V)| (e.0@, e.1))
    }

    /// The view is the map that the entries stand for, and their keys are
    /// distinct (use after `use_type_invariant`).
    pub proof fn lemma_view(&self)
        requires
            self.keys_distinct(),
        ensures
            self@ == pairs_map(self.pairs()),
            unique_keys(self.pairs()),
    {
    }

    pub fn new() -> (m: Self)
        ensures
            m@ == Map::<Seq<char>, V>::empty(),
            m.pairs().len() == 0,
    {
        let m = TextMap { entries: Vec::new() };
        proof {
            lemma_pairs_map_empty(m.pairs());
        }
        m
    }

    pub fn len(&self) -> (n: usize)
        ensures
            n == self.pairs().len(),
    {
        self.entries.len()
    }

    /// The key of the `i`-th entry.
    pub fn key_at(&self, i: usize) -> (k: &String)
        requires
            i < self.pairs().len(),
        ensures
            k@ == self.pairs()[i as int].0,
    {
        &self.entries[i].0
    }

    /// The value of the `i`-th entry.
    pub fn value_at(&self, i: usize) -> (v: &V)
        requires
            i < self.pairs().len(),
        ensures
            *v == self.pairs()[i as int].1,
    {
        &self.entries[i].1
    }

    /// The position of the entry with key `key`, if there is one.
    pub fn find(&self, key: &String) -> (r: Option<usize>)
        ensures
            match r {
                Some(i) => i < self.pairs().len() && self.pairs()[i as int].0 == key@,
                None => !self@.contains_key(key@),
            },
    {
        proof {
            use_type_invariant(self);
        }
        let mut i: usize = 0;
        while i < self.entries.len()
            invariant
                i <= self.entries@.len(),
                forall|j: int| 0 <= j < i ==> self.pairs()[j].0 != key@,
            decreases self.entries@.len() - i,
        {
            if self.entries[i].0 == *key {
                return Some(i);
            }
            i = i + 1;
        }
        proof {
            if self@.contains_key(key@) {
                let j = lemma_pairs_map_key(self.pairs(), key@);
            }
        }
        None
    }

    /// The value stored under `key`.
    pub fn get(&self, key: &String) -> (r: Option<&V>)
        ensures
            match r {
                Some(v) => self@.contains_key(key@) && *v == self@[key@],
                None => !self@.contains_key(key@),
            },
    {
        proof {
            use_type_invariant(self);
        }
        match self.find(key) {
            Some(i) => {
                proof {
                    lemma_pairs_map_index(self.pairs(), i as int);
                }
                Some(&self.entries[i].1)
            },
            None => None,
        }
    }

    /// Adds an entry under a key that is not present yet; it becomes the
    /// last entry.
    pub fn push_new(&mut self, key: String, value: V)
        requires
            !old(self)@.contains_key(key@),
        ensures
            final(self)@ == old(self)@.insert(key@, value),
            final(self).pairs() == old(self).pairs().push((key@, value)),
    {
        proof {
            use_type_invariant(&*self);
            lemma_pairs_map_push(self.pairs(), key@, value);
        }
        let ghost k = key@;
        let mut entries = Vec::new();
        std::mem::swap(&mut entries, &mut self.entries);
        entries.push((key, value));
        proof {
            assert(entries@.map_values(|e: (String, V)| (e.0@, e.1)) =~= old(self).pairs().push(
                (k, value),
            ));
        }
        self.entries = entries;
    }

    /// Stores `value` under `key`, replacing the value that was there; a new
    /// key is added as the last entry.
    pub fn insert(&mut self, key: String, value: V)
        ensures
            final(self)@ == old(self)@.insert(key@, value),
    {
        proof {
            use_type_invariant(&*self);
        }
        match self.find(&key) {
            Some(i) => {
                proof {
                    lemma_pairs_map_update(self.pairs(), i as int, value);
                }
                let ghost k = key@;
                let mut entries = Vec::new();
                std::mem::swap(&mut entries, &mut self.entries);
                entries.set(i, (key, value));
                proof {
                    assert(entries@.map_values(|e: (String, V)| (e.0@, e.1)) =~= old(
                        self,
                    ).pairs().update(i as int, (old(self).pairs()[i as int].0, value)));
                }
                self.entries = entries;
            },
            None => {
                self.push_new(key, value);
            },
        }
    }
}

} // verus!
