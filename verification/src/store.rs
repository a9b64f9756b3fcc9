//! The key-value store each node owns.
//!
//! A [`KVStore`] is a map from keys to values, written by `put`, read by
//! `get`, and copied out whole by `keys`. Its mathematical value is a
//! `Map<Seq<char>, Seq<char>>`; the representation is an association
//! list with pairwise-distinct keys, so a snapshot carries exactly one
//! entry — the last written value — per key. Callers that share one
//! store across threads wrap it in a mutual-exclusion primitive; every
//! operation here is a plain total function on the owned state.

use vstd::prelude::*;

verus! {

/// The map an association list denotes: later entries would win, and
/// under [`KVStore::wf`] no key occurs twice.
pub open spec fn assoc_map(s: Seq<(Seq<char>, Seq<char>)>) -> Map<Seq<char>, Seq<char>>
    decreases s.len(),
{
    if s.len() == 0 {
        Map::empty()
    } else {
        assoc_map(s.drop_last()).insert(s.last().0, s.last().1)
    }
}

/// A key is in the map exactly when some entry holds it.
pub proof fn lemma_assoc_contains(s: Seq<(Seq<char>, Seq<char>)>, k: Seq<char>)
    ensures
        assoc_map(s).contains_key(k) <==> exists|i: int| 0 <= i < s.len() && s[i].0 == k,
    decreases s.len(),
{
    if s.len() == 0 {
    } else {
        lemma_assoc_contains(s.drop_last(), k);
        if k == s.last().0 {
            assert(s[s.len() - 1].0 == k);
        } else {
            if assoc_map(s).contains_key(k) {
                let i = choose|i: int| 0 <= i < s.drop_last().len() && s.drop_last()[i].0 == k;
                assert(s[i].0 == k);
            }
            if exists|i: int| 0 <= i < s.len() && s[i].0 == k {
                let i = choose|i: int| 0 <= i < s.len() && s[i].0 == k;
                assert(i < s.len() - 1);
                assert(s.drop_last()[i].0 == k);
            }
        }
    }
}

/// With distinct keys, the entry holding a key gives its mapped value.
pub proof fn lemma_assoc_lookup(s: Seq<(Seq<char>, Seq<char>)>, i: int)
    requires
        0 <= i < s.len(),
        forall|a: int, b: int| 0 <= a < b < s.len() ==> s[a].0 != s[b].0,
    ensures
        assoc_map(s).contains_key(s[i].0),
        assoc_map(s)[s[i].0] == s[i].1,
    decreases s.len(),
{
    if i == s.len() - 1 {
    } else {
        assert(forall|a: int, b: int|
            0 <= a < b < s.drop_last().len() ==> s.drop_last()[a].0 != s.drop_last()[b].0);
        lemma_assoc_lookup(s.drop_last(), i);
        assert(s[i].0 != s.last().0);
    }
}

/// Overwriting the entry that holds a key is inserting into the map.
proof fn lemma_assoc_update(s: Seq<(Seq<char>, Seq<char>)>, i: int, k: Seq<char>, v: Seq<char>)
    requires
        0 <= i < s.len(),
        s[i].0 == k,
        forall|a: int, b: int| 0 <= a < b < s.len() ==> s[a].0 != s[b].0,
    ensures
        assoc_map(s.update(i, (k, v))) == assoc_map(s).insert(k, v),
    decreases s.len(),
{
    let t = s.update(i, (k, v));
    if i == s.len() - 1 {
        assert(t.drop_last() =~= s.drop_last());
        assert(t.last() == (k, v));
        assert(assoc_map(s.drop_last()).insert(k, s.last().1).insert(k, v) =~= assoc_map(
            s.drop_last(),
        ).insert(k, v));
    } else {
        assert(forall|a: int, b: int|
            0 <= a < b < s.drop_last().len() ==> s.drop_last()[a].0 != s.drop_last()[b].0);
        assert(s.drop_last()[i].0 == k);
        lemma_assoc_update(s.drop_last(), i, k, v);
        assert(t.drop_last() =~= s.drop_last().update(i, (k, v)));
        assert(t.last() == s.last());
        assert(s.last().0 != k);
        assert(assoc_map(s.drop_last()).insert(k, v).insert(s.last().0, s.last().1) =~= assoc_map(
            s.drop_last(),
        ).insert(s.last().0, s.last().1).insert(k, v));
    }
}

/// A key-value store: the authoritative copy on the primary, the local
/// copy on each replica.
pub struct KVStore {
    data: Vec<(String, String)>,
}

impl View for KVStore {
    type V = Map<Seq<char>, Seq<char>>;

    open spec fn view(&self) -> Map<Seq<char>, Seq<char>> {
        assoc_map(self.entries())
    }
}

impl KVStore {
    /// The stored entries, in insertion order of their keys.
    pub closed spec fn entries(self) -> Seq<(Seq<char>, Seq<char>)> {
        self.data.deep_view()
    }

    /// No key occurs twice: every constructor establishes this and
    /// every operation preserves it.
    pub open spec fn wf(self) -> bool {
        forall|a: int, b: int|
            0 <= a < b < self.entries().len() ==> self.entries()[a].0 != self.entries()[b].0
    }

    /// Create an empty store.
    pub fn new() -> (r: KVStore)
        ensures
            r.wf(),
            r@ == Map::<Seq<char>, Seq<char>>::empty(),
            r.entries() == Seq::<(Seq<char>, Seq<char>)>::empty(),
    {
        let r = KVStore { data: Vec::new() };
        proof {
            assert(r.entries() =~= Seq::<(Seq<char>, Seq<char>)>::empty());
        }
        r
    }

    /// The index of the entry holding `key`, if any.
    fn find_index(&self, key: &str) -> (r: Option<usize>)
        ensures
            (match r {
                Some(i) => i < self.entries().len() && self.entries()[i as int].0 == key@,
                None => forall|j: int|
                    0 <= j < self.entries().len() ==> self.entries()[j].0 != key@,
            }),
    {
        let k: String = key.to_owned();
        let n = self.data.len();
        let mut i: usize = 0;
        while i < n
            invariant
                i <= n,
                n == self.data@.len(),
                k@ == key@,
                forall|j: int| 0 <= j < i ==> self.entries()[j].0 != key@,
            decreases n - i,
        {
            let e = &self.data[i];
            proof {
                assert(self.entries()[i as int] == (self.data@[i as int].0@,
                self.data@[i as int].1@));
            }
            if e.0 == k {
                return Some(i);
            }
            i = i + 1;
        }
        None
    }

    /// Look a key up: the current value, or nothing when the key was
    /// never put. Never fails.
    pub fn get(&self, key: &str) -> (r: Option<String>)
        requires
            self.wf(),
        ensures
            (match r {
                Some(v) => self@.contains_key(key@) && v@ == self@[key@],
                None => !self@.contains_key(key@),
            }),
    {
        match self.find_index(key) {
            Some(i) => {
                proof {
                    lemma_assoc_lookup(self.entries(), i as int);
                }
                let e = &self.data[i];
                proof {
                    assert(self.entries()[i as int] == (self.data@[i as int].0@,
                    self.data@[i as int].1@));
                }
                Some(e.1.clone())
            },
            None => {
                proof {
                    lemma_assoc_contains(self.entries(), key@);
                }
                None
            },
        }
    }

    /// Insert or overwrite one pair. Never fails.
    pub fn put(&mut self, key: String, value: String)
        requires
            old(self).wf(),
        ensures
            final(self).wf(),
            final(self)@ == old(self)@.insert(key@, value@),
    {
        let ghost s0 = self.entries();
        match self.find_index(key.as_str()) {
            Some(i) => {
                self.data[i] = (key, value);
                proof {
                    assert(self.entries() =~= s0.update(i as int, (key@, value@)));
                    lemma_assoc_update(s0, i as int, key@, value@);
                    assert(forall|j: int|
                        0 <= j < self.entries().len() ==> self.entries()[j].0 == s0[j].0);
                }
            },
            None => {
                self.data.push((key, value));
                proof {
                    assert(self.entries() =~= s0.push((key@, value@)));
                    assert(self.entries().drop_last() =~= s0);
                    assert(self.entries().last() == (key@, value@));
                }
            },
        }
    }

    /// A point-in-time copy of all entries: exactly one pair — the
    /// last-written value — per stored key, aliasing nothing inside the
    /// store. Order is unspecified.
    pub fn keys(&self) -> (r: Vec<(String, String)>)
        requires
            self.wf(),
        ensures
            r.deep_view() == self.entries(),
            forall|a: int, b: int|
                0 <= a < b < r.deep_view().len() ==> r.deep_view()[a].0 != r.deep_view()[b].0,
            forall|i: int|
                0 <= i < r.deep_view().len() ==> self@.contains_key(#[trigger] r.deep_view()[i].0)
                    && self@[r.deep_view()[i].0] == r.deep_view()[i].1,
            forall|k: Seq<char>|
                self@.contains_key(k) ==> exists|i: int|
                    0 <= i < r.deep_view().len() && r.deep_view()[i].0 == k,
    {
        let n = self.data.len();
        let mut r: Vec<(String, String)> = Vec::new();
        let mut i: usize = 0;
        while i < n
            invariant
                i <= n,
                n == self.data@.len(),
                r.deep_view() =~= self.entries().take(i as int),
            decreases n - i,
        {
            let ghost old_dv = r.deep_view();
            let e = &self.data[i];
            let k = e.0.clone();
            let v = e.1.clone();
            r.push((k, v));
            proof {
                assert(self.entries()[i as int] == (self.data@[i as int].0@,
                self.data@[i as int].1@));
                assert((k@, v@) == self.entries()[i as int]);
                assert(r.deep_view() =~= old_dv.push((k@, v@)));
                assert(r.deep_view() =~= self.entries().take(i as int + 1));
            }
            i = i + 1;
        }
        proof {
            assert(r.deep_view() =~= self.entries());
            assert forall|i: int| 0 <= i < r.deep_view().len() implies self@.contains_key(
                #[trigger] r.deep_view()[i].0,
            ) && self@[r.deep_view()[i].0] == r.deep_view()[i].1 by {
                lemma_assoc_lookup(self.entries(), i);
            }
            assert forall|k: Seq<char>| self@.contains_key(k) implies exists|i: int|
                0 <= i < r.deep_view().len() && r.deep_view()[i].0 == k by {
                lemma_assoc_contains(self.entries(), k);
            }
        }
        r
    }
}

/// After `put(k, v)` the store answers `get(k)` with `v`, and keeps
/// doing so across puts on other keys: the law over the stores' maps,
/// which `put` and `get` are specified against.
pub proof fn lemma_put_then_get(
    m: Map<Seq<char>, Seq<char>>,
    k: Seq<char>,
    v: Seq<char>,
    k2: Seq<char>,
    v2: Seq<char>,
)
    ensures
        m.insert(k, v).contains_key(k),
        m.insert(k, v)[k] == v,
        k2 != k ==> m.insert(k, v).insert(k2, v2)[k] == v,
{
}

} // verus!
