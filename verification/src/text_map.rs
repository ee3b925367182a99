//! Maps keyed by text, kept in key order: the order of `str`, each key once.
use vstd::prelude::*;

use crate::order::{lemma_text_lt_order, str_eq, str_lt, strictly_sorted, text_lt};

verus! {

/// A map from text keys to values, in increasing key order.
#[derive(Debug, PartialEq, Eq)]
pub struct TextMap<V> {
    entries: Vec<(String, V)>,
}

/// The keys of a list of entries.
pub open spec fn entry_keys<V>(e: Seq<(String, V)>) -> Seq<Seq<char>> {
    e.map_values(|p: (String, V)| p.0@)
}

impl<V> TextMap<V> {
    /// Keys are strictly increasing.
    #[verifier::type_invariant]
    spec fn keys_increase(self) -> bool {
        strictly_sorted(entry_keys(self.entries@))
    }

    /// The keys, in increasing order.
    pub closed spec fn keys(self) -> Seq<Seq<char>> {
        entry_keys(self.entries@)
    }

    /// The values, in key order.
    pub closed spec fn values(self) -> Seq<V> {
        self.entries@.map_values(|p: (String, V)| p.1)
    }

    /// The position of key `k`, if it is present.
    pub open spec fn position(self, k: Seq<char>) -> Option<int> {
        if exists|i: int| 0 <= i < self.keys().len() && #[trigger] self.keys()[i] == k {
            Some(choose|i: int| 0 <= i < self.keys().len() && #[trigger] self.keys()[i] == k)
        } else {
            None
        }
    }

    /// The value at key `k`, if it is present.
    pub open spec fn lookup(self, k: Seq<char>) -> Option<V> {
        match self.position(k) {
            Some(i) => Some(self.values()[i]),
            None => None,
        }
    }

    /// There is one value per key.
    pub proof fn lemma_lengths(self)
        ensures
            self.values().len() == self.keys().len(),
    {
    }

    /// The empty map.
    pub fn new() -> (r: TextMap<V>)
        ensures
            r.keys() == Seq::<Seq<char>>::empty(),
            r.values() == Seq::<V>::empty(),
    {
        let r = TextMap { entries: Vec::new() };
        proof {
            assert(r.keys() =~= Seq::<Seq<char>>::empty());
            assert(r.values() =~= Seq::<V>::empty());
        }
        r
    }

    /// The number of entries. Keys are strictly increasing.
    pub fn len(&self) -> (r: usize)
        ensures
            r == self.keys().len(),
            r == self.values().len(),
            strictly_sorted(self.keys()),
    {
        proof {
            use_type_invariant(self);
        }
        self.entries.len()
    }

    /// Whether the map is empty.
    pub fn is_empty(&self) -> (r: bool)
        ensures
            r == (self.keys().len() == 0),
    {
        self.entries.len() == 0
    }

    /// The key at position `i`.
    pub fn key_at(&self, i: usize) -> (r: &str)
        requires
            i < self.keys().len(),
        ensures
            r@ == self.keys()[i as int],
    {
        self.entries[i].0.as_str()
    }

    /// The value at position `i`.
    pub fn value_at(&self, i: usize) -> (r: &V)
        requires
            i < self.keys().len(),
        ensures
            *r == self.values()[i as int],
    {
        &self.entries[i].1
    }

    /// The position of `k`: where it is, or where it would be inserted.
    fn find(&self, k: &str) -> (r: (usize, bool))
        ensures
            r.0 <= self.keys().len(),
            r.1 <==> (r.0 < self.keys().len() && self.keys()[r.0 as int] == k@),
            forall|j: int| 0 <= j < r.0 ==> text_lt(#[trigger] self.keys()[j], k@),
            !r.1 ==> forall|j: int|
                r.0 <= j < self.keys().len() ==> text_lt(k@, #[trigger] self.keys()[j]),
    {
        proof {
            use_type_invariant(self);
        }
        let n = self.entries.len();
        let mut j: usize = 0;
        while j < n && str_lt(self.entries[j].0.as_str(), k)
            invariant
                n == self.keys().len(),
                j <= n,
                forall|m: int| 0 <= m < j ==> text_lt(#[trigger] self.keys()[m], k@),
            decreases n - j,
        {
            j = j + 1;
        }
        if j < n && str_eq(self.entries[j].0.as_str(), k) {
            return (j, true);
        }
        proof {
            if j < n {
                lemma_text_lt_order(self.keys()[j as int], k@, k@);
                assert forall|m: int| j <= m < n implies text_lt(k@, #[trigger] self.keys()[m]) by {
                    lemma_text_lt_order(k@, self.keys()[j as int], self.keys()[m]);
                }
            }
        }
        (j, false)
    }

    /// The value at key `k`.
    pub fn get(&self, k: &str) -> (r: Option<&V>)
        ensures
            match self.lookup(k@) {
                Some(v) => r == Some(&v),
                None => r is None,
            },
    {
        proof {
            use_type_invariant(self);
        }
        let (i, found) = self.find(k);
        proof {
            if found {
                assert(self.keys()[i as int] == k@);
                let p = self.position(k@);
                assert(p is Some);
                let q = p->0;
                if q != i {
                    lemma_text_lt_order(self.keys()[q], self.keys()[i as int], k@);
                }
            } else {
                assert forall|m: int| 0 <= m < self.keys().len() implies #[trigger] self.keys()[m]
                    != k@ by {
                    if m < i {
                        lemma_text_lt_order(self.keys()[m], k@, k@);
                    } else {
                        lemma_text_lt_order(k@, self.keys()[m], k@);
                    }
                }
            }
        }
        if found {
            Some(&self.entries[i].1)
        } else {
            None
        }
    }

    /// Set the value at `k` to `v`, inserting `k` if it is absent.
    pub fn put(&mut self, k: String, v: V)
        ensures
            final(self).lookup(k@) == Some(v),
            forall|t: Seq<char>| t != k@ ==> #[trigger] final(self).lookup(t) == old(self).lookup(t),
    {
        proof {
            use_type_invariant(&*self);
        }
        let (i, found) = self.find(k.as_str());
        if !found {
            let ghost kv = k@;
            let ghost vv = v;
            let inserted = self.insert_new(k, v);
            proof {
                assert forall|m: int| 0 <= m < old(self).keys().len() implies #[trigger] old(self).keys()[m]
                    != kv by {
                    if m < i {
                        lemma_text_lt_order(old(self).keys()[m], kv, kv);
                    } else {
                        lemma_text_lt_order(kv, old(self).keys()[m], kv);
                    }
                }
                assert(old(self).position(kv) is None);
                assert(inserted);
            }
            return;
        }
        let ghost kv = k@;
        let ghost vv = v;
        let ghost before_keys = self.keys();
        let ghost before_values = self.values();
        let ghost old_self = *self;
        let mut entries = Vec::new();
        std::mem::swap(&mut entries, &mut self.entries);
        entries.set(i, (k, v));
        proof {
            assert(entry_keys(entries@) =~= before_keys);
        }
        self.entries = entries;
        proof {
            assert(self.keys() =~= before_keys);
            assert(self.values() =~= before_values.update(i as int, vv));
            assert(self.keys()[i as int] == kv);
            assert(self.position(kv) is Some);
            let q = self.position(kv)->0;
            if q != i {
                if q < i {
                    lemma_text_lt_order(self.keys()[q], kv, kv);
                } else {
                    lemma_text_lt_order(kv, self.keys()[q], kv);
                }
            }
            assert forall|t: Seq<char>| t != kv implies #[trigger] self.lookup(t) == old_self.lookup(t) by {
                if self.position(t) is Some {
                    let p = self.position(t)->0;
                    assert(old_self.keys()[p] == t);
                    assert(old_self.position(t) is Some);
                    let p2 = old_self.position(t)->0;
                    if p2 != p {
                        if p2 < p {
                            lemma_text_lt_order(old_self.keys()[p2], old_self.keys()[p], t);
                        } else {
                            lemma_text_lt_order(old_self.keys()[p], old_self.keys()[p2], t);
                        }
                    }
                    assert(p != i);
                } else {
                    if old_self.position(t) is Some {
                        let p2 = old_self.position(t)->0;
                        assert(self.keys()[p2] == t);
                    }
                }
            }
        }
    }

    /// Insert `v` at `k` unless `k` is present. Returns whether it was
    /// inserted.
    pub fn insert_new(&mut self, k: String, v: V) -> (r: bool)
        ensures
            r <==> old(self).lookup(k@) is None,
            r ==> final(self).lookup(k@) == Some(v),
            r ==> forall|t: Seq<char>|
                t != k@ ==> #[trigger] final(self).lookup(t) == old(self).lookup(t),
            !r ==> *final(self) == *old(self),
            r ==> final(self).keys().len() == old(self).keys().len() + 1,
    {
        proof {
            use_type_invariant(&*self);
        }
        let (i, found) = self.find(k.as_str());
        let ghost before_keys = self.keys();
        let ghost before_values = self.values();
        let ghost old_self = *self;
        proof {
            if found {
                assert(self.keys()[i as int] == k@);
                assert(self.position(k@) is Some);
            } else {
                assert forall|m: int| 0 <= m < self.keys().len() implies #[trigger] self.keys()[m]
                    != k@ by {
                    if m < i {
                        lemma_text_lt_order(self.keys()[m], k@, k@);
                    } else {
                        lemma_text_lt_order(k@, self.keys()[m], k@);
                    }
                }
                assert(self.position(k@) is None);
            }
        }
        if found {
            return false;
        }
        let ghost kv = k@;
        let ghost vv = v;
        let mut entries = Vec::new();
        std::mem::swap(&mut entries, &mut self.entries);
        entries.insert(i, (k, v));
        proof {
            assert(entry_keys(entries@) =~= before_keys.insert(i as int, kv));
            assert forall|a: int, b: int|
                0 <= a < b < entry_keys(entries@).len() implies text_lt(
                #[trigger] entry_keys(entries@)[a],
                #[trigger] entry_keys(entries@)[b],
            ) by {
                if a < i && b > i {
                    lemma_text_lt_order(before_keys[a], kv, before_keys[b - 1]);
                }
            }
        }
        self.entries = entries;
        proof {
            let nk = self.keys();
            let nv = self.values();
            assert(nk =~= before_keys.insert(i as int, kv));
            assert(nv =~= before_values.insert(i as int, vv));
            assert(nk[i as int] == kv);
            let p = self.position(kv);
            assert(p is Some);
            let q = p->0;
            if q != i {
                if q < i {
                    lemma_text_lt_order(nk[q], kv, kv);
                } else {
                    lemma_text_lt_order(kv, nk[q], kv);
                }
            }
            assert forall|t: Seq<char>| t != kv implies #[trigger] self.lookup(t) == old_self.lookup(
                t,
            ) by {
                if old_self.position(t) is Some {
                    let m = old_self.position(t)->0;
                    let m2 = if m < i {
                        m
                    } else {
                        m + 1
                    };
                    assert(nk[m2] == t);
                    assert(self.position(t) is Some);
                    let q2 = self.position(t)->0;
                    if q2 != m2 {
                        if q2 < m2 {
                            lemma_text_lt_order(nk[q2], nk[m2], t);
                        } else {
                            lemma_text_lt_order(nk[m2], nk[q2], t);
                        }
                    }
                } else {
                    if self.position(t) is Some {
                        let q2 = self.position(t)->0;
                        if q2 < i {
                            assert(before_keys[q2] == t);
                        } else if q2 > i {
                            assert(before_keys[q2 - 1] == t);
                        }
                    }
                }
            }
        }
        true
    }
}

impl<V: Clone> Clone for TextMap<V> {
    /// A copy with the same keys, each value cloned.
    fn clone(&self) -> (r: Self)
        ensures
            r.keys() == self.keys(),
    {
        proof {
            use_type_invariant(self);
        }
        let n = self.entries.len();
        let mut entries: Vec<(String, V)> = Vec::new();
        let mut i: usize = 0;
        while i < n
            invariant
                n == self.entries@.len(),
                i <= n,
                entries@.len() == i,
                entry_keys(entries@) == entry_keys(self.entries@).take(i as int),
            decreases n - i,
        {
            let k = self.entries[i].0.clone();
            let v = self.entries[i].1.clone();
            let ghost before = entries@;
            proof {
                assert(k@ == self.entries@[i as int].0@);
            }
            entries.push((k, v));
            proof {
                assert(entries@ == before.push(entries@[i as int]));
                assert(entry_keys(entries@)[i as int] == self.entries@[i as int].0@);
                assert(entry_keys(entries@) =~= entry_keys(self.entries@).take(i + 1));
            }
            i = i + 1;
        }
        proof {
            assert(entry_keys(self.entries@).take(n as int) =~= entry_keys(self.entries@));
        }
        TextMap { entries }
    }
}

} // verus!
