//! `NameMap`: a map keyed by name, iterated in ascending name order.
//!
//! This is the shape of every named table of a Workspace config (projects,
//! progens, actions, generators, progen groups): lookups by name, and
//! listings in sorted name order.

use vstd::prelude::*;

use crate::text::{compare_str, lemma_seq_lt_asym, lemma_seq_lt_trans, seq_lt, str_eq};

verus! {

/// Keys strictly increase (sorted and unique).
pub open spec fn keys_strictly_sorted(keys: Seq<Seq<char>>) -> bool {
    forall|i: int, j: int| 0 <= i < j < keys.len() ==> seq_lt(#[trigger] keys[i], #[trigger] keys[j])
}

/// Keys strictly increase, hence contain no duplicates.
pub proof fn lemma_sorted_unique(keys: Seq<Seq<char>>, i: int, j: int)
    requires
        keys_strictly_sorted(keys),
        0 <= i < keys.len(),
        0 <= j < keys.len(),
        i != j,
    ensures
        keys[i] != keys[j],
{
    if i < j {
        lemma_seq_lt_asym(keys[i], keys[j]);
    } else {
        lemma_seq_lt_asym(keys[j], keys[i]);
    }
}

/// Key views of a sequence of entries.
pub open spec fn keys_of<V>(es: Seq<(String, V)>) -> Seq<Seq<char>> {
    es.map_values(|e: (String, V)| e.0@)
}

/// Values of a sequence of entries.
pub open spec fn vals_of<V>(es: Seq<(String, V)>) -> Seq<V> {
    es.map_values(|e: (String, V)| e.1)
}

/// The finite map described by parallel key and value sequences.
pub open spec fn map_of<V>(keys: Seq<Seq<char>>, vals: Seq<V>) -> Map<Seq<char>, V> {
    Map::new(|k: Seq<char>| keys.contains(k), |k: Seq<char>| vals[keys.index_of(k)])
}

/// In strictly sorted keys, `index_of` finds the position of each stored key.
pub proof fn lemma_index_of(keys: Seq<Seq<char>>, i: int)
    requires
        keys_strictly_sorted(keys),
        0 <= i < keys.len(),
    ensures
        keys.index_of(keys[i]) == i,
{
    let k = keys[i];
    assert(keys.contains(k));
    let j = keys.index_of(k);
    if j != i {
        lemma_sorted_unique(keys, i, j);
    }
}

/// A name-keyed map held as a vector of entries in strictly ascending key order.
#[derive(Debug)]
pub struct NameMap<V> {
    entries: Vec<(String, V)>,
}

impl<V> NameMap<V> {
    /// Keys in stored (ascending) order.
    pub closed spec fn keys(&self) -> Seq<Seq<char>> {
        keys_of(self.entries@)
    }

    /// Values in the same order as `keys`.
    pub closed spec fn vals(&self) -> Seq<V> {
        vals_of(self.entries@)
    }

    /// Number of entries.
    pub open spec fn size(&self) -> nat {
        self.keys().len()
    }

    /// Every key has a value: the two sequences have the same length.
    pub proof fn lemma_keys_vals_len(&self)
        ensures
            self.keys().len() == self.vals().len(),
    {
    }

    /// The map seen as a finite mathematical map.
    pub open spec fn to_map(&self) -> Map<Seq<char>, V> {
        map_of(self.keys(), self.vals())
    }

    #[verifier::type_invariant]
    closed spec fn inv(&self) -> bool {
        keys_strictly_sorted(self.keys())
    }

    /// Index of key `k`, if present.
    pub open spec fn index_of_key(&self, k: Seq<char>) -> int {
        self.keys().index_of(k)
    }

    /// An empty map.
    pub fn new() -> (m: Self)
        ensures
            m.keys() == Seq::<Seq<char>>::empty(),
            m.vals() == Seq::<V>::empty(),
    {
        let m = NameMap { entries: Vec::new() };
        assert(m.keys() =~= Seq::<Seq<char>>::empty());
        assert(m.vals() =~= Seq::<V>::empty());
        m
    }

    /// Number of entries.
    pub fn len(&self) -> (n: usize)
        ensures
            n == self.keys().len(),
            n == self.vals().len(),
            keys_strictly_sorted(self.keys()),
    {
        proof {
            use_type_invariant(self);
        }
        self.entries.len()
    }

    /// Whether the map has no entries.
    pub fn is_empty(&self) -> (b: bool)
        ensures
            b == (self.keys().len() == 0),
    {
        self.entries.len() == 0
    }

    /// Key at position `i` (ascending order).
    pub fn key_at(&self, i: usize) -> (k: &String)
        requires
            i < self.keys().len(),
        ensures
            k@ == self.keys()[i as int],
    {
        &self.entries[i].0
    }

    /// Value at position `i` (ascending key order).
    pub fn value_at(&self, i: usize) -> (v: &V)
        requires
            i < self.keys().len(),
        ensures
            *v == self.vals()[i as int],
    {
        &self.entries[i].1
    }

    /// Position of `k` among the keys.
    pub fn find(&self, k: &str) -> (r: Option<usize>)
        ensures
            match r {
                Some(i) => i < self.keys().len() && self.keys()[i as int] == k@,
                None => !self.keys().contains(k@),
            },
    {
        let mut i: usize = 0;
        while i < self.entries.len()
            invariant
                i <= self.entries@.len(),
                self.keys().len() == self.entries@.len(),
                forall|j: int| 0 <= j < i ==> self.keys()[j] != k@,
            decreases self.entries.len() - i,
        {
            if str_eq(self.entries[i].0.as_str(), k) {
                return Some(i);
            }
            i += 1;
        }
        None
    }

    /// Whether `k` is a key.
    pub fn contains_key(&self, k: &str) -> (b: bool)
        ensures
            b == self.keys().contains(k@),
            b == self.to_map().dom().contains(k@),
    {
        self.find(k).is_some()
    }

    /// Value for `k`, if present.
    pub fn get(&self, k: &str) -> (r: Option<&V>)
        ensures
            match r {
                Some(v) => self.to_map().dom().contains(k@) && *v == self.to_map()[k@],
                None => !self.to_map().dom().contains(k@),
            },
    {
        proof {
            use_type_invariant(self);
        }
        match self.find(k) {
            Some(i) => {
                proof {
                    lemma_index_of(self.keys(), i as int);
                }
                Some(&self.entries[i].1)
            },
            None => None,
        }
    }

    /// Inserts or replaces the value for `k`; returns the replaced value.
    pub fn insert(&mut self, k: String, v: V) -> (old_v: Option<V>)
        ensures
            final(self).to_map() == old(self).to_map().insert(k@, v),
            match old_v {
                Some(o) => old(self).to_map().dom().contains(k@) && o == old(self).to_map()[k@],
                None => !old(self).to_map().dom().contains(k@),
            },
    {
        proof {
            use_type_invariant(&*self);
        }
        let ghost old_map = self.to_map();
        let mut es: Vec<(String, V)> = Vec::new();
        std::mem::swap(&mut es, &mut self.entries);
        let (es2, r) = insert_entry(es, k, v);
        self.entries = es2;
        r
    }

    /// Removes `k`; returns its value if it was present.
    pub fn remove(&mut self, k: &str) -> (r: Option<V>)
        ensures
            final(self).to_map() == old(self).to_map().remove(k@),
            match r {
                Some(o) => old(self).to_map().dom().contains(k@) && o == old(self).to_map()[k@],
                None => !old(self).to_map().dom().contains(k@) && final(self).keys() == old(
                    self,
                ).keys() && final(self).vals() == old(self).vals(),
            },
            forall|j: int|
                0 <= j < final(self).keys().len() ==> old(self).keys().contains(
                    #[trigger] final(self).keys()[j],
                ),
    {
        proof {
            use_type_invariant(&*self);
        }
        let mut es: Vec<(String, V)> = Vec::new();
        std::mem::swap(&mut es, &mut self.entries);
        let (es2, r) = remove_entry(es, k);
        self.entries = es2;
        r
    }
}

/// Position of `k` among the entry keys.
fn find_entry<V>(es: &Vec<(String, V)>, k: &str) -> (r: Option<usize>)
    ensures
        match r {
            Some(i) => i < es@.len() && keys_of(es@)[i as int] == k@,
            None => !keys_of(es@).contains(k@),
        },
{
    let mut i: usize = 0;
    while i < es.len()
        invariant
            i <= es@.len(),
            forall|j: int| 0 <= j < i ==> keys_of(es@)[j] != k@,
        decreases es.len() - i,
    {
        if str_eq(es[i].0.as_str(), k) {
            return Some(i);
        }
        i += 1;
    }
    None
}

/// Insertion point for `k`: all keys before it are smaller; `found` when the key at it equals `k`,
/// otherwise the key at it (if any) is larger.
fn locate<V>(es: &Vec<(String, V)>, k: &str) -> (r: (usize, bool))
    ensures
        r.0 <= es@.len(),
        forall|j: int| 0 <= j < r.0 ==> seq_lt(#[trigger] keys_of(es@)[j], k@),
        r.1 ==> r.0 < es@.len() && keys_of(es@)[r.0 as int] == k@,
        !r.1 ==> (r.0 == es@.len() || seq_lt(k@, keys_of(es@)[r.0 as int])),
{
    let mut i: usize = 0;
    while i < es.len()
        invariant
            i <= es@.len(),
            forall|j: int| 0 <= j < i ==> seq_lt(#[trigger] keys_of(es@)[j], k@),
        decreases es.len() - i,
    {
        let c = compare_str(es[i].0.as_str(), k);
        if c == 0 {
            return (i, true);
        }
        if c == 1 {
            return (i, false);
        }
        i += 1;
    }
    (i, false)
}

/// Sorted insert / replace on a strictly sorted entry vector.
fn insert_entry<V>(es: Vec<(String, V)>, k: String, v: V) -> (res: (Vec<(String, V)>, Option<V>))
    requires
        keys_strictly_sorted(keys_of(es@)),
    ensures
        keys_strictly_sorted(keys_of(res.0@)),
        map_of(keys_of(res.0@), vals_of(res.0@)) == map_of(keys_of(es@), vals_of(es@)).insert(k@, v),
        match res.1 {
            Some(o) => keys_of(es@).contains(k@) && o == map_of(keys_of(es@), vals_of(es@))[k@],
            None => !keys_of(es@).contains(k@),
        },
{
    let mut es = es;
    let ghost old_keys = keys_of(es@);
    let ghost old_vals = vals_of(es@);
    let ghost old_map = map_of(old_keys, old_vals);
    let ghost kk = k@;
    let n = es.len();
    let (i, found) = locate(&es, k.as_str());
    if found {
        proof {
            assert(old_keys[i as int] == kk);
        }
        let (_, old_value) = es.remove(i);
        es.insert(i, (k, v));
        proof {
            assert(keys_of(es@) =~= old_keys);
            assert(vals_of(es@) =~= old_vals.update(i as int, v));
            lemma_index_of(old_keys, i as int);
            assert(old_map.dom().contains(kk));
            let nm = map_of(keys_of(es@), vals_of(es@));
            assert forall|x: Seq<char>| #[trigger] nm.dom().contains(x) implies nm[x] == old_map.insert(kk, v)[x] by {
                let j = old_keys.index_of(x);
                if x != kk {
                    assert(j != i);
                }
            }
            assert(nm =~= old_map.insert(kk, v));
        }
        return (es, Some(old_value));
    }
    proof {
        assert forall|j: int| i <= j < n implies seq_lt(kk, #[trigger] old_keys[j]) by {
            if j > i {
                lemma_seq_lt_trans(kk, old_keys[i as int], old_keys[j]);
            }
        }
        assert forall|j: int| 0 <= j < n implies old_keys[j] != kk by {
            if j < i {
                lemma_seq_lt_asym(old_keys[j], kk);
            } else {
                lemma_seq_lt_asym(kk, old_keys[j]);
            }
        }
    }
    es.insert(i, (k, v));
    proof {
        let nk = keys_of(es@);
        assert(nk =~= old_keys.insert(i as int, kk));
        assert(vals_of(es@) =~= old_vals.insert(i as int, v));
        assert forall|a: int, b: int| 0 <= a < b < nk.len() implies seq_lt(#[trigger] nk[a], #[trigger] nk[b]) by {
            if a < i && b < i {
            } else if a < i && b == i {
            } else if a < i && b > i {
                assert(nk[b] == old_keys[b - 1]);
            } else if a == i {
                assert(nk[b] == old_keys[b - 1]);
            } else {
                assert(nk[a] == old_keys[a - 1]);
                assert(nk[b] == old_keys[b - 1]);
            }
        }
        assert(!old_keys.contains(kk));
        let nm = map_of(nk, vals_of(es@));
        assert forall|x: Seq<char>| #[trigger] nm.dom().contains(x) <==> old_map.insert(kk, v).dom().contains(x) by {
            if x == kk {
                assert(nk[i as int] == kk);
            }
            if old_keys.contains(x) {
                let j = old_keys.index_of(x);
                if j < i {
                    assert(nk[j] == x);
                } else {
                    assert(nk[j + 1] == x);
                }
            }
            if nk.contains(x) {
                let j = nk.index_of(x);
                if j < i {
                    assert(old_keys[j] == x);
                } else if j > i {
                    assert(old_keys[j - 1] == x);
                }
            }
        }
        assert forall|x: Seq<char>| #[trigger] nm.dom().contains(x) implies nm[x] == old_map.insert(kk, v)[x] by {
            if x == kk {
                lemma_index_of(nk, i as int);
            } else {
                assert(old_keys.contains(x));
                let oj = old_keys.index_of(x);
                if oj < i {
                    assert(nk[oj] == x);
                    lemma_index_of(nk, oj);
                } else {
                    assert(nk[oj + 1] == x);
                    lemma_index_of(nk, oj + 1);
                }
            }
        }
        assert(nm =~= old_map.insert(kk, v));
    }
    (es, None)
}

/// Removal on a strictly sorted entry vector.
fn remove_entry<V>(es: Vec<(String, V)>, k: &str) -> (res: (Vec<(String, V)>, Option<V>))
    requires
        keys_strictly_sorted(keys_of(es@)),
    ensures
        keys_strictly_sorted(keys_of(res.0@)),
        map_of(keys_of(res.0@), vals_of(res.0@)) == map_of(keys_of(es@), vals_of(es@)).remove(k@),
        match res.1 {
            Some(o) => keys_of(es@).contains(k@) && o == map_of(keys_of(es@), vals_of(es@))[k@],
            None => !keys_of(es@).contains(k@) && res.0@ == es@,
        },
        forall|j: int| 0 <= j < keys_of(res.0@).len() ==> keys_of(es@).contains(#[trigger] keys_of(res.0@)[j]),
{
    let mut es = es;
    let ghost old_keys = keys_of(es@);
    let ghost old_vals = vals_of(es@);
    let ghost old_map = map_of(old_keys, old_vals);
    match find_entry(&es, k) {
        None => {
            assert(map_of(keys_of(es@), vals_of(es@)) =~= old_map.remove(k@));
            (es, None)
        },
        Some(i) => {
            proof {
                lemma_index_of(old_keys, i as int);
            }
            let (_, v) = es.remove(i);
            proof {
                let nk = keys_of(es@);
                assert(nk =~= old_keys.remove(i as int));
                assert(vals_of(es@) =~= old_vals.remove(i as int));
                assert forall|a: int, b: int| 0 <= a < b < nk.len() implies seq_lt(#[trigger] nk[a], #[trigger] nk[b]) by {
                    if b < i {
                    } else if a < i {
                        assert(nk[b] == old_keys[b + 1]);
                    } else {
                        assert(nk[a] == old_keys[a + 1]);
                        assert(nk[b] == old_keys[b + 1]);
                    }
                }
                let nm = map_of(nk, vals_of(es@));
                assert forall|x: Seq<char>| #[trigger] nm.dom().contains(x) <==> old_map.remove(k@).dom().contains(x) by {
                    if nk.contains(x) {
                        let j = nk.index_of(x);
                        if j < i {
                            assert(old_keys[j] == x);
                            if x == k@ {
                                lemma_sorted_unique(old_keys, j, i as int);
                            }
                        } else {
                            assert(old_keys[j + 1] == x);
                            if x == k@ {
                                lemma_sorted_unique(old_keys, j + 1, i as int);
                            }
                        }
                    }
                    if old_keys.contains(x) && x != k@ {
                        let j = old_keys.index_of(x);
                        assert(j != i);
                        if j < i {
                            assert(nk[j] == x);
                        } else {
                            assert(nk[j - 1] == x);
                        }
                    }
                }
                assert forall|x: Seq<char>| #[trigger] nm.dom().contains(x) implies nm[x] == old_map.remove(k@)[x] by {
                    let j = nk.index_of(x);
                    lemma_index_of(nk, j);
                    if j < i {
                        assert(old_keys[j] == x);
                        lemma_index_of(old_keys, j);
                    } else {
                        assert(old_keys[j + 1] == x);
                        lemma_index_of(old_keys, j + 1);
                    }
                }
                assert(nm =~= old_map.remove(k@));
                assert forall|j: int| 0 <= j < nk.len() implies old_keys.contains(#[trigger] nk[j]) by {
                    if j < i {
                        assert(old_keys[j] == nk[j]);
                    } else {
                        assert(old_keys[j + 1] == nk[j]);
                    }
                }
            }
            (es, Some(v))
        },
    }
}

/// Reading a key back after writing it gives the written value, and every other key
/// keeps its value (what `insert` promises, seen as a map).
pub proof fn lemma_read_after_write<V>(before: Map<Seq<char>, V>, after: Map<Seq<char>, V>, k: Seq<char>, v: V)
    requires
        after == before.insert(k, v),
    ensures
        after.dom().contains(k),
        after[k] == v,
        forall|k2: Seq<char>| k2 != k ==> (after.dom().contains(k2) == before.dom().contains(k2)),
        forall|k2: Seq<char>| k2 != k && before.dom().contains(k2) ==> after[k2] == before[k2],
{
}

/// Inserting a new key and then removing it gives back the map it started from.
pub proof fn lemma_insert_then_remove<V>(m: Map<Seq<char>, V>, k: Seq<char>, v: V)
    requires
        !m.dom().contains(k),
    ensures
        m.insert(k, v).remove(k) == m,
{
    assert(m.insert(k, v).remove(k) =~= m);
}

} // verus!
