//! Stable name-order sorting and de-duplication.

use vstd::prelude::*;

use crate::text::{compare_str, lemma_seq_lt_total, lemma_seq_lt_trans, seq_le, seq_lt, lemma_take_full};

verus! {

/// Values ordered by a string key.
pub trait Keyed {
    /// The sort key.
    spec fn key(&self) -> Seq<char>;

    /// The sort key, borrowed.
    fn key_str(&self) -> (k: &str)
        ensures
            k@ == self.key(),
    ;
}

impl Keyed for String {
    open spec fn key(&self) -> Seq<char> {
        self@
    }

    fn key_str(&self) -> (k: &str) {
        self.as_str()
    }
}

/// Keys of a sequence.
pub open spec fn keys_of_seq<T: Keyed>(s: Seq<T>) -> Seq<Seq<char>> {
    s.map_values(|x: T| x.key())
}

/// Keys non-decreasing.
pub open spec fn sorted_by_key<T: Keyed>(s: Seq<T>) -> bool {
    forall|i: int, j: int| 0 <= i < j < s.len() ==> seq_le(#[trigger] s[i].key(), #[trigger] s[j].key())
}

pub proof fn lemma_seq_le_trans(a: Seq<char>, b: Seq<char>, c: Seq<char>)
    requires
        seq_le(a, b),
        seq_le(b, c),
    ensures
        seq_le(a, c),
{
    if seq_lt(a, b) && seq_lt(b, c) {
        lemma_seq_lt_trans(a, b, c);
    }
}

pub proof fn lemma_seq_le_lt(a: Seq<char>, b: Seq<char>, c: Seq<char>)
    requires
        seq_le(a, b),
        seq_lt(b, c),
    ensures
        seq_lt(a, c),
{
    if seq_lt(a, b) {
        lemma_seq_lt_trans(a, b, c);
    }
}

/// `out` is `input` reordered by `idx` (each output position names a distinct input
/// position), and entries with equal keys keep their input order.
pub open spec fn stable_by_key<T: Keyed>(input: Seq<T>, out: Seq<T>, idx: Seq<int>) -> bool {
    &&& idx.len() == out.len()
    &&& forall|k: int| 0 <= k < out.len() ==> 0 <= #[trigger] idx[k] < input.len() && out[k] == input[idx[k]]
    &&& forall|k: int, l: int| 0 <= k < l < out.len() ==> #[trigger] idx[k] != #[trigger] idx[l]
    &&& forall|k: int, l: int| 0 <= k < l < out.len() && #[trigger] out[k].key() == #[trigger] out[l].key()
        ==> idx[k] < idx[l]
}

/// Sorts by key (stable insertion sort): a permutation of the input in key order.
pub fn sort_by_key<T: Keyed>(v: Vec<T>) -> (r: Vec<T>)
    ensures
        r@.to_multiset() == v@.to_multiset(),
        keys_of_seq(r@).to_multiset() == keys_of_seq(v@).to_multiset(),
        r@.len() == v@.len(),
        sorted_by_key(r@),
        exists|idx: Seq<int>| stable_by_key(v@, r@, idx),
{
    let ghost all = v@;
    let mut rest = v;
    let mut out: Vec<T> = Vec::new();
    let mut i: usize = 0;
    let n = rest.len();
    let ghost mut idx: Seq<int> = Seq::empty();
    proof {
        assert(all.take(0) =~= Seq::<T>::empty());
        assert(out@ =~= Seq::<T>::empty());
        Seq::<T>::empty().to_multiset_ensures();
        assert(keys_of_seq(out@) =~= Seq::<Seq<char>>::empty());
        assert(keys_of_seq(all.take(0)) =~= Seq::<Seq<char>>::empty());
        assert(all.skip(0) =~= all);
    }
    while rest.len() > 0
        invariant
            n == all.len(),
            i + rest@.len() == n,
            rest@ == all.skip(i as int),
            out@.to_multiset() == all.take(i as int).to_multiset(),
            keys_of_seq(out@).to_multiset() == keys_of_seq(all.take(i as int)).to_multiset(),
            out@.len() == i,
            sorted_by_key(out@),
            stable_by_key(all, out@, idx),
            forall|k: int| 0 <= k < out@.len() ==> #[trigger] idx[k] < i,
        decreases rest@.len(),
    {
        let ghost rest0 = rest@;
        let p = rest.remove(0);
        proof {
            assert(rest0[0] == all[i as int]);
            assert(rest@ =~= all.skip(i as int + 1));
        }
        let mut j: usize = out.len();
        while j > 0 && compare_str(out[j - 1].key_str(), p.key_str()) == 1
            invariant
                j <= out@.len(),
                forall|k: int| j <= k < out@.len() ==> seq_lt(p.key(), #[trigger] out@[k].key()),
            decreases j,
        {
            j -= 1;
        }
        proof {
            if j > 0 {
                lemma_seq_lt_total(out@[j - 1].key(), p.key());
            }
        }
        let ghost before = out@;
        let ghost pv = p;
        out.insert(j, p);
        proof {
            assert(out@ =~= before.insert(j as int, pv));
            assert forall|a: int, b: int| 0 <= a < b < out@.len() implies seq_le(#[trigger] out@[a].key(), #[trigger] out@[b].key()) by {
                if b < j {
                    assert(out@[a] == before[a] && out@[b] == before[b]);
                } else if b == j {
                    assert(out@[a] == before[a]);
                    if a < j - 1 {
                        lemma_seq_le_trans(before[a].key(), before[j - 1].key(), pv.key());
                    }
                } else if a < j {
                    assert(out@[a] == before[a]);
                    assert(out@[b] == before[b - 1]);
                    if a < j - 1 {
                        lemma_seq_le_trans(before[a].key(), before[j - 1].key(), pv.key());
                    }
                    lemma_seq_le_lt(before[a].key(), pv.key(), before[b - 1].key());
                } else if a == j {
                    assert(out@[b] == before[b - 1]);
                } else {
                    assert(out@[a] == before[a - 1]);
                    assert(out@[b] == before[b - 1]);
                }
            }
            assert(all.take(i as int + 1) =~= all.take(i as int).push(pv));
            vstd::seq_lib::to_multiset_insert(before, j as int, pv);
            all.take(i as int).to_multiset_ensures();
            assert(keys_of_seq(out@) =~= keys_of_seq(before).insert(j as int, pv.key()));
            vstd::seq_lib::to_multiset_insert(keys_of_seq(before), j as int, pv.key());
            assert(keys_of_seq(all.take(i as int + 1)) =~= keys_of_seq(all.take(i as int)).push(pv.key()));
            keys_of_seq(all.take(i as int)).to_multiset_ensures();
            assert(all.take(i as int).push(pv).to_multiset() == all.take(i as int).to_multiset().insert(pv));
            let old_idx = idx;
            idx = old_idx.insert(j as int, i as int);
            assert forall|k: int| 0 <= k < out@.len() implies 0 <= #[trigger] idx[k] < all.len()
                && out@[k] == all[idx[k]] && idx[k] < i + 1 by {
                if k < j {
                    assert(idx[k] == old_idx[k]);
                } else if k > j {
                    assert(idx[k] == old_idx[k - 1]);
                }
            }
            assert forall|k: int, l: int| 0 <= k < l < out@.len() implies #[trigger] idx[k] != #[trigger] idx[l] by {
                if k < j && l == j {
                    assert(idx[k] == old_idx[k]);
                } else if k < j && l > j {
                    assert(idx[k] == old_idx[k] && idx[l] == old_idx[l - 1]);
                } else if k == j {
                    assert(idx[l] == old_idx[l - 1]);
                } else if k > j {
                    assert(idx[k] == old_idx[k - 1] && idx[l] == old_idx[l - 1]);
                }
            }
            assert forall|k: int, l: int| 0 <= k < l < out@.len() && #[trigger] out@[k].key() == #[trigger] out@[l].key()
                implies idx[k] < idx[l] by {
                if k < j && l < j {
                    assert(out@[k] == before[k] && out@[l] == before[l]);
                } else if k < j && l == j {
                    assert(idx[k] == old_idx[k]);
                } else if k < j {
                    assert(out@[k] == before[k] && out@[l] == before[l - 1]);
                    assert(idx[k] == old_idx[k] && idx[l] == old_idx[l - 1]);
                } else if k == j {
                    assert(out@[l] == before[l - 1]);
                    assert(seq_lt(pv.key(), before[l - 1].key()));
                    crate::text::lemma_seq_lt_irrefl(pv.key());
                } else {
                    assert(out@[k] == before[k - 1] && out@[l] == before[l - 1]);
                    assert(idx[k] == old_idx[k - 1] && idx[l] == old_idx[l - 1]);
                }
            }
        }
        i += 1;
    }
    proof {
        lemma_take_full(all);
    }
    assert(stable_by_key(all, out@, idx));
    out
}

/// Some element of `v` has view `x`.
pub open spec fn has_str(v: Seq<String>, x: Seq<char>) -> bool {
    exists|i: int| 0 <= i < v.len() && #[trigger] v[i]@ == x
}

/// Removes adjacent duplicates of a key-sorted vector (`Vec::dedup`): the result
/// is strictly increasing and has exactly the keys of the input.
pub fn dedup_sorted_strings(v: Vec<String>) -> (r: Vec<String>)
    requires
        sorted_by_key(v@),
    ensures
        forall|i: int, j: int| 0 <= i < j < r@.len() ==> seq_lt(#[trigger] r@[i]@, #[trigger] r@[j]@),
        forall|x: Seq<char>| has_str(v@, x) <==> #[trigger] has_str(r@, x),
{
    let mut out: Vec<String> = Vec::new();
    let mut i: usize = 0;
    while i < v.len()
        invariant
            i <= v@.len(),
            sorted_by_key(v@),
            forall|a: int, b: int| 0 <= a < b < out@.len() ==> seq_lt(#[trigger] out@[a]@, #[trigger] out@[b]@),
            i > 0 ==> out@.len() > 0 && out@.last()@ == v@[i - 1]@,
            i == 0 ==> out@.len() == 0,
            forall|x: Seq<char>| has_str(v@.take(i as int), x) <==> #[trigger] has_str(out@, x),
        decreases v@.len() - i,
    {
        proof {
            assert(i > 0 ==> v@.take(i as int)[i - 1] == v@[i - 1]);
        }
        let same = out.len() > 0 && compare_str(out[out.len() - 1].as_str(), v[i].as_str()) == 0;
        if !same {
            let ghost before = out@;
            proof {
                if out@.len() > 0 {
                    assert(seq_le(v@[i - 1].key(), v@[i as int].key()));
                    assert(seq_lt(out@.last()@, v@[i as int]@));
                    assert forall|a: int| 0 <= a < before.len() implies seq_lt(#[trigger] before[a]@, v@[i as int]@) by {
                        if a < before.len() - 1 {
                            lemma_seq_lt_trans(before[a]@, before.last()@, v@[i as int]@);
                        }
                    }
                }
            }
            out.push(v[i].clone());
            proof {
                assert forall|x: Seq<char>| has_str(v@.take(i as int + 1), x) <==> #[trigger] has_str(out@, x) by {
                    let t0 = v@.take(i as int);
                    let t1 = v@.take(i as int + 1);
                    if has_str(t1, x) {
                        let k = choose|k: int| 0 <= k < t1.len() && #[trigger] t1[k]@ == x;
                        if k < i {
                            assert(t0[k]@ == x);
                            assert(has_str(t0, x));
                            assert(has_str(before, x));
                            let j = choose|j: int| 0 <= j < before.len() && #[trigger] before[j]@ == x;
                            assert(out@[j] == before[j]);
                        } else {
                            assert(out@[before.len() as int]@ == x);
                        }
                    }
                    if has_str(out@, x) {
                        let j = choose|j: int| 0 <= j < out@.len() && #[trigger] out@[j]@ == x;
                        if j < before.len() {
                            assert(before[j] == out@[j]);
                            assert(has_str(before, x));
                            let k = choose|k: int| 0 <= k < t0.len() && #[trigger] t0[k]@ == x;
                            assert(t1[k] == t0[k]);
                        } else {
                            assert(t1[i as int]@ == x);
                        }
                    }
                }
            }
        } else {
            proof {
                assert forall|x: Seq<char>| has_str(v@.take(i as int + 1), x) <==> #[trigger] has_str(out@, x) by {
                    let t0 = v@.take(i as int);
                    let t1 = v@.take(i as int + 1);
                    if has_str(t1, x) {
                        let k = choose|k: int| 0 <= k < t1.len() && #[trigger] t1[k]@ == x;
                        if k == i {
                            assert(out@[out@.len() - 1]@ == x);
                        } else {
                            assert(t0[k]@ == x);
                            assert(has_str(t0, x));
                        }
                    }
                    if has_str(out@, x) {
                        assert(has_str(t0, x));
                        let k = choose|k: int| 0 <= k < t0.len() && #[trigger] t0[k]@ == x;
                        assert(t1[k] == t0[k]);
                    }
                }
            }
        }
        i += 1;
    }
    assert(v@.take(v@.len() as int) =~= v@);
    out
}

} // verus!
