//! An ordered key-value family: one independently kept sub-namespace of
//! the store, mapping string keys to byte-string values. Keys are unique;
//! a prefix scan returns exactly the entries whose key begins with the
//! given prefix. Callers must not depend on the order of a scan.

use vstd::prelude::*;
use crate::value::str_eq;
use crate::keys::{str_starts_with};

verus! {

/// Copies a byte string.
pub fn copy_bytes(v: &Vec<u8>) -> (r: Vec<u8>)
    ensures
        r@ == v@,
{
    let mut out: Vec<u8> = Vec::new();
    let n = v.len();
    let mut i: usize = 0;
    while i < n
        invariant
            i <= n,
            n == v@.len(),
            out@ == v@.take(i as int),
        decreases n - i,
    {
        out.push(v[i]);
        proof {
            assert(out@ =~= v@.take(i + 1));
        }
        i = i + 1;
    }
    proof {
        assert(v@.take(n as int) =~= v@);
    }
    out
}

/// One key-value family.
pub struct KvFamily {
    entries: Vec<(String, Vec<u8>)>,
}

/// The mapping a list of entries denotes; later entries would overwrite
/// earlier, but a well-formed family never holds two entries of one key.
pub open spec fn kv_model(entries: Seq<(String, Vec<u8>)>) -> Map<Seq<char>, Seq<u8>>
    decreases entries.len(),
{
    if entries.len() == 0 {
        Map::empty()
    } else {
        kv_model(entries.drop_last()).insert(entries.last().0@, entries.last().1@)
    }
}

/// The model contains a key exactly when some entry holds it.
proof fn lemma_kv_model_domain(entries: Seq<(String, Vec<u8>)>, k: Seq<char>)
    ensures
        kv_model(entries).contains_key(k) <==> exists|i: int|
            0 <= i < entries.len() && entries[i].0@ == k,
    decreases entries.len(),
{
    if entries.len() > 0 {
        lemma_kv_model_domain(entries.drop_last(), k);
        if entries.last().0@ == k {
            assert(entries[entries.len() - 1].0@ == k);
        } else if kv_model(entries).contains_key(k) {
            let i = choose|i: int| 0 <= i < entries.drop_last().len()
                && entries.drop_last()[i].0@ == k;
            assert(entries[i].0@ == k);
        } else {
            assert forall|i: int| 0 <= i < entries.len() implies entries[i].0@ != k by {
                if i < entries.len() - 1 {
                    assert(entries.drop_last()[i] == entries[i]);
                }
            }
        }
    }
}

/// If position `i` holds the last entry under key `k`, the model maps
/// `k` to that entry's value.
proof fn lemma_kv_model_last_hit(entries: Seq<(String, Vec<u8>)>, k: Seq<char>, i: int)
    requires
        0 <= i < entries.len(),
        entries[i].0@ == k,
        forall|j: int| i < j < entries.len() ==> entries[j].0@ != k,
    ensures
        kv_model(entries).contains_key(k),
        kv_model(entries)[k] == entries[i].1@,
    decreases entries.len(),
{
    if i == entries.len() - 1 {
    } else {
        assert(entries.drop_last()[i] == entries[i]);
        lemma_kv_model_last_hit(entries.drop_last(), k, i);
    }
}

/// Removing the entry at `i` removes exactly its key from the model,
/// provided keys are unique.
proof fn lemma_kv_model_remove(entries: Seq<(String, Vec<u8>)>, i: int)
    requires
        0 <= i < entries.len(),
        forall|p: int, q: int| 0 <= p < q < entries.len() ==> entries[p].0@ != entries[q].0@,
    ensures
        kv_model(entries.remove(i)) == kv_model(entries).remove(entries[i].0@),
    decreases entries.len(),
{
    let k = entries[i].0@;
    if i == entries.len() - 1 {
        assert(entries.remove(i) =~= entries.drop_last());
        lemma_kv_model_domain(entries.drop_last(), k);
        assert forall|p: int| 0 <= p < entries.drop_last().len()
            implies entries.drop_last()[p].0@ != k by {
            assert(entries.drop_last()[p] == entries[p]);
        }
        assert(!kv_model(entries.drop_last()).contains_key(k));
        assert(kv_model(entries.drop_last())
            =~= kv_model(entries.drop_last()).insert(k, entries[i].1@).remove(k));
    } else {
        let shorter = entries.drop_last();
        assert(forall|p: int, q: int| 0 <= p < q < shorter.len()
            ==> #[trigger] shorter[p].0@ != #[trigger] shorter[q].0@) by {
            assert(forall|p: int| 0 <= p < shorter.len() ==> shorter[p] == entries[p]);
        }
        lemma_kv_model_remove(shorter, i);
        assert(entries.remove(i).drop_last() =~= shorter.remove(i));
        assert(entries.remove(i).last() == entries.last());
        assert(kv_model(entries.remove(i))
            == kv_model(shorter.remove(i)).insert(entries.last().0@, entries.last().1@));
        assert(entries.last().0@ != k) by {
            assert(entries[i].0@ != entries[entries.len() - 1].0@);
        }
        assert(kv_model(shorter).remove(k).insert(entries.last().0@, entries.last().1@)
            =~= kv_model(shorter).insert(entries.last().0@, entries.last().1@).remove(k));
    }
}

/// With unique keys, the model has exactly one key per entry.
proof fn lemma_kv_model_card(entries: Seq<(String, Vec<u8>)>)
    requires
        forall|p: int, q: int| 0 <= p < q < entries.len() ==> entries[p].0@ != entries[q].0@,
    ensures
        kv_model(entries).dom().finite(),
        kv_model(entries).dom().len() == entries.len(),
    decreases entries.len(),
{
    if entries.len() > 0 {
        let shorter = entries.drop_last();
        assert(forall|p: int| 0 <= p < shorter.len() ==> shorter[p] == entries[p]);
        lemma_kv_model_card(shorter);
        lemma_kv_model_domain(shorter, entries.last().0@);
        assert(!kv_model(shorter).contains_key(entries.last().0@));
        assert(kv_model(entries).dom()
            =~= kv_model(shorter).dom().insert(entries.last().0@));
    }
}

impl KvFamily {
    /// Keys are unique.
    pub closed spec fn wf(self) -> bool {
        forall|p: int, q: int| 0 <= p < q < self.entries@.len()
            ==> self.entries@[p].0@ != self.entries@[q].0@
    }

    /// The mapping this family holds.
    pub closed spec fn model(self) -> Map<Seq<char>, Seq<u8>> {
        kv_model(self.entries@)
    }

    /// An empty family.
    pub fn new() -> (r: KvFamily)
        ensures
            r.wf(),
            r.model() == Map::<Seq<char>, Seq<u8>>::empty(),
    {
        KvFamily { entries: Vec::new() }
    }

    /// Finds the position of a key, if any entry holds it.
    fn find(&self, key: &str) -> (r: Option<usize>)
        ensures
            match r {
                Some(i) => i < self.entries@.len() && self.entries@[i as int].0@ == key@,
                None => forall|i: int|
                    0 <= i < self.entries@.len() ==> self.entries@[i].0@ != key@,
            },
    {
        let n = self.entries.len();
        let mut i: usize = 0;
        while i < n
            invariant
                i <= n,
                n == self.entries@.len(),
                forall|j: int| 0 <= j < i ==> self.entries@[j].0@ != key@,
            decreases n - i,
        {
            if str_eq(self.entries[i].0.as_str(), key) {
                return Some(i);
            }
            i = i + 1;
        }
        None
    }

    /// Single-point lookup.
    pub fn get(&self, key: &str) -> (r: Option<&Vec<u8>>)
        requires
            self.wf(),
        ensures
            match r {
                Some(v) => self.model().contains_key(key@) && self.model()[key@] == v@,
                None => !self.model().contains_key(key@),
            },
    {
        proof {
            lemma_kv_model_domain(self.entries@, key@);
        }
        match self.find(key) {
            Some(i) => {
                proof {
                    assert forall|j: int| (i as int) < j < self.entries@.len()
                        implies self.entries@[j].0@ != key@ by {
                        assert(self.entries@[i as int].0@ != self.entries@[j].0@);
                    }
                    lemma_kv_model_last_hit(self.entries@, key@, i as int);
                }
                Some(&self.entries[i].1)
            },
            None => None,
        }
    }

    /// Whether the family holds the key.
    pub fn contains(&self, key: &str) -> (r: bool)
        requires
            self.wf(),
        ensures
            r == self.model().contains_key(key@),
    {
        proof {
            lemma_kv_model_domain(self.entries@, key@);
        }
        self.find(key).is_some()
    }

    /// Writes a value under a key; an existing entry of that key leaves.
    pub fn put(&mut self, key: String, value: Vec<u8>)
        requires
            old(self).wf(),
        ensures
            final(self).wf(),
            final(self).model() == old(self).model().insert(key@, value@),
    {
        self.delete(key.as_str());
        let ghost pre = self.entries@;
        proof {
            lemma_kv_model_domain(pre, key@);
        }
        self.entries.push((key, value));
        proof {
            assert(self.entries@.drop_last() =~= pre);
            assert forall|p: int, q: int| 0 <= p < q < self.entries@.len()
                implies self.entries@[p].0@ != self.entries@[q].0@ by {
                if q < self.entries@.len() - 1 {
                    assert(self.entries@[p] == pre[p] && self.entries@[q] == pre[q]);
                } else {
                    assert(self.entries@[p] == pre[p]);
                }
            }
            assert(self.model()
                =~= old(self).model().insert(self.entries@.last().0@, self.entries@.last().1@));
        }
    }

    /// Deletes the entry under a key, if one is held.
    pub fn delete(&mut self, key: &str)
        requires
            old(self).wf(),
        ensures
            final(self).wf(),
            final(self).model() == old(self).model().remove(key@),
    {
        proof {
            lemma_kv_model_domain(self.entries@, key@);
        }
        match self.find(key) {
            Some(i) => {
                proof {
                    lemma_kv_model_remove(self.entries@, i as int);
                }
                let ghost pre = self.entries@;
                let _ = self.entries.remove(i);
                proof {
                    assert forall|p: int, q: int| 0 <= p < q < self.entries@.len()
                        implies self.entries@[p].0@ != self.entries@[q].0@ by {
                        let pp = if p < i as int { p } else { p + 1 };
                        let qq = if q < i as int { q } else { q + 1 };
                        assert(self.entries@[p] == pre[pp]);
                        assert(self.entries@[q] == pre[qq]);
                    }
                }
            },
            None => {
                proof {
                    assert(!self.model().contains_key(key@));
                    assert(self.model() =~= self.model().remove(key@));
                }
            },
        }
    }

    /// Returns every entry whose key begins with the prefix: each
    /// returned pair is held by the family, every held key under the
    /// prefix appears once, and no key appears twice.
    #[verifier::rlimit(50)]
    pub fn scan_prefix(&self, prefix: &str) -> (r: Vec<(String, Vec<u8>)>)
        requires
            self.wf(),
        ensures
            forall|i: int| 0 <= i < r@.len() ==> {
                &&& prefix@.is_prefix_of(#[trigger] r@[i].0@)
                &&& self.model().contains_key(r@[i].0@)
                &&& self.model()[r@[i].0@] == r@[i].1@
            },
            forall|k: Seq<char>| #![auto]
                self.model().contains_key(k) && prefix@.is_prefix_of(k)
                    ==> exists|i: int| 0 <= i < r@.len() && #[trigger] r@[i].0@ == k,
            forall|p: int, q: int| 0 <= p < q < r@.len() ==> r@[p].0@ != r@[q].0@,
    {
        let n = self.entries.len();
        let mut out: Vec<(String, Vec<u8>)> = Vec::new();
        let mut i: usize = 0;
        while i < n
            invariant
                self.wf(),
                i <= n,
                n == self.entries@.len(),
                forall|j: int| 0 <= j < out@.len() ==> {
                    &&& prefix@.is_prefix_of(#[trigger] out@[j].0@)
                    &&& self.model().contains_key(out@[j].0@)
                    &&& self.model()[out@[j].0@] == out@[j].1@
                },
                forall|j: int|
                    0 <= j < i && prefix@.is_prefix_of(#[trigger] self.entries@[j].0@)
                        ==> exists|m: int|
                            0 <= m < out@.len() && #[trigger] out@[m].0@ == self.entries@[j].0@,
                forall|m: int| 0 <= m < out@.len() ==> exists|j: int|
                    0 <= j < i && self.entries@[j].0@ == #[trigger] out@[m].0@,
                forall|p: int, q: int| 0 <= p < q < out@.len() ==> out@[p].0@ != out@[q].0@,
            decreases n - i,
        {
            if str_starts_with(self.entries[i].0.as_str(), prefix) {
                proof {
                    assert forall|m: int| (i as int) < m < self.entries@.len()
                        implies self.entries@[m].0@ != self.entries@[i as int].0@ by {
                        assert(self.entries@[i as int].0@ != self.entries@[m].0@);
                    }
                    lemma_kv_model_last_hit(self.entries@, self.entries@[i as int].0@, i as int);
                }
                let k = self.entries[i].0.clone();
                let v = copy_bytes(&self.entries[i].1);
                let ghost out_pre = out@;
                out.push((k, v));
                proof {
                    assert(out@.drop_last() =~= out_pre);
                    assert forall|p: int, q: int| 0 <= p < q < out@.len()
                        implies out@[p].0@ != out@[q].0@ by {
                        if q == out@.len() - 1 {
                            let j = choose|j: int|
                                0 <= j < i && self.entries@[j].0@ == out_pre[p].0@;
                            assert(self.entries@[j].0@ != self.entries@[i as int].0@);
                        } else {
                            assert(out@[p] == out_pre[p] && out@[q] == out_pre[q]);
                        }
                    }
                    assert forall|m: int| 0 <= m < out@.len() implies exists|j: int|
                        0 <= j < i + 1 && self.entries@[j].0@ == #[trigger] out@[m].0@ by {
                        if m < out@.len() - 1 {
                            assert(out@[m] == out_pre[m]);
                        } else {
                            assert(self.entries@[i as int].0@ == out@[m].0@);
                        }
                    }
                    assert forall|j: int|
                        0 <= j < i + 1 && prefix@.is_prefix_of(#[trigger] self.entries@[j].0@)
                        implies exists|m: int|
                            0 <= m < out@.len() && #[trigger] out@[m].0@ == self.entries@[j].0@ by {
                        if j < i as int {
                            let m = choose|m: int|
                                0 <= m < out_pre.len() && out_pre[m].0@ == self.entries@[j].0@;
                            assert(out@[m].0@ == self.entries@[j].0@);
                        } else {
                            assert(out@[out@.len() - 1].0@ == self.entries@[j].0@);
                        }
                    }
                }
            }
            i = i + 1;
        }
        proof {
            assert forall|k: Seq<char>|
                self.model().contains_key(k) && prefix@.is_prefix_of(k)
                    implies exists|m: int| 0 <= m < out@.len() && #[trigger] out@[m].0@ == k by {
                lemma_kv_model_domain(self.entries@, k);
            }
        }
        out
    }

    /// How many entries the family holds.
    pub fn len(&self) -> (r: usize)
        requires
            self.wf(),
        ensures
            r == self.model().dom().len(),
    {
        proof {
            lemma_kv_model_card(self.entries@);
        }
        self.entries.len()
    }
}

} // verus!
