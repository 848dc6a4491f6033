//! Association lists keyed by byte strings, where the first entry of a key
//! holds its value, and the index from keys to sets of transaction ids.

use crate::bytes::{bytes_eq, bytes_to_vec};
use crate::graph::{digests_contain, TxId};
use vstd::prelude::*;

verus! {

/// The value stored under `peer`: that of the first entry with that key.
pub open spec fn first_lookup<V>(s: Seq<(Seq<u8>, V)>, peer: Seq<u8>) -> Option<V>
    decreases s.len(),
{
    if s.len() == 0 {
        None
    } else if s[0].0 == peer {
        Some(s[0].1)
    } else {
        first_lookup(s.drop_first(), peer)
    }
}

/// Replacing the first entry of `peer` changes only `peer`'s value.
pub proof fn lemma_first_lookup_update<V>(s: Seq<(Seq<u8>, V)>, k: int, peer: Seq<u8>, v: V, q: Seq<u8>)
    requires
        0 <= k < s.len(),
        s[k].0 == peer,
        forall|j: int| 0 <= j < k ==> s[j].0 != peer,
    ensures
        first_lookup(s.update(k, (peer, v)), q) == if q == peer {
            Some(v)
        } else {
            first_lookup(s, q)
        },
    decreases s.len(),
{
    let u = s.update(k, (peer, v));
    if k == 0 {
        assert(u.drop_first() =~= s.drop_first());
    } else {
        assert(u.drop_first() =~= s.drop_first().update(k - 1, (peer, v)));
        lemma_first_lookup_update(s.drop_first(), k - 1, peer, v, q);
    }
}

/// Appending an entry for an absent `peer` adds only `peer`'s value.
pub proof fn lemma_first_lookup_push<V>(s: Seq<(Seq<u8>, V)>, peer: Seq<u8>, v: V, q: Seq<u8>)
    requires
        forall|j: int| 0 <= j < s.len() ==> s[j].0 != peer,
    ensures
        first_lookup(s.push((peer, v)), q) == if q == peer {
            Some(v)
        } else {
            first_lookup(s, q)
        },
    decreases s.len(),
{
    if s.len() > 0 {
        assert(s.push((peer, v)).drop_first() =~= s.drop_first().push((peer, v)));
        lemma_first_lookup_push(s.drop_first(), peer, v, q);
    } else {
        assert(s.push((peer, v)).drop_first() =~= s);
    }
}

/// A stored value is one of the entries' values.
pub proof fn lemma_first_lookup_in<V>(s: Seq<(Seq<u8>, V)>, q: Seq<u8>)
    ensures
        first_lookup(s, q) is Some ==> exists|j: int| 0 <= j < s.len() && s[j].1 == first_lookup(s, q)->Some_0,
    decreases s.len(),
{
    if s.len() > 0 && s[0].0 != q {
        lemma_first_lookup_in(s.drop_first(), q);
        if first_lookup(s, q) is Some {
            let j = choose|j: int|
                0 <= j < s.drop_first().len() && s.drop_first()[j].1 == first_lookup(s, q)->Some_0;
            assert(s[j + 1] == s.drop_first()[j]);
        }
    }
}

/// Looking up an absent key finds nothing; the first match decides.
pub proof fn lemma_first_lookup_first<V>(s: Seq<(Seq<u8>, V)>, q: Seq<u8>)
    ensures
        (forall|j: int| 0 <= j < s.len() ==> s[j].0 != q) ==> first_lookup(s, q) is None,
    decreases s.len(),
{
    if s.len() > 0 {
        lemma_first_lookup_first(s.drop_first(), q);
        if forall|j: int| 0 <= j < s.len() ==> s[j].0 != q {
            assert forall|j: int| 0 <= j < s.drop_first().len() implies s.drop_first()[j].0 != q by {
                assert(s.drop_first()[j] == s[j + 1]);
            }
        }
    }
}

/// The first entry of `q` gives its value.
pub proof fn lemma_first_lookup_at<V>(s: Seq<(Seq<u8>, V)>, k: int, q: Seq<u8>)
    requires
        0 <= k < s.len(),
        s[k].0 == q,
        forall|j: int| 0 <= j < k ==> s[j].0 != q,
    ensures
        first_lookup(s, q) == Some(s[k].1),
    decreases s.len(),
{
    if k > 0 {
        assert forall|j: int| 0 <= j < k - 1 implies s.drop_first()[j].0 != q by {
            assert(s.drop_first()[j] == s[j + 1]);
        }
        lemma_first_lookup_at(s.drop_first(), k - 1, q);
    }
}


/// `v` without `id`.
fn without(v: &Vec<TxId>, id: &TxId) -> (r: Vec<TxId>)
    requires
        v@.no_duplicates(),
    ensures
        r@.no_duplicates(),
        r@.to_set() == v@.to_set().remove(*id),
{
    let mut r: Vec<TxId> = Vec::new();
    let mut i: usize = 0;
    while i < v.len()
        invariant
            i <= v@.len(),
            v@.no_duplicates(),
            r@.no_duplicates(),
            r@.to_set() == v@.subrange(0, i as int).to_set().remove(*id),
            forall|x: TxId| r@.contains(x) ==> v@.subrange(0, i as int).contains(x),
        decreases v@.len() - i,
    {
        let x = v[i];
        let ghost pre = v@.subrange(0, i as int);
        assert(v@.subrange(0, i + 1) =~= pre.push(x));
        proof {
            pre.lemma_push_to_set_commute(x);
        }
        if !crate::bytes::digest_eq(&x, id) {
            let ghost rb = r@;
            proof {
                if rb.contains(x) {
                    let j = choose|j: int| 0 <= j < pre.len() && pre[j] == x;
                    assert(v@[j] == v@[i as int]);
                }
                rb.lemma_push_to_set_commute(x);
            }
            r.push(x);
            assert forall|a: int, b: int| 0 <= a < r@.len() && 0 <= b < r@.len() && a != b implies r@[a] != r@[b] by {
                if a < rb.len() && b < rb.len() {
                    assert(r@[a] == rb[a] && r@[b] == rb[b]);
                } else if a < rb.len() {
                    assert(rb.contains(rb[a]));
                } else {
                    assert(rb.contains(rb[b]));
                }
            }
            assert(r@.to_set() =~= pre.push(x).to_set().remove(*id));
            assert forall|y: TxId| r@.contains(y) implies pre.push(x).contains(y) by {
                if y != x {
                    assert(rb.contains(y));
                    let j = choose|j: int| 0 <= j < pre.len() && pre[j] == y;
                    assert(pre.push(x)[j] == y);
                } else {
                    assert(pre.push(x)[pre.len() as int] == x);
                }
            }
        } else {
            assert(r@.to_set() =~= pre.push(x).to_set().remove(*id));
            assert forall|y: TxId| r@.contains(y) implies pre.push(x).contains(y) by {
                let j = choose|j: int| 0 <= j < pre.len() && pre[j] == y;
                assert(pre.push(x)[j] == y);
            }
        }
        i = i + 1;
    }
    assert(v@.subrange(0, v@.len() as int) =~= v@);
    r
}

/// For each key, the set of transaction ids filed under it.
pub struct IdIndex {
    entries: Vec<(Vec<u8>, Vec<TxId>)>,
}

impl IdIndex {
    pub closed spec fn entry_seq(&self) -> Seq<(Seq<u8>, Seq<TxId>)> {
        self.entries@.map_values(|e: (Vec<u8>, Vec<TxId>)| (e.0@, e.1@))
    }

    /// The ids filed under `key`.
    pub open spec fn ids_for(&self, key: Seq<u8>) -> Set<TxId> {
        match first_lookup(self.entry_seq(), key) {
            Some(ids) => ids.to_set(),
            None => Set::empty(),
        }
    }

    /// No id is listed twice under a key.
    pub closed spec fn wf(&self) -> bool {
        forall|i: int| 0 <= i < self.entries@.len() ==> (#[trigger] self.entries@[i]).1@.no_duplicates()
    }

    /// An index with nothing filed.
    pub fn new() -> (r: Self)
        ensures
            r.wf(),
            forall|k: Seq<u8>| #[trigger] r.ids_for(k) == Set::<TxId>::empty(),
    {
        let r = IdIndex { entries: Vec::new() };
        assert(r.entry_seq() =~= Seq::<(Seq<u8>, Seq<TxId>)>::empty());
        r
    }

    fn position(&self, key: &[u8]) -> (r: Option<usize>)
        ensures
            match r {
                Some(k) => k < self.entry_seq().len() && self.entry_seq()[k as int].0 == key@
                    && forall|j: int| 0 <= j < k ==> self.entry_seq()[j].0 != key@,
                None => forall|j: int| 0 <= j < self.entry_seq().len() ==> self.entry_seq()[j].0 != key@,
            },
    {
        let mut i: usize = 0;
        while i < self.entries.len()
            invariant
                i <= self.entries@.len(),
                self.entry_seq().len() == self.entries@.len(),
                forall|j: int| 0 <= j < i ==> self.entry_seq()[j].0 != key@,
            decreases self.entries@.len() - i,
        {
            if bytes_eq(self.entries[i].0.as_slice(), key) {
                return Some(i);
            }
            i = i + 1;
        }
        None
    }

    /// Replaces the id list of `key` (at its first entry, or a new one).
    fn put(&mut self, key: &[u8], ids: Vec<TxId>)
        requires
            old(self).wf(),
            ids@.no_duplicates(),
        ensures
            final(self).wf(),
            final(self).ids_for(key@) == ids@.to_set(),
            forall|q: Seq<u8>| q != key@ ==> #[trigger] final(self).ids_for(q) == old(self).ids_for(q),
    {
        let ghost before = self.entry_seq();
        let ghost ids_view = ids@;
        let ghost olds = self.entries@;
        match self.position(key) {
            Some(k) => {
                self.entries.set(k, (bytes_to_vec(key), ids));
                assert(self.entry_seq() =~= before.update(k as int, (key@, ids_view)));
                assert forall|q: Seq<u8>| #[trigger] first_lookup(self.entry_seq(), q) == if q == key@ {
                    Some(ids_view)
                } else {
                    first_lookup(before, q)
                } by {
                    lemma_first_lookup_update(before, k as int, key@, ids_view, q);
                }
                assert forall|i: int| 0 <= i < self.entries@.len() implies (#[trigger] self.entries@[i]).1@.no_duplicates() by {
                    if i != k {
                        assert(self.entries@[i] == olds[i]);
                    }
                }
            },
            None => {
                self.entries.push((bytes_to_vec(key), ids));
                assert(self.entry_seq() =~= before.push((key@, ids_view)));
                assert forall|q: Seq<u8>| #[trigger] first_lookup(self.entry_seq(), q) == if q == key@ {
                    Some(ids_view)
                } else {
                    first_lookup(before, q)
                } by {
                    lemma_first_lookup_push(before, key@, ids_view, q);
                }
                assert forall|i: int| 0 <= i < self.entries@.len() implies (#[trigger] self.entries@[i]).1@.no_duplicates() by {
                    if i < olds.len() {
                        assert(self.entries@[i] == olds[i]);
                    }
                }
            },
        }
    }

    /// The ids filed under `key`, each once.
    pub fn get(&self, key: &[u8]) -> (r: Vec<TxId>)
        requires
            self.wf(),
        ensures
            r@.no_duplicates(),
            r@.to_set() == self.ids_for(key@),
    {
        proof {
            lemma_first_lookup_first(self.entry_seq(), key@);
        }
        match self.position(key) {
            Some(k) => {
                proof {
                    lemma_first_lookup_at(self.entry_seq(), k as int, key@);
                }
                let ids = &self.entries[k].1;
                let mut r: Vec<TxId> = Vec::new();
                let mut i: usize = 0;
                while i < ids.len()
                    invariant
                        i <= ids@.len(),
                        r@ == ids@.subrange(0, i as int),
                    decreases ids@.len() - i,
                {
                    r.push(ids[i]);
                    i = i + 1;
                    assert(r@ =~= ids@.subrange(0, i as int));
                }
                assert(ids@.subrange(0, ids@.len() as int) =~= ids@);
                assert(self.entry_seq()[k as int].1 == ids@);
                r
            },
            None => {
                let r: Vec<TxId> = Vec::new();
                assert(r@.to_set() =~= Set::<TxId>::empty());
                r
            },
        }
    }

    /// Files `id` under `key`.
    pub fn insert(&mut self, key: &[u8], id: TxId)
        requires
            old(self).wf(),
        ensures
            final(self).wf(),
            final(self).ids_for(key@) == old(self).ids_for(key@).insert(id),
            forall|q: Seq<u8>| q != key@ ==> #[trigger] final(self).ids_for(q) == old(self).ids_for(q),
    {
        let mut ids = self.get(key);
        let ghost before = ids@;
        if !digests_contain(&ids, &id) {
            ids.push(id);
            proof {
                before.lemma_push_to_set_commute(id);
                assert forall|a: int, b: int| 0 <= a < ids@.len() && 0 <= b < ids@.len() && a != b implies ids@[a] != ids@[b] by {
                    if a < before.len() && b < before.len() {
                        assert(ids@[a] == before[a] && ids@[b] == before[b]);
                    } else if a < before.len() {
                        assert(before.contains(before[a]));
                    } else {
                        assert(before.contains(before[b]));
                    }
                }
            }
        } else {
            assert(before.to_set().insert(id) =~= before.to_set());
        }
        self.put(key, ids);
    }

    /// Takes `id` out of the ids filed under `key`.
    pub fn remove(&mut self, key: &[u8], id: &TxId)
        requires
            old(self).wf(),
        ensures
            final(self).wf(),
            final(self).ids_for(key@) == old(self).ids_for(key@).remove(*id),
            forall|q: Seq<u8>| q != key@ ==> #[trigger] final(self).ids_for(q) == old(self).ids_for(q),
    {
        let ids = self.get(key);
        let kept = without(&ids, id);
        self.put(key, kept);
    }
}

} // verus!
