//! Echo location: per-anchor collision detection and reference-based
//! confidence.

use crate::crypto::current_timestamp_ms;
use crate::graph::{
    digests_contain, keyed_map, keys_unique, lemma_keyed_map_push, lemma_keyed_map_unique,
    lemma_keyed_map_update, Anchor, TxId,
};
use crate::bytes::digest_eq;
use vstd::prelude::*;

verus! {

/// Tuning of the echo-location mechanism; confidence in basis points.
pub struct EchoConfig {
    pub confidence_threshold: u64,
    pub alert_priority_multiplier: u32,
    pub max_propagation_steps: u32,
}

/// The ids seen for one anchor and when the anchor was first seen.
pub struct AnchorRecord {
    pub anchor: Anchor,
    pub ids: Vec<TxId>,
    pub first_seen_ms: u64,
}

pub struct AnchorModel {
    pub anchor: Anchor,
    pub ids: Seq<TxId>,
    pub first_seen_ms: u64,
}

impl View for AnchorRecord {
    type V = AnchorModel;

    open spec fn view(&self) -> AnchorModel {
        AnchorModel { anchor: self.anchor, ids: self.ids@, first_seen_ms: self.first_seen_ms }
    }
}

pub open spec fn anchor_key() -> spec_fn(AnchorModel) -> TxId {
    |r: AnchorModel| r.anchor
}

pub open spec fn record_views(s: Seq<AnchorRecord>) -> Seq<AnchorModel> {
    s.map_values(|r: AnchorRecord| r@)
}

fn copy_ids(v: &Vec<TxId>) -> (r: Vec<TxId>)
    ensures
        r@ == v@,
{
    let mut r: Vec<TxId> = Vec::new();
    let mut i: usize = 0;
    while i < v.len()
        invariant
            i <= v@.len(),
            r@ == v@.subrange(0, i as int),
        decreases v@.len() - i,
    {
        r.push(v[i]);
        i = i + 1;
        assert(r@ =~= v@.subrange(0, i as int));
    }
    assert(v@.subrange(0, v@.len() as int) =~= v@);
    r
}

/// Records, per anchor, every transaction id seen with it.
pub struct CollisionDetector {
    pub records: Vec<AnchorRecord>,
    pub config: EchoConfig,
}

impl CollisionDetector {
    /// Per anchor: the ids seen, without repetition, and the first sighting.
    pub open spec fn view(&self) -> Map<Anchor, AnchorModel> {
        keyed_map(record_views(self.records@), anchor_key())
    }

    pub open spec fn wf(&self) -> bool {
        &&& keys_unique(record_views(self.records@), anchor_key())
        &&& forall|i: int| 0 <= i < self.records@.len() ==> (#[trigger] self.records@[i]).ids@.no_duplicates()
    }

    /// A detector that has seen nothing.
    pub fn new(config: EchoConfig) -> (r: Self)
        ensures
            r.wf(),
            r.view() == Map::<Anchor, AnchorModel>::empty(),
            r.config == config,
    {
        let r = CollisionDetector { records: Vec::new(), config };
        assert(record_views(r.records@) =~= Seq::<AnchorModel>::empty());
        r
    }

    fn position(&self, anchor: &Anchor) -> (r: Option<usize>)
        ensures
            match r {
                Some(k) => k < self.records@.len() && self.records@[k as int].anchor == *anchor,
                None => forall|i: int| 0 <= i < self.records@.len() ==> self.records@[i].anchor != *anchor,
            },
    {
        let mut i: usize = 0;
        while i < self.records.len()
            invariant
                i <= self.records@.len(),
                forall|j: int| 0 <= j < i ==> self.records@[j].anchor != *anchor,
            decreases self.records@.len() - i,
        {
            if digest_eq(&self.records[i].anchor, anchor) {
                return Some(i);
            }
            i = i + 1;
        }
        None
    }

    /// Records `tx_id` under `anchor`. On the anchor's first sighting returns
    /// `None` and notes the time; afterwards returns every id seen with the
    /// anchor, this one included.
    pub fn check_transaction(&mut self, tx_id: TxId, anchor: Anchor) -> (r: Option<Vec<TxId>>)
        requires
            old(self).wf(),
        ensures
            final(self).wf(),
            r is None <==> !old(self).view().contains_key(anchor),
            final(self).view().contains_key(anchor),
            final(self).view()[anchor].ids.to_set() == if old(self).view().contains_key(anchor) {
                old(self).view()[anchor].ids.to_set().insert(tx_id)
            } else {
                set![tx_id]
            },
            old(self).view().contains_key(anchor) ==> final(self).view()[anchor].first_seen_ms == old(self).view()[anchor].first_seen_ms,
            forall|a: Anchor| a != anchor ==> #[trigger] final(self).view().contains_key(a) == old(self).view().contains_key(a)
                && (old(self).view().contains_key(a) ==> final(self).view()[a] == old(self).view()[a]),
            r is Some ==> r->Some_0@ == final(self).view()[anchor].ids,
    {
        let ghost before = record_views(self.records@);
        proof {
            lemma_keyed_map_unique(before, anchor_key());
        }
        match self.position(&anchor) {
            None => {
                let now = current_timestamp_ms();
                let mut ids: Vec<TxId> = Vec::new();
                ids.push(tx_id);
                let rec = AnchorRecord { anchor, ids, first_seen_ms: now };
                proof {
                    lemma_keyed_map_push(before, anchor_key(), rec@);
                    if old(self).view().contains_key(anchor) {
                        let i = choose|i: int| 0 <= i < before.len() && anchor_key()(before[i]) == anchor;
                        assert(before[i] == self.records@[i]@);
                    }
                }
                self.records.push(rec);
                assert(record_views(self.records@) =~= before.push(rec@));
                assert(rec@.ids =~= Seq::<TxId>::empty().push(tx_id));
                proof {
                    Seq::<TxId>::empty().lemma_push_to_set_commute(tx_id);
                    assert(Seq::<TxId>::empty().to_set() =~= Set::<TxId>::empty());
                }
                assert(rec@.ids.to_set() =~= set![tx_id]);
                assert(rec@.ids.no_duplicates());
                None
            },
            Some(k) => {
                let old_rec = &self.records[k];
                let mut ids = copy_ids(&old_rec.ids);
                let ghost old_ids = ids@;
                if !digests_contain(&ids, &tx_id) {
                    ids.push(tx_id);
                    proof {
                        old_ids.lemma_push_to_set_commute(tx_id);
                    }
                } else {
                    assert(old_ids.to_set().insert(tx_id) =~= old_ids.to_set());
                }
                let out = copy_ids(&ids);
                let rec = AnchorRecord { anchor, ids, first_seen_ms: old_rec.first_seen_ms };
                proof {
                    assert(before[k as int] == self.records@[k as int]@);
                    assert(old(self).view().contains_key(anchor_key()(before[k as int])));
                    assert(old(self).view()[anchor] == before[k as int]);
                    assert(rec@.ids.to_set() =~= before[k as int].ids.to_set().insert(tx_id));
                    lemma_keyed_map_update(before, anchor_key(), k as int, rec@);
                }
                self.records.set(k, rec);
                assert(record_views(self.records@) =~= before.update(k as int, rec@));
                Some(out)
            },
        }
    }

    /// Milliseconds from the anchor's first sighting to `now_ms` (zero if
    /// `now_ms` is earlier), or `None` for an anchor never seen.
    pub fn elapsed_since_first_seen(&self, anchor: &Anchor, now_ms: u64) -> (r: Option<u64>)
        requires
            self.wf(),
        ensures
            r is Some <==> self.view().contains_key(*anchor),
            r is Some ==> r->Some_0 == if now_ms >= self.view()[*anchor].first_seen_ms {
                (now_ms - self.view()[*anchor].first_seen_ms) as u64
            } else {
                0
            },
    {
        proof {
            lemma_keyed_map_unique(record_views(self.records@), anchor_key());
        }
        match self.position(anchor) {
            None => {
                proof {
                    if self.view().contains_key(*anchor) {
                        let i = choose|i: int|
                            0 <= i < record_views(self.records@).len() && anchor_key()(record_views(self.records@)[i]) == *anchor;
                        assert(record_views(self.records@)[i] == self.records@[i]@);
                    }
                }
                None
            },
            Some(k) => {
                assert(record_views(self.records@)[k as int] == self.records@[k as int]@);
                assert(self.view().contains_key(anchor_key()(record_views(self.records@)[k as int])));
                let first = self.records[k].first_seen_ms;
                if now_ms >= first {
                    Some(now_ms - first)
                } else {
                    Some(0)
                }
            },
        }
    }

    /// Milliseconds since the anchor was first seen, by the wall clock.
    pub fn time_since_first_seen(&self, anchor: &Anchor) -> (r: Option<u64>)
        requires
            self.wf(),
        ensures
            r is Some <==> self.view().contains_key(*anchor),
    {
        let now = current_timestamp_ms();
        self.elapsed_since_first_seen(anchor, now)
    }
}

impl Default for EchoLocator {
    fn default() -> (r: Self)
        ensures
            r.wf(),
            r.refs() == Map::<TxId, RefModel>::empty(),
            r.conf() == Map::<TxId, (TxId, u64)>::empty(),
    {
        EchoLocator::new()
    }
}

/// The transactions that `from` refers to.
pub struct RefRecord {
    pub from: TxId,
    pub to: Vec<TxId>,
}

pub struct RefModel {
    pub from: TxId,
    pub to: Seq<TxId>,
}

impl View for RefRecord {
    type V = RefModel;

    open spec fn view(&self) -> RefModel {
        RefModel { from: self.from, to: self.to@ }
    }
}

pub open spec fn ref_key() -> spec_fn(RefModel) -> TxId {
    |r: RefModel| r.from
}

pub open spec fn conf_key() -> spec_fn((TxId, u64)) -> TxId {
    |c: (TxId, u64)| c.0
}

pub open spec fn ref_views(s: Seq<RefRecord>) -> Seq<RefModel> {
    s.map_values(|r: RefRecord| r@)
}

/// The transactions `x` refers to.
pub open spec fn children(refs: Map<TxId, RefModel>, x: TxId) -> Seq<TxId> {
    if refs.contains_key(x) {
        refs[x].to
    } else {
        Seq::empty()
    }
}

/// Confidence from a count, in basis points: 0.5 plus 0.1 each, at most 1.0.
pub open spec fn confidence_value(n: nat) -> u64 {
    if 5_000 + 1_000 * n >= 10_000 {
        10_000
    } else {
        (5_000 + 1_000 * n) as u64
    }
}

/// A walk along references.
pub open spec fn is_ref_path(refs: Map<TxId, RefModel>, p: Seq<TxId>) -> bool {
    p.len() >= 1 && forall|i: int| 0 <= i < p.len() - 1 ==> #[trigger] children(refs, p[i]).contains(p[i + 1])
}

/// Every transaction reachable from `start` along references, `start` included.
pub open spec fn reachable(refs: Map<TxId, RefModel>, start: TxId) -> Set<TxId> {
    Set::new(|y: TxId| exists|p: Seq<TxId>| is_ref_path(refs, p) && p[0] == start && p.last() == y)
}

/// The targets of all reference lists, laid end to end.
pub open spec fn all_targets(rs: Seq<RefModel>) -> Seq<TxId>
    decreases rs.len(),
{
    if rs.len() == 0 {
        Seq::empty()
    } else {
        all_targets(rs.drop_last()) + rs.last().to
    }
}

proof fn lemma_all_targets_contains(rs: Seq<RefModel>, i: int, j: int)
    requires
        0 <= i < rs.len(),
        0 <= j < rs[i].to.len(),
    ensures
        all_targets(rs).contains(rs[i].to[j]),
    decreases rs.len(),
{
    let t = rs.drop_last();
    let a = all_targets(t);
    if i == rs.len() - 1 {
        assert(all_targets(rs)[a.len() + j] == rs[i].to[j]);
    } else {
        assert(t[i] == rs[i]);
        lemma_all_targets_contains(t, i, j);
        let k = choose|k: int| 0 <= k < a.len() && a[k] == rs[i].to[j];
        assert(all_targets(rs)[k] == rs[i].to[j]);
    }
}

/// A node reached along a path from a node of a set closed under
/// references lies in that set.
proof fn lemma_path_in_closed(refs: Map<TxId, RefModel>, p: Seq<TxId>, s: Set<TxId>)
    requires
        is_ref_path(refs, p),
        s.contains(p[0]),
        forall|v: TxId, c: TxId| s.contains(v) && #[trigger] children(refs, v).contains(c) ==> s.contains(c),
    ensures
        s.contains(p.last()),
    decreases p.len(),
{
    if p.len() > 1 {
        let q = p.drop_last();
        assert forall|i: int| 0 <= i < q.len() - 1 implies #[trigger] children(refs, q[i]).contains(q[i + 1]) by {
            assert(q[i] == p[i] && q[i + 1] == p[i + 1]);
            assert(children(refs, p[i]).contains(p[i + 1]));
        }
        lemma_path_in_closed(refs, q, s);
        assert(children(refs, p[p.len() - 2]).contains(p[p.len() - 2 + 1]));
    }
}

/// A walk extended by one reference is a walk.
proof fn lemma_path_push(refs: Map<TxId, RefModel>, p: Seq<TxId>, c: TxId)
    requires
        is_ref_path(refs, p),
        children(refs, p.last()).contains(c),
    ensures
        is_ref_path(refs, p.push(c)),
        p.push(c)[0] == p[0],
        p.push(c).last() == c,
{
    let q = p.push(c);
    assert forall|i: int| 0 <= i < q.len() - 1 implies #[trigger] children(refs, q[i]).contains(q[i + 1]) by {
        if i < p.len() - 1 {
            assert(q[i] == p[i] && q[i + 1] == p[i + 1]);
            assert(children(refs, p[i]).contains(p[i + 1]));
        } else {
            assert(q[i] == p.last());
        }
    }
}

/// Appends every item of `items` to `stack`.
fn push_all(stack: &mut Vec<TxId>, items: &Vec<TxId>)
    ensures
        final(stack)@ == old(stack)@ + items@,
{
    let ghost start = stack@;
    let mut j: usize = 0;
    while j < items.len()
        invariant
            j <= items@.len(),
            stack@ == start + items@.subrange(0, j as int),
        decreases items@.len() - j,
    {
        stack.push(items[j]);
        j = j + 1;
        assert(stack@ =~= start + items@.subrange(0, j as int));
    }
    assert(items@.subrange(0, items@.len() as int) =~= items@);
}

/// Reference edges and the confidence derived from them.
pub struct EchoLocator {
    pub confidence: Vec<(TxId, u64)>,
    pub references: Vec<RefRecord>,
}

impl EchoLocator {
    pub open spec fn refs(&self) -> Map<TxId, RefModel> {
        keyed_map(ref_views(self.references@), ref_key())
    }

    pub open spec fn conf(&self) -> Map<TxId, (TxId, u64)> {
        keyed_map(self.confidence@, conf_key())
    }

    /// The recorded confidence of `tx`, zero if none.
    pub open spec fn confidence_of(&self, tx: TxId) -> u64 {
        if self.conf().contains_key(tx) {
            self.conf()[tx].1
        } else {
            0
        }
    }

    pub open spec fn wf(&self) -> bool {
        &&& keys_unique(ref_views(self.references@), ref_key())
        &&& keys_unique(self.confidence@, conf_key())
        &&& forall|i: int| 0 <= i < self.references@.len() ==> (#[trigger] self.references@[i]).to@.no_duplicates()
    }

    /// No references, no confidence.
    pub fn new() -> (r: Self)
        ensures
            r.wf(),
            r.refs() == Map::<TxId, RefModel>::empty(),
            r.conf() == Map::<TxId, (TxId, u64)>::empty(),
    {
        let r = EchoLocator { confidence: Vec::new(), references: Vec::new() };
        assert(ref_views(r.references@) =~= Seq::<RefModel>::empty());
        assert(r.confidence@ =~= Seq::<(TxId, u64)>::empty());
        r
    }

    fn ref_position(&self, from: &TxId) -> (r: Option<usize>)
        requires
            self.wf(),
        ensures
            match r {
                Some(k) => k < self.references@.len() && self.references@[k as int].from == *from
                    && self.refs().contains_key(*from) && self.refs()[*from] == self.references@[k as int]@,
                None => !self.refs().contains_key(*from),
            },
    {
        proof {
            lemma_keyed_map_unique(ref_views(self.references@), ref_key());
        }
        let mut i: usize = 0;
        while i < self.references.len()
            invariant
                i <= self.references@.len(),
                self.wf(),
                forall|j: int| 0 <= j < i ==> self.references@[j].from != *from,
            decreases self.references@.len() - i,
        {
            if digest_eq(&self.references[i].from, from) {
                proof {
                    lemma_keyed_map_unique(ref_views(self.references@), ref_key());
                    assert(ref_views(self.references@)[i as int] == self.references@[i as int]@);
                    assert(self.refs().contains_key(ref_key()(ref_views(self.references@)[i as int])));
                }
                return Some(i);
            }
            i = i + 1;
        }
        proof {
            if self.refs().contains_key(*from) {
                let j = choose|j: int|
                    0 <= j < ref_views(self.references@).len() && ref_key()(ref_views(self.references@)[j]) == *from;
                assert(ref_views(self.references@)[j] == self.references@[j]@);
            }
        }
        None
    }

    fn conf_position(&self, tx: &TxId) -> (r: Option<usize>)
        requires
            self.wf(),
        ensures
            match r {
                Some(k) => k < self.confidence@.len() && self.confidence@[k as int].0 == *tx
                    && self.conf().contains_key(*tx) && self.conf()[*tx] == self.confidence@[k as int],
                None => !self.conf().contains_key(*tx) && forall|j: int| 0 <= j < self.confidence@.len() ==> self.confidence@[j].0 != *tx,
            },
    {
        proof {
            lemma_keyed_map_unique(self.confidence@, conf_key());
        }
        let mut i: usize = 0;
        while i < self.confidence.len()
            invariant
                i <= self.confidence@.len(),
                self.wf(),
                forall|j: int| 0 <= j < i ==> self.confidence@[j].0 != *tx,
            decreases self.confidence@.len() - i,
        {
            if digest_eq(&self.confidence[i].0, tx) {
                proof {
                    lemma_keyed_map_unique(self.confidence@, conf_key());
                    assert(self.conf().contains_key(conf_key()(self.confidence@[i as int])));
                }
                return Some(i);
            }
            i = i + 1;
        }
        proof {
            if self.conf().contains_key(*tx) {
                let j = choose|j: int| 0 <= j < self.confidence@.len() && conf_key()(self.confidence@[j]) == *tx;
            }
        }
        None
    }

    /// Records that `from` refers to `to`, then sets the confidence of `to`
    /// from the number of transactions `to` itself refers to.
    pub fn add_reference(&mut self, from: TxId, to: TxId)
        requires
            old(self).wf(),
        ensures
            final(self).wf(),
            children(final(self).refs(), from).to_set() == children(old(self).refs(), from).to_set().insert(to),
            forall|x: TxId| x != from ==> #[trigger] children(final(self).refs(), x) == children(old(self).refs(), x),
            final(self).confidence_of(to) == confidence_value(children(final(self).refs(), to).len()),
            forall|x: TxId| x != to ==> #[trigger] final(self).confidence_of(x) == old(self).confidence_of(x),
    {
        let ghost before = ref_views(self.references@);
        proof {
            lemma_keyed_map_unique(before, ref_key());
        }
        match self.ref_position(&from) {
            None => {
                let mut kids: Vec<TxId> = Vec::new();
                kids.push(to);
                let rec = RefRecord { from, to: kids };
                proof {
                    lemma_keyed_map_push(before, ref_key(), rec@);
                }
                self.references.push(rec);
                assert(ref_views(self.references@) =~= before.push(rec@));
                assert(rec@.to =~= Seq::<TxId>::empty().push(to));
                proof {
                    Seq::<TxId>::empty().lemma_push_to_set_commute(to);
                }
                assert(rec@.to.to_set() =~= Set::<TxId>::empty().insert(to));
                assert(children(old(self).refs(), from).to_set() =~= Set::<TxId>::empty());
                assert(rec@.to.no_duplicates());
            },
            Some(k) => {
                let mut kids = copy_ids(&self.references[k].to);
                let ghost old_kids = kids@;
                if !digests_contain(&kids, &to) {
                    kids.push(to);
                    proof {
                        old_kids.lemma_push_to_set_commute(to);
                    }
                } else {
                    assert(old_kids.to_set().insert(to) =~= old_kids.to_set());
                }
                let rec = RefRecord { from, to: kids };
                proof {
                    assert(before[k as int] == self.references@[k as int]@);
                    assert(rec@.to.to_set() =~= before[k as int].to.to_set().insert(to));
                    lemma_keyed_map_update(before, ref_key(), k as int, rec@);
                }
                self.references.set(k, rec);
                assert(ref_views(self.references@) =~= before.update(k as int, rec@));
            },
        }
        self.update_confidence(&to);
    }

    fn update_confidence(&mut self, tx: &TxId)
        requires
            old(self).wf(),
        ensures
            final(self).wf(),
            final(self).refs() == old(self).refs(),
            final(self).references == old(self).references,
            final(self).confidence_of(*tx) == confidence_value(children(old(self).refs(), *tx).len()),
            forall|x: TxId| x != *tx ==> #[trigger] final(self).confidence_of(x) == old(self).confidence_of(x),
    {
        let n: usize = match self.ref_position(tx) {
            Some(k) => self.references[k].to.len(),
            None => 0,
        };
        let c: u64 = if n >= 5 {
            10_000
        } else {
            5_000 + 1_000 * (n as u64)
        };
        let ghost before = self.confidence@;
        proof {
            lemma_keyed_map_unique(before, conf_key());
        }
        match self.conf_position(tx) {
            Some(k) => {
                proof {
                    lemma_keyed_map_update(before, conf_key(), k as int, (*tx, c));
                }
                self.confidence.set(k, (*tx, c));
            },
            None => {
                proof {
                    lemma_keyed_map_push(before, conf_key(), (*tx, c));
                }
                self.confidence.push((*tx, c));
            },
        }
    }

    /// Every node reachable from `start` is `start` or some reference target.
    proof fn lemma_reachable_in_universe(&self, start: TxId)
        requires
            self.wf(),
        ensures
            forall|y: TxId| #[trigger] reachable(self.refs(), start).contains(y) ==> (seq![start]
                + all_targets(ref_views(self.references@))).contains(y),
    {
        let rv = ref_views(self.references@);
        let refs = self.refs();
        let u = seq![start] + all_targets(rv);
        lemma_keyed_map_unique(rv, ref_key());
        assert forall|y: TxId| #[trigger] reachable(refs, start).contains(y) implies u.contains(y) by {
            let p = choose|p: Seq<TxId>| is_ref_path(refs, p) && p[0] == start && p.last() == y;
            if p.len() == 1 {
                assert(u[0] == start);
            } else {
                let x = p[p.len() - 2];
                assert(children(refs, p[p.len() - 2]).contains(p[p.len() - 2 + 1]));
                let i = choose|i: int| 0 <= i < rv.len() && ref_key()(rv[i]) == x;
                assert(refs[ref_key()(rv[i])] == rv[i]);
                let j = choose|j: int| 0 <= j < rv[i].to.len() && rv[i].to[j] == y;
                lemma_all_targets_contains(rv, i, j);
                let k = choose|k: int| 0 <= k < all_targets(rv).len() && all_targets(rv)[k] == y;
                assert(u[k + 1] == y);
            }
        }
    }

    /// The number of distinct transactions reachable from `tx` along
    /// references, `tx` included: the atmospheric pressure in hundredths.
    pub fn atmospheric_pressure(&self, tx: &TxId) -> (r: u64)
        requires
            self.wf(),
        ensures
            reachable(self.refs(), *tx).finite(),
            r == reachable(self.refs(), *tx).len(),
    {
        let ghost refs = self.refs();
        let ghost reach = reachable(refs, *tx);
        let ghost u = seq![*tx] + all_targets(ref_views(self.references@));
        proof {
            self.lemma_reachable_in_universe(*tx);
            u.lemma_cardinality_of_set();
            let single = seq![*tx];
            assert(is_ref_path(refs, single));
            assert(single[0] == *tx && single.last() == *tx);
            assert(reach.contains(*tx));
        }
        let mut visited: Vec<TxId> = Vec::new();
        let mut stack: Vec<TxId> = Vec::new();
        stack.push(*tx);
        assert(stack@[0] == *tx);
        assert(visited@.len() == 0);
        while stack.len() > 0
            invariant
                self.wf(),
                refs == self.refs(),
                reach == reachable(refs, *tx),
                u.to_set().len() <= u.len(),
                forall|y: TxId| #[trigger] reach.contains(y) ==> u.contains(y),
                visited@.no_duplicates(),
                forall|i: int| 0 <= i < visited@.len() ==> reach.contains(#[trigger] visited@[i]),
                forall|i: int| 0 <= i < stack@.len() ==> reach.contains(#[trigger] stack@[i]),
                forall|v: TxId, c: TxId|
                    visited@.contains(v) && #[trigger] children(refs, v).contains(c) ==> visited@.contains(c)
                        || stack@.contains(c),
                visited@.contains(*tx) || stack@.contains(*tx),
                visited@.len() <= u.len(),
            decreases u.len() - visited@.len(), stack@.len(),
        {
            let ghost before_stack = stack@;
            let cur = stack.pop().unwrap();
            assert(before_stack == stack@.push(cur));
            assert(reach.contains(before_stack[before_stack.len() - 1]));
            if !digests_contain(&visited, &cur) {
                let ghost old_visited = visited@;
                visited.push(cur);
                proof {
                    assert forall|a: int, b: int| 0 <= a < visited@.len() && 0 <= b < visited@.len() && a != b
                        implies visited@[a] != visited@[b] by {
                        if a < old_visited.len() && b < old_visited.len() {
                            assert(visited@[a] == old_visited[a] && visited@[b] == old_visited[b]);
                        } else if a < old_visited.len() {
                            assert(visited@[a] == old_visited[a]);
                            assert(old_visited.contains(old_visited[a]));
                        } else {
                            assert(visited@[b] == old_visited[b]);
                            assert(old_visited.contains(old_visited[b]));
                        }
                    }
                    assert forall|y: TxId| visited@.to_set().contains(y) implies u.to_set().contains(y) by {
                        let i = choose|i: int| 0 <= i < visited@.len() && visited@[i] == y;
                        if i < old_visited.len() {
                            assert(old_visited[i] == visited@[i]);
                        }
                        assert(reach.contains(visited@[i]));
                    }
                    visited@.unique_seq_to_set();
                    vstd::set_lib::lemma_len_subset(visited@.to_set(), u.to_set());
                }
                let ghost popped = stack@;
                match self.ref_position(&cur) {
                    Some(k) => {
                        push_all(&mut stack, &self.references[k].to);
                        proof {
                            assert(children(refs, cur) == self.references@[k as int].to@);
                        }
                    },
                    None => {
                        assert(children(refs, cur) =~= Seq::<TxId>::empty());
                        assert(stack@ =~= popped + children(refs, cur));
                    },
                }
                proof {
                    let kids = children(refs, cur);
                    assert(stack@ == popped + kids);
                    let p = choose|p: Seq<TxId>| is_ref_path(refs, p) && p[0] == *tx && p.last() == cur;
                    assert forall|i: int| 0 <= i < stack@.len() implies reach.contains(#[trigger] stack@[i]) by {
                        if i < popped.len() {
                            assert(stack@[i] == before_stack[i]);
                        } else {
                            assert(kids.contains(stack@[i]));
                            lemma_path_push(refs, p, stack@[i]);
                        }
                    }
                    assert forall|i: int| 0 <= i < visited@.len() implies reach.contains(#[trigger] visited@[i]) by {
                        if i < old_visited.len() {
                            assert(visited@[i] == old_visited[i]);
                        }
                    }
                    assert forall|v: TxId, c: TxId|
                        visited@.contains(v) && #[trigger] children(refs, v).contains(c) implies visited@.contains(c)
                            || stack@.contains(c) by {
                        if v == cur {
                            let j = choose|j: int| 0 <= j < kids.len() && kids[j] == c;
                            assert(stack@[popped.len() + j] == c);
                        } else {
                            let i = choose|i: int| 0 <= i < visited@.len() && visited@[i] == v;
                            assert(old_visited[i] == v);
                            assert(old_visited.contains(v));
                            if old_visited.contains(c) {
                                let j = choose|j: int| 0 <= j < old_visited.len() && old_visited[j] == c;
                                assert(visited@[j] == c);
                            } else if c == cur {
                                assert(visited@[old_visited.len() as int] == c);
                            } else {
                                assert(before_stack.contains(c));
                                let j = choose|j: int| 0 <= j < before_stack.len() && before_stack[j] == c;
                                assert(j < popped.len());
                                assert(stack@[j] == c);
                            }
                        }
                    }
                    if cur == *tx {
                        assert(visited@[old_visited.len() as int] == *tx);
                    } else if old_visited.contains(*tx) {
                        let j = choose|j: int| 0 <= j < old_visited.len() && old_visited[j] == *tx;
                        assert(visited@[j] == *tx);
                    } else {
                        let j = choose|j: int| 0 <= j < before_stack.len() && before_stack[j] == *tx;
                        assert(stack@[j] == *tx);
                    }
                }
            } else {
                proof {
                    assert forall|i: int| 0 <= i < stack@.len() implies reach.contains(#[trigger] stack@[i]) by {
                        assert(stack@[i] == before_stack[i]);
                    }
                    assert forall|v: TxId, c: TxId|
                        visited@.contains(v) && #[trigger] children(refs, v).contains(c) implies visited@.contains(c)
                            || stack@.contains(c) by {
                        if !visited@.contains(c) && c != cur {
                            assert(before_stack.contains(c));
                            let j = choose|j: int| 0 <= j < before_stack.len() && before_stack[j] == c;
                            assert(stack@[j] == c);
                        }
                    }
                    if !visited@.contains(*tx) && cur != *tx {
                        let j = choose|j: int| 0 <= j < before_stack.len() && before_stack[j] == *tx;
                        assert(stack@[j] == *tx);
                    }
                }
            }
        }
        proof {
            let vs = visited@.to_set();
            assert forall|v: TxId, c: TxId| vs.contains(v) && #[trigger] children(refs, v).contains(c) implies vs.contains(c) by {
                assert(visited@.contains(v));
                assert(!stack@.contains(c));
            }
            assert forall|y: TxId| reach.contains(y) implies vs.contains(y) by {
                let p = choose|p: Seq<TxId>| is_ref_path(refs, p) && p[0] == *tx && p.last() == y;
                lemma_path_in_closed(refs, p, vs);
            }
            assert forall|y: TxId| vs.contains(y) implies reach.contains(y) by {
                let i = choose|i: int| 0 <= i < visited@.len() && visited@[i] == y;
                assert(reach.contains(visited@[i]));
            }
            assert(vs =~= reach);
            visited@.unique_seq_to_set();
        }
        visited.len() as u64
    }

    /// Whether the recorded confidence of `tx` (zero if none) reaches
    /// `threshold`, both in basis points.
    pub fn is_final(&self, tx: &TxId, threshold: u64) -> (r: bool)
        requires
            self.wf(),
        ensures
            r == (self.confidence_of(*tx) >= threshold),
    {
        match self.conf_position(tx) {
            Some(k) => self.confidence[k].1 >= threshold,
            None => 0 >= threshold,
        }
    }
}

} // verus!
