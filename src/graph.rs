//! Transactions, alerts and the local transaction graph.

use crate::bytes::{
    append_bytes, bytes_eq, bytes_to_vec, digest_eq, hex_encode, hex_text, le_bytes, u64_to_le,
};
use crate::index::IdIndex;
use crate::crypto::{
    current_timestamp_ms, dilithium_opened, dilithium_signed, generate_nonce, hash_512, keys_match, sha3_512,
    signature_valid, CryptoError, KeyPair, PublicKeyBytes, PUBLIC_KEY_SIZE,
};
use vstd::prelude::*;

verus! {

/// Transaction id: the SHA3-512 digest of the canonical bytes.
pub type TxId = [u8; 64];

/// Per-sender double-spend fingerprint.
pub type Anchor = [u8; 64];

#[derive(Clone, Copy, Debug, PartialEq, Eq, Structural)]
pub enum TransactionType {
    Payment,
    Alert,
    Stake,
}

/// A signed transfer between two public keys.
pub struct Transaction {
    pub id: TxId,
    pub tx_type: TransactionType,
    pub from: Vec<u8>,
    pub to: Vec<u8>,
    pub amount: u64,
    pub nonce: u64,
    pub anchor: Anchor,
    pub parents: Vec<TxId>,
    pub timestamp: u64,
    pub signature: Vec<u8>,
    pub is_chaff: bool,
    pub fee: u64,
}

/// The value of a transaction.
pub struct TxModel {
    pub id: TxId,
    pub tx_type: TransactionType,
    pub from: Seq<u8>,
    pub to: Seq<u8>,
    pub amount: u64,
    pub nonce: u64,
    pub anchor: Anchor,
    pub parents: Seq<TxId>,
    pub timestamp: u64,
    pub signature: Seq<u8>,
    pub is_chaff: bool,
    pub fee: u64,
}

impl View for Transaction {
    type V = TxModel;

    open spec fn view(&self) -> TxModel {
        TxModel {
            id: self.id,
            tx_type: self.tx_type,
            from: self.from@,
            to: self.to@,
            amount: self.amount,
            nonce: self.nonce,
            anchor: self.anchor,
            parents: self.parents@,
            timestamp: self.timestamp,
            signature: self.signature@,
            is_chaff: self.is_chaff,
            fee: self.fee,
        }
    }
}

/// Digests laid end to end.
pub open spec fn concat_digests(ds: Seq<TxId>) -> Seq<u8>
    decreases ds.len(),
{
    if ds.len() == 0 {
        Seq::empty()
    } else {
        concat_digests(ds.drop_last()) + ds.last()@
    }
}

/// Canonical bytes: `from ‖ to ‖ amount ‖ nonce ‖ anchor ‖ parents ‖
/// timestamp ‖ fee`, integers little-endian. Id, type, signature and the
/// chaff flag are not part of it.
pub open spec fn canonical(t: TxModel) -> Seq<u8> {
    t.from + t.to + le_bytes(t.amount) + le_bytes(t.nonce) + t.anchor@ + concat_digests(t.parents)
        + le_bytes(t.timestamp) + le_bytes(t.fee)
}

/// Double spend: same sender and anchor, another recipient, another id.
pub open spec fn conflicts(other: TxModel, t: TxModel) -> bool {
    other.id != t.id && other.from == t.from && other.anchor == t.anchor && other.to != t.to
}

fn copy_digests(v: &Vec<TxId>) -> (r: Vec<TxId>)
    ensures
        r@ == v@,
{
    let mut r: Vec<TxId> = Vec::new();
    let mut i: usize = 0;
    while i < v.len()
        invariant
            i <= v@.len(),
            r@ == v@.subrange(0, i as int),
        decreases v@.len() - i,
    {
        r.push(v[i]);
        i = i + 1;
        assert(r@ =~= v@.subrange(0, i as int));
    }
    assert(v@.subrange(0, v@.len() as int) =~= v@);
    r
}

impl Clone for Transaction {
    fn clone(&self) -> (r: Self)
        ensures
            r@ == self@,
    {
        Transaction {
            id: self.id,
            tx_type: self.tx_type,
            from: crate::bytes::bytes_to_vec(self.from.as_slice()),
            to: crate::bytes::bytes_to_vec(self.to.as_slice()),
            amount: self.amount,
            nonce: self.nonce,
            anchor: self.anchor,
            parents: copy_digests(&self.parents),
            timestamp: self.timestamp,
            signature: crate::bytes::bytes_to_vec(self.signature.as_slice()),
            is_chaff: self.is_chaff,
            fee: self.fee,
        }
    }
}

impl Transaction {
    /// The bytes that are signed and hashed.
    pub fn content_to_sign(&self) -> (r: Vec<u8>)
        ensures
            r@ == canonical(self@),
    {
        let mut data: Vec<u8> = Vec::new();
        append_bytes(&mut data, self.from.as_slice());
        append_bytes(&mut data, self.to.as_slice());
        append_bytes(&mut data, &u64_to_le(self.amount));
        append_bytes(&mut data, &u64_to_le(self.nonce));
        append_bytes(&mut data, &self.anchor);
        let ghost head = data@;
        let mut i: usize = 0;
        while i < self.parents.len()
            invariant
                i <= self.parents@.len(),
                data@ == head + concat_digests(self.parents@.subrange(0, i as int)),
            decreases self.parents@.len() - i,
        {
            append_bytes(&mut data, &self.parents[i]);
            i = i + 1;
            assert(self.parents@.subrange(0, i as int).drop_last() =~= self.parents@.subrange(
                0,
                i - 1,
            ));
            assert(data@ =~= head + concat_digests(self.parents@.subrange(0, i as int)));
        }
        assert(self.parents@.subrange(0, self.parents@.len() as int) =~= self.parents@);
        append_bytes(&mut data, &u64_to_le(self.timestamp));
        append_bytes(&mut data, &u64_to_le(self.fee));
        assert(data@ =~= canonical(self@));
        data
    }

    /// The id this transaction should carry: the digest of its canonical bytes.
    pub fn compute_id(&self) -> (r: TxId)
        ensures
            r@ == sha3_512(canonical(self@)),
    {
        let content = self.content_to_sign();
        hash_512(content.as_slice())
    }

    /// An unsigned payment with the given nonce and timestamp; its id is set.
    pub fn unsigned(
        from: Vec<u8>,
        to: Vec<u8>,
        amount: u64,
        anchor: Anchor,
        parents: Vec<TxId>,
        fee: u64,
        nonce: u64,
        timestamp: u64,
    ) -> (r: Self)
        ensures
            r.from@ == from@,
            r.to@ == to@,
            r.amount == amount,
            r.anchor == anchor,
            r.parents@ == parents@,
            r.fee == fee,
            r.nonce == nonce,
            r.timestamp == timestamp,
            r.tx_type == TransactionType::Payment,
            !r.is_chaff,
            r.signature@.len() == 0,
            r.id@ == sha3_512(canonical(r@)),
    {
        let mut tx = Transaction {
            id: [0u8; 64],
            tx_type: TransactionType::Payment,
            from,
            to,
            amount,
            nonce,
            anchor,
            parents,
            timestamp,
            signature: Vec::new(),
            is_chaff: false,
            fee,
        };
        tx.id = tx.compute_id();
        tx
    }

    /// A payment signed with `keypair`, with a fresh random nonce and the
    /// current time. Fails exactly when the key pair's secret key is malformed.
    pub fn new(
        from: Vec<u8>,
        to: Vec<u8>,
        amount: u64,
        anchor: Anchor,
        parents: Vec<TxId>,
        fee: u64,
        keypair: &KeyPair,
    ) -> (r: Result<Self, CryptoError>)
        ensures
            r is Ok <==> keypair.secret_view().len() == crate::crypto::SECRET_KEY_SIZE,
            r is Ok ==> {
                let t = r->Ok_0;
                &&& t.from@ == from@
                &&& t.to@ == to@
                &&& t.amount == amount
                &&& t.anchor == anchor
                &&& t.parents@ == parents@
                &&& t.fee == fee
                &&& t.tx_type == TransactionType::Payment
                &&& !t.is_chaff
                &&& t.id@ == sha3_512(canonical(t@))
                &&& t.signature@ == dilithium_signed(keypair.secret_view(), canonical(t@))
            },
            r is Err ==> r->Err_0 is SignatureError,
    {
        let nonce = generate_nonce();
        let timestamp = current_timestamp_ms();
        let mut tx = Transaction::unsigned(from, to, amount, anchor, parents, fee, nonce, timestamp);
        let content = tx.content_to_sign();
        match keypair.sign(content.as_slice()) {
            Ok(sig) => {
                tx.signature = sig;
                Ok(tx)
            },
            Err(e) => Err(e),
        }
    }

    /// Whether the signature is a valid signature of the canonical bytes
    /// under `public_key`; false also for a malformed key.
    pub fn verify_signature(&self, public_key: &[u8]) -> (r: bool)
        ensures
            r == (public_key@.len() == PUBLIC_KEY_SIZE && signature_valid(
                public_key@,
                canonical(self@),
                self.signature@,
            )),
    {
        match PublicKeyBytes::from_bytes(public_key) {
            Ok(pk) => {
                let content = self.content_to_sign();
                match pk.verify(content.as_slice(), self.signature.as_slice()) {
                    Ok(b) => b,
                    Err(_) => false,
                }
            },
            Err(_) => false,
        }
    }
}

/// A double-spend notice naming two conflicting transactions.
pub struct Alert {
    pub id: TxId,
    pub conflicting_tx1: TxId,
    pub conflicting_tx2: TxId,
    pub anchor: Anchor,
    pub discovered_by: Vec<u8>,
    pub timestamp: u64,
    pub propagation_count: u32,
}

/// The value of an alert.
pub struct AlertModel {
    pub id: TxId,
    pub conflicting_tx1: TxId,
    pub conflicting_tx2: TxId,
    pub anchor: Anchor,
    pub discovered_by: Seq<u8>,
    pub timestamp: u64,
    pub propagation_count: u32,
}

impl View for Alert {
    type V = AlertModel;

    open spec fn view(&self) -> AlertModel {
        AlertModel {
            id: self.id,
            conflicting_tx1: self.conflicting_tx1,
            conflicting_tx2: self.conflicting_tx2,
            anchor: self.anchor,
            discovered_by: self.discovered_by@,
            timestamp: self.timestamp,
            propagation_count: self.propagation_count,
        }
    }
}

impl Clone for Alert {
    fn clone(&self) -> (r: Self)
        ensures
            r@ == self@,
    {
        Alert {
            id: self.id,
            conflicting_tx1: self.conflicting_tx1,
            conflicting_tx2: self.conflicting_tx2,
            anchor: self.anchor,
            discovered_by: crate::bytes::bytes_to_vec(self.discovered_by.as_slice()),
            timestamp: self.timestamp,
            propagation_count: self.propagation_count,
        }
    }
}

/// The values of a sequence of transactions.
pub open spec fn tx_views(s: Seq<Transaction>) -> Seq<TxModel> {
    s.map_values(|t: Transaction| t@)
}

/// The values of a sequence of alerts.
pub open spec fn alert_views(s: Seq<Alert>) -> Seq<AlertModel> {
    s.map_values(|a: Alert| a@)
}

/// The id of a transaction value.
pub open spec fn tx_key() -> spec_fn(TxModel) -> TxId {
    |t: TxModel| t.id
}

/// The id of an alert value.
pub open spec fn alert_key() -> spec_fn(AlertModel) -> TxId {
    |a: AlertModel| a.id
}

/// The map from key to value built by inserting the items in order, a later
/// item replacing an earlier one with the same key.
pub open spec fn keyed_map<V>(s: Seq<V>, key: spec_fn(V) -> TxId) -> Map<TxId, V>
    decreases s.len(),
{
    if s.len() == 0 {
        Map::empty()
    } else {
        keyed_map(s.drop_last(), key).insert(key(s.last()), s.last())
    }
}

/// No two items share a key.
pub open spec fn keys_unique<V>(s: Seq<V>, key: spec_fn(V) -> TxId) -> bool {
    forall|i: int, j: int| 0 <= i < s.len() && 0 <= j < s.len() && i != j ==> key(s[i]) != key(s[j])
}

/// With unique keys the map holds exactly the items, each under its key.
pub proof fn lemma_keyed_map_unique<V>(s: Seq<V>, key: spec_fn(V) -> TxId)
    requires
        keys_unique(s, key),
    ensures
        forall|i: int| 0 <= i < s.len() ==> #[trigger] keyed_map(s, key).contains_key(key(s[i]))
            && keyed_map(s, key)[key(s[i])] == s[i],
        forall|k: TxId| #[trigger] keyed_map(s, key).contains_key(k) ==> exists|i: int|
            0 <= i < s.len() && key(s[i]) == k,
    decreases s.len(),
{
    if s.len() > 0 {
        let t = s.drop_last();
        assert(keys_unique(t, key)) by {
            assert forall|i: int, j: int| 0 <= i < t.len() && 0 <= j < t.len() && i != j implies key(t[i]) != key(t[j]) by {
                assert(t[i] == s[i]);
                assert(t[j] == s[j]);
            }
        }
        lemma_keyed_map_unique(t, key);
        assert(keyed_map(s, key) == keyed_map(t, key).insert(key(s.last()), s.last()));
        assert forall|i: int| 0 <= i < s.len() implies #[trigger] keyed_map(s, key).contains_key(key(s[i]))
            && keyed_map(s, key)[key(s[i])] == s[i] by {
            if i < s.len() - 1 {
                assert(t[i] == s[i]);
                assert(key(s[i]) != key(s.last()));
            }
        }
        assert forall|k: TxId| #[trigger] keyed_map(s, key).contains_key(k) implies exists|i: int|
            0 <= i < s.len() && key(s[i]) == k by {
            if k != key(s.last()) {
                let i = choose|i: int| 0 <= i < t.len() && key(t[i]) == k;
                assert(s[i] == t[i]);
            } else {
                assert(key(s[s.len() - 1]) == k);
            }
        }
    }
}

/// Replacing the item under a present key updates the map at that key.
pub proof fn lemma_keyed_map_update<V>(s: Seq<V>, key: spec_fn(V) -> TxId, k: int, v: V)
    requires
        keys_unique(s, key),
        0 <= k < s.len(),
        key(s[k]) == key(v),
    ensures
        keys_unique(s.update(k, v), key),
        keyed_map(s.update(k, v), key) == keyed_map(s, key).insert(key(v), v),
{
    let u = s.update(k, v);
    assert(keys_unique(u, key)) by {
        assert forall|i: int, j: int| 0 <= i < u.len() && 0 <= j < u.len() && i != j implies key(u[i]) != key(u[j]) by {
            assert(key(u[i]) == key(s[i]));
            assert(key(u[j]) == key(s[j]));
        }
    }
    lemma_keyed_map_unique(s, key);
    lemma_keyed_map_unique(u, key);
    let m1 = keyed_map(u, key);
    let m2 = keyed_map(s, key).insert(key(v), v);
    assert forall|x: TxId| m1.contains_key(x) <==> m2.contains_key(x) by {
        if m1.contains_key(x) {
            let i = choose|i: int| 0 <= i < u.len() && key(u[i]) == x;
            assert(key(s[i]) == x);
        }
        if m2.contains_key(x) && x != key(v) {
            let i = choose|i: int| 0 <= i < s.len() && key(s[i]) == x;
            assert(key(u[i]) == x);
        }
        if x == key(v) {
            assert(key(u[k]) == x);
        }
    }
    assert forall|x: TxId| m1.contains_key(x) implies m1[x] == m2[x] by {
        let i = choose|i: int| 0 <= i < u.len() && key(u[i]) == x;
        if i == k {
        } else {
            assert(key(s[i]) == x);
        }
    }
    assert(m1 =~= m2);
}

/// Appending an item under a new key inserts it into the map.
pub proof fn lemma_keyed_map_push<V>(s: Seq<V>, key: spec_fn(V) -> TxId, v: V)
    requires
        keys_unique(s, key),
        forall|i: int| 0 <= i < s.len() ==> key(s[i]) != key(v),
    ensures
        keys_unique(s.push(v), key),
        keyed_map(s.push(v), key) == keyed_map(s, key).insert(key(v), v),
{
    assert(s.push(v).drop_last() =~= s);
    let u = s.push(v);
    assert forall|i: int, j: int| 0 <= i < u.len() && 0 <= j < u.len() && i != j implies key(u[i]) != key(u[j]) by {
        if i < s.len() {
            assert(u[i] == s[i]);
        }
        if j < s.len() {
            assert(u[j] == s[j]);
        }
    }
}

/// One more item seen by a filter.
pub proof fn lemma_filter_step<A>(s: Seq<A>, i: int, p: spec_fn(A) -> bool)
    requires
        0 <= i < s.len(),
    ensures
        s.subrange(0, i + 1).filter(p) == if p(s[i]) {
            s.subrange(0, i).filter(p).push(s[i])
        } else {
            s.subrange(0, i).filter(p)
        },
{
    reveal(Seq::filter);
    assert(s.subrange(0, i + 1).drop_last() =~= s.subrange(0, i));
}

/// A digest read from exactly 64 bytes.
pub fn digest_from_slice(b: &[u8]) -> (r: Option<TxId>)
    ensures
        r is Some <==> b@.len() == 64,
        r is Some ==> r->Some_0@ == b@,
{
    if b.len() != 64 {
        return None;
    }
    let mut d: [u8; 64] = [0u8; 64];
    let mut i: usize = 0;
    while i < 64
        invariant
            i <= 64,
            b@.len() == 64,
            forall|j: int| 0 <= j < i ==> d@[j] == b@[j],
        decreases 64 - i,
    {
        d[i] = b[i];
        i = i + 1;
    }
    assert(d@ =~= b@);
    Some(d)
}

/// Whether `id` is among `ds`.
pub fn digests_contain(ds: &Vec<TxId>, id: &TxId) -> (r: bool)
    ensures
        r == ds@.contains(*id),
{
    let mut i: usize = 0;
    while i < ds.len()
        invariant
            i <= ds@.len(),
            forall|j: int| 0 <= j < i ==> ds@[j] != *id,
        decreases ds@.len() - i,
    {
        if digest_eq(&ds[i], id) {
            assert(ds@[i as int] == *id);
            return true;
        }
        i = i + 1;
    }
    false
}

/// Summary of a transaction for listings.
pub struct RecentTxItem {
    pub id: String,
    pub from: String,
    pub to: String,
    pub amount: u64,
    pub timestamp: u64,
}

/// The value of a listing entry.
pub struct RecentModel {
    pub id: Seq<char>,
    pub from: Seq<char>,
    pub to: Seq<char>,
    pub amount: u64,
    pub timestamp: u64,
}

impl View for RecentTxItem {
    type V = RecentModel;

    open spec fn view(&self) -> RecentModel {
        RecentModel {
            id: self.id@,
            from: self.from@,
            to: self.to@,
            amount: self.amount,
            timestamp: self.timestamp,
        }
    }
}

/// The listing entry of a transaction: hex id, hex sender, hex recipient,
/// amount and timestamp.
pub open spec fn recent_item(t: TxModel) -> RecentModel {
    RecentModel {
        id: hex_text(t.id@),
        from: hex_text(t.from),
        to: hex_text(t.to),
        amount: t.amount,
        timestamp: t.timestamp,
    }
}

pub open spec fn recent_items(s: Seq<TxModel>) -> Seq<RecentModel> {
    s.map_values(|t: TxModel| recent_item(t))
}

pub open spec fn item_views(s: Seq<RecentTxItem>) -> Seq<RecentModel> {
    s.map_values(|x: RecentTxItem| x@)
}

/// Latest timestamp first.
pub open spec fn sorted_by_time_desc(s: Seq<RecentModel>) -> bool {
    forall|a: int, b: int| 0 <= a < b < s.len() ==> s[a].timestamp >= s[b].timestamp
}

impl RecentTxItem {
    /// The listing entry of `t`.
    pub fn of(t: &Transaction) -> (r: Self)
        ensures
            r@ == recent_item(t@),
    {
        RecentTxItem {
            id: hex_encode(&t.id),
            from: hex_encode(t.from.as_slice()),
            to: hex_encode(t.to.as_slice()),
            amount: t.amount,
            timestamp: t.timestamp,
        }
    }
}

impl Default for LocalGraph {
    fn default() -> (r: Self)
        ensures
            r.wf(),
            r.view().transactions == Map::<TxId, TxModel>::empty(),
            r.view().alerts == Map::<TxId, AlertModel>::empty(),
    {
        LocalGraph::new()
    }
}

/// The graph that a snapshot's entries describe.
pub open spec fn snapshot_model(txs: Seq<TxModel>, alerts: Seq<AlertModel>) -> GraphModel {
    GraphModel { transactions: keyed_map(txs, tx_key()), alerts: keyed_map(alerts, alert_key()) }
}

/// On-disk form of a graph.
pub struct GraphSnapshot {
    pub transactions: Vec<Transaction>,
    pub alerts: Vec<Alert>,
}

impl GraphSnapshot {
    pub open spec fn txs(&self) -> Seq<TxModel> {
        tx_views(self.transactions@)
    }

    pub open spec fn alert_seq(&self) -> Seq<AlertModel> {
        alert_views(self.alerts@)
    }
}

/// The value of a graph: transactions and alerts, each by id.
pub struct GraphModel {
    pub transactions: Map<TxId, TxModel>,
    pub alerts: Map<TxId, AlertModel>,
}

/// Why a transaction was refused.
#[derive(Clone, Copy, Debug, PartialEq, Eq, Structural)]
pub enum GraphError {
    CollisionDetected,
}

/// A node's local store of transactions and alerts, with the ids of the
/// transactions indexed by sender and by anchor.
pub struct LocalGraph {
    pub transactions: Vec<Transaction>,
    pub by_sender: IdIndex,
    pub by_anchor: IdIndex,
    pub alerts: Vec<Alert>,
}

/// Transactions that list `id` among their parents.
pub open spec fn refers_to(id: TxId) -> spec_fn(TxModel) -> bool {
    |t: TxModel| t.parents.contains(id)
}

/// Confidence in basis points: 0.5 plus 0.1 per referring transaction, at
/// most 1.0; 0.5 for an unknown transaction.
pub open spec fn confidence_spec(known: bool, referrers: nat) -> u64 {
    if !known {
        5_000
    } else if 5_000 + 1_000 * referrers >= 10_000 {
        10_000
    } else {
        (5_000 + 1_000 * referrers) as u64
    }
}

/// At most the first `n` items.
pub open spec fn take_upto<A>(s: Seq<A>, n: nat) -> Seq<A> {
    if s.len() <= n {
        s
    } else {
        s.take(n as int)
    }
}

/// The ids of a sequence of transactions.
pub open spec fn ids_of(s: Seq<TxModel>) -> Seq<TxId> {
    s.map_values(|t: TxModel| t.id)
}

impl LocalGraph {
    pub open spec fn txs(&self) -> Seq<TxModel> {
        tx_views(self.transactions@)
    }

    pub open spec fn alert_seq(&self) -> Seq<AlertModel> {
        alert_views(self.alerts@)
    }

    /// Ids are unique among transactions and among alerts, and each index
    /// files exactly the ids of the stored transactions with that sender or
    /// that anchor.
    pub open spec fn wf(&self) -> bool {
        &&& keys_unique(self.txs(), tx_key())
        &&& keys_unique(self.alert_seq(), alert_key())
        &&& self.by_sender.wf()
        &&& self.by_anchor.wf()
        &&& forall|s: Seq<u8>| #[trigger] self.by_sender.ids_for(s) == self.ids_from(s)
        &&& forall|a: Seq<u8>| #[trigger] self.by_anchor.ids_for(a) == self.ids_with_anchor(a)
    }

    pub open spec fn view(&self) -> GraphModel {
        GraphModel {
            transactions: keyed_map(self.txs(), tx_key()),
            alerts: keyed_map(self.alert_seq(), alert_key()),
        }
    }

    /// Ids of the stored transactions sent by `sender`.
    pub open spec fn ids_from(&self, sender: Seq<u8>) -> Set<TxId> {
        Set::new(
            |id: TxId|
                self.view().transactions.contains_key(id) && self.view().transactions[id].from
                    == sender,
        )
    }

    /// Ids of the stored transactions whose anchor has these bytes.
    pub open spec fn ids_with_anchor(&self, anchor: Seq<u8>) -> Set<TxId> {
        Set::new(
            |id: TxId|
                self.view().transactions.contains_key(id) && self.view().transactions[id].anchor@
                    == anchor,
        )
    }

    /// Whether `t` would be a double spend against a stored transaction.
    pub open spec fn has_conflict(&self, t: TxModel) -> bool {
        exists|id: TxId|
            self.view().transactions.contains_key(id) && conflicts(
                #[trigger] self.view().transactions[id],
                t,
            )
    }

    /// An empty graph.
    pub fn new() -> (r: Self)
        ensures
            r.wf(),
            r.view().transactions == Map::<TxId, TxModel>::empty(),
            r.view().alerts == Map::<TxId, AlertModel>::empty(),
    {
        let r = LocalGraph {
            transactions: Vec::new(),
            by_sender: IdIndex::new(),
            by_anchor: IdIndex::new(),
            alerts: Vec::new(),
        };
        assert(r.txs() =~= Seq::<TxModel>::empty());
        assert(r.alert_seq() =~= Seq::<AlertModel>::empty());
        assert forall|x: Seq<u8>| #[trigger] r.by_sender.ids_for(x) == r.ids_from(x) by {
            assert(r.ids_from(x) =~= Set::<TxId>::empty());
        }
        assert forall|x: Seq<u8>| #[trigger] r.by_anchor.ids_for(x) == r.ids_with_anchor(x) by {
            assert(r.ids_with_anchor(x) =~= Set::<TxId>::empty());
        }
        r
    }

    /// Position of the transaction with this id.
    fn find_tx(&self, id: &TxId) -> (r: Option<usize>)
        ensures
            match r {
                Some(k) => k < self.txs().len() && self.txs()[k as int].id == *id,
                None => forall|i: int| 0 <= i < self.txs().len() ==> self.txs()[i].id != *id,
            },
    {
        let mut i: usize = 0;
        while i < self.transactions.len()
            invariant
                i <= self.txs().len(),
                self.txs().len() == self.transactions@.len(),
                forall|j: int| 0 <= j < i ==> self.txs()[j].id != *id,
            decreases self.transactions@.len() - i,
        {
            if digest_eq(&self.transactions[i].id, id) {
                return Some(i);
            }
            i = i + 1;
        }
        None
    }

    /// Position of the alert with this id.
    fn find_alert(&self, id: &TxId) -> (r: Option<usize>)
        ensures
            match r {
                Some(k) => k < self.alert_seq().len() && self.alert_seq()[k as int].id == *id,
                None => forall|i: int|
                    0 <= i < self.alert_seq().len() ==> self.alert_seq()[i].id != *id,
            },
    {
        let mut i: usize = 0;
        while i < self.alerts.len()
            invariant
                i <= self.alert_seq().len(),
                self.alert_seq().len() == self.alerts@.len(),
                forall|j: int| 0 <= j < i ==> self.alert_seq()[j].id != *id,
            decreases self.alerts@.len() - i,
        {
            if digest_eq(&self.alerts[i].id, id) {
                return Some(i);
            }
            i = i + 1;
        }
        None
    }

    /// Stores `tx` under its id, replacing one with the same id, and files
    /// the id in both indices.
    fn put_transaction(&mut self, tx: Transaction)
        requires
            old(self).wf(),
        ensures
            final(self).wf(),
            final(self).view().transactions == old(self).view().transactions.insert(tx.id, tx@),
            final(self).view().alerts == old(self).view().alerts,
            final(self).alerts@ == old(self).alerts@,
    {
        let ghost g0 = *self;
        let ghost m0 = self.view().transactions;
        let ghost t = tx@;
        let ghost before = self.txs();
        proof {
            lemma_keyed_map_unique(before, tx_key());
        }
        let id = tx.id;
        let from = bytes_to_vec(tx.from.as_slice());
        let anchor = tx.anchor;
        match self.find_tx(&id) {
            Some(k) => {
                proof {
                    assert(m0.contains_key(tx_key()(before[k as int])));
                    assert(m0[id] == before[k as int]);
                    lemma_keyed_map_update(before, tx_key(), k as int, tx@);
                }
                let old_from = bytes_to_vec(self.transactions[k].from.as_slice());
                let old_anchor = self.transactions[k].anchor;
                self.by_sender.remove(old_from.as_slice(), &id);
                self.by_anchor.remove(&old_anchor, &id);
                self.transactions.set(k, tx);
                assert(self.txs() =~= before.update(k as int, t));
            },
            None => {
                proof {
                    lemma_keyed_map_push(before, tx_key(), tx@);
                    assert(!m0.contains_key(id)) by {
                        if m0.contains_key(id) {
                            let j = choose|j: int| 0 <= j < before.len() && tx_key()(before[j]) == id;
                        }
                    }
                }
                self.transactions.push(tx);
                assert(self.txs() =~= before.push(t));
            },
        }
        let ghost mid_sender = self.by_sender;
        let ghost mid_anchor = self.by_anchor;
        self.by_sender.insert(from.as_slice(), id);
        self.by_anchor.insert(&anchor, id);
        proof {
            let m1 = self.view().transactions;
            assert(m1 == m0.insert(id, t));
            assert forall|x: Seq<u8>| #[trigger] self.by_sender.ids_for(x) == self.ids_from(x) by {
                assert(g0.by_sender.ids_for(x) == g0.ids_from(x));
                assert(self.by_sender.ids_for(x) =~= self.ids_from(x));
            }
            assert forall|x: Seq<u8>| #[trigger] self.by_anchor.ids_for(x) == self.ids_with_anchor(x) by {
                assert(g0.by_anchor.ids_for(x) == g0.ids_with_anchor(x));
                assert(self.by_anchor.ids_for(x) =~= self.ids_with_anchor(x));
            }
        }
    }

    /// Stores `alert` under its id, replacing one with the same id.
    fn put_alert(&mut self, alert: Alert)
        requires
            old(self).wf(),
        ensures
            final(self).wf(),
            final(self).view().alerts == old(self).view().alerts.insert(alert.id, alert@),
            final(self).view().transactions == old(self).view().transactions,
            final(self).transactions@ == old(self).transactions@,
    {
        let ghost before = self.alert_seq();
        match self.find_alert(&alert.id) {
            Some(k) => {
                proof {
                    lemma_keyed_map_update(before, alert_key(), k as int, alert@);
                }
                self.alerts.set(k, alert);
                assert(self.alert_seq() =~= before.update(k as int, alert@));
            },
            None => {
                proof {
                    lemma_keyed_map_push(before, alert_key(), alert@);
                }
                self.alerts.push(alert);
                assert(self.alert_seq() =~= before.push(alert@));
            },
        }
    }

    /// Inserts `tx` unless it is a double spend against a stored
    /// transaction (same sender and anchor, another recipient, another id).
    /// A transaction with a stored id replaces the stored one.
    pub fn add_transaction(&mut self, tx: Transaction) -> (r: Result<(), GraphError>)
        requires
            old(self).wf(),
        ensures
            final(self).wf(),
            r is Err <==> old(self).has_conflict(tx@),
            r is Ok ==> final(self).view().transactions == old(self).view().transactions.insert(
                tx.id,
                tx@,
            ),
            r is Ok ==> final(self).view().alerts == old(self).view().alerts,
            r is Err ==> final(self).view() == old(self).view(),
    {
        proof {
            lemma_keyed_map_unique(self.txs(), tx_key());
        }
        let mut i: usize = 0;
        while i < self.transactions.len()
            invariant
                i <= self.txs().len(),
                self.txs().len() == self.transactions@.len(),
                self.wf(),
                self == old(self),
                forall|j: int| 0 <= j < i ==> !conflicts(#[trigger] self.txs()[j], tx@),
            decreases self.transactions@.len() - i,
        {
            let other = &self.transactions[i];
            if !digest_eq(&other.id, &tx.id) && digest_eq(&other.anchor, &tx.anchor) && bytes_eq(
                other.from.as_slice(),
                tx.from.as_slice(),
            ) && !bytes_eq(other.to.as_slice(), tx.to.as_slice()) {
                proof {
                    lemma_keyed_map_unique(self.txs(), tx_key());
                    let t = self.txs()[i as int];
                    assert(t == other@);
                    assert(self.view().transactions.contains_key(tx_key()(t)));
                    assert(conflicts(self.view().transactions[t.id], tx@));
                }
                return Err(GraphError::CollisionDetected);
            }
            i = i + 1;
        }
        proof {
            lemma_keyed_map_unique(self.txs(), tx_key());
            assert forall|id: TxId| self.view().transactions.contains_key(id) implies !conflicts(
                #[trigger] self.view().transactions[id],
                tx@,
            ) by {
                let j = choose|j: int| 0 <= j < self.txs().len() && tx_key()(self.txs()[j]) == id;
                assert(self.view().transactions[tx_key()(self.txs()[j])] == self.txs()[j]);
            }
        }
        self.put_transaction(tx);
        Ok(())
    }

    /// All stored transactions that carry `anchor`, each once, as filed in
    /// the anchor index.
    pub fn find_collisions(&self, anchor: &Anchor) -> (r: Vec<Transaction>)
        requires
            self.wf(),
        ensures
            ids_of(tx_views(r@)).no_duplicates(),
            ids_of(tx_views(r@)).to_set() == self.ids_with_anchor(anchor@),
            forall|i: int|
                0 <= i < r@.len() ==> self.view().transactions.contains_key(#[trigger] r@[i].id)
                    && self.view().transactions[r@[i].id] == r@[i]@,
    {
        let ids = self.by_anchor.get(anchor);
        proof {
            lemma_keyed_map_unique(self.txs(), tx_key());
        }
        let mut r: Vec<Transaction> = Vec::new();
        let mut i: usize = 0;
        while i < ids.len()
            invariant
                self.wf(),
                i <= ids@.len(),
                ids@.no_duplicates(),
                ids@.to_set() == self.ids_with_anchor(anchor@),
                ids_of(tx_views(r@)) == ids@.subrange(0, i as int),
                forall|j: int|
                    0 <= j < r@.len() ==> self.view().transactions.contains_key(#[trigger] r@[j].id)
                        && self.view().transactions[r@[j].id] == r@[j]@,
            decreases ids@.len() - i,
        {
            let id = ids[i];
            assert(ids@.to_set().contains(ids@[i as int]));
            match self.find_tx(&id) {
                Some(k) => {
                    proof {
                        lemma_keyed_map_unique(self.txs(), tx_key());
                        assert(self.view().transactions.contains_key(tx_key()(self.txs()[k as int])));
                    }
                    let c = self.transactions[k].clone();
                    let ghost prev = r@;
                    r.push(c);
                    assert(ids_of(tx_views(r@)) =~= ids@.subrange(0, i + 1)) by {
                        assert(ids_of(tx_views(r@)) =~= ids_of(tx_views(prev)).push(c.id));
                    }
                    assert forall|j: int|
                        0 <= j < r@.len() implies self.view().transactions.contains_key(#[trigger] r@[j].id)
                            && self.view().transactions[r@[j].id] == r@[j]@ by {
                        if j < prev.len() {
                            assert(r@[j] == prev[j]);
                        }
                    }
                },
                None => {
                    proof {
                        lemma_keyed_map_unique(self.txs(), tx_key());
                        let j = choose|j: int| 0 <= j < self.txs().len() && tx_key()(self.txs()[j]) == id;
                        assert(false);
                    }
                },
            }
            i = i + 1;
        }
        assert(ids@.subrange(0, ids@.len() as int) =~= ids@);
        r
    }

    /// The id of the first transaction sharing `tx`'s anchor that `tx`
    /// double-spends against, if any.
    pub fn first_conflict(&self, tx: &Transaction) -> (r: Option<TxId>)
        requires
            self.wf(),
        ensures
            r is Some ==> self.view().transactions.contains_key(r->Some_0) && conflicts(
                self.view().transactions[r->Some_0],
                tx@,
            ),
            r is None ==> !self.has_conflict(tx@),
    {
        let found = self.find_collisions(&tx.anchor);
        let mut i: usize = 0;
        while i < found.len()
            invariant
                i <= found@.len(),
                forall|k: int|
                    0 <= k < found@.len() ==> self.view().transactions.contains_key(#[trigger] found@[k].id)
                        && self.view().transactions[found@[k].id] == found@[k]@,
                forall|k: int| 0 <= k < i ==> !conflicts(#[trigger] found@[k]@, tx@),
            decreases found@.len() - i,
        {
            let c = &found[i];
            if !digest_eq(&c.id, &tx.id) && bytes_eq(c.from.as_slice(), tx.from.as_slice()) && !bytes_eq(
                c.to.as_slice(),
                tx.to.as_slice(),
            ) && digest_eq(&c.anchor, &tx.anchor) {
                assert(found@[i as int] == *c);
                return Some(c.id);
            }
            i = i + 1;
        }
        proof {
            assert forall|id: TxId| self.view().transactions.contains_key(id) implies !conflicts(
                #[trigger] self.view().transactions[id],
                tx@,
            ) by {
                if conflicts(self.view().transactions[id], tx@) {
                    assert(self.view().transactions[id].anchor@ == tx.anchor@);
                    assert(self.ids_with_anchor(tx.anchor@).contains(id));
                    let ids = ids_of(tx_views(found@));
                    assert(ids.to_set().contains(id));
                    let k = choose|k: int| 0 <= k < ids.len() && ids[k] == id;
                    assert(found@[k].id == id);
                    assert(found@[k]@ == self.view().transactions[id]);
                }
            }
        }
        None
    }

    /// Confidence in the transaction with this id, in basis points:
    /// 0.5 plus 0.1 for each stored transaction listing it as a parent, at
    /// most 1.0; 0.5 when it is not stored.
    pub fn get_confidence(&self, tx_id: &TxId) -> (r: u64)
        requires
            self.wf(),
        ensures
            r == confidence_spec(
                self.view().transactions.contains_key(*tx_id),
                self.txs().filter(refers_to(*tx_id)).len(),
            ),
            5_000 <= r <= 10_000,
    {
        proof {
            lemma_keyed_map_unique(self.txs(), tx_key());
        }
        match self.find_tx(tx_id) {
            None => {
                proof {
                    if self.view().transactions.contains_key(*tx_id) {
                        let j = choose|j: int|
                            0 <= j < self.txs().len() && tx_key()(self.txs()[j]) == *tx_id;
                    }
                }
                5_000
            },
            Some(k) => {
                assert(self.view().transactions.contains_key(tx_key()(self.txs()[k as int])));
                let mut count: usize = 0;
                let mut i: usize = 0;
                while i < self.transactions.len()
                    invariant
                        i <= self.txs().len(),
                        self.txs().len() == self.transactions@.len(),
                        count == self.txs().subrange(0, i as int).filter(refers_to(*tx_id)).len(),
                        count <= i,
                    decreases self.transactions@.len() - i,
                {
                    proof {
                        lemma_filter_step(self.txs(), i as int, refers_to(*tx_id));
                    }
                    if digests_contain(&self.transactions[i].parents, tx_id) {
                        count = count + 1;
                    }
                    i = i + 1;
                }
                assert(self.txs().subrange(0, self.txs().len() as int) =~= self.txs());
                if count >= 5 {
                    10_000
                } else {
                    5_000 + 1_000 * (count as u64)
                }
            },
        }
    }

    /// Up to `limit` ids of stored transactions sent by `sender`, each once,
    /// in no particular order: all of them when there are at most `limit`.
    pub fn recent_tx_ids_for_sender(&self, sender: &[u8], limit: usize) -> (r: Vec<TxId>)
        requires
            self.wf(),
        ensures
            r@.no_duplicates(),
            r@.to_set().subset_of(self.ids_from(sender@)),
            self.ids_from(sender@).finite(),
            r@.len() == if limit < self.ids_from(sender@).len() {
                limit as nat
            } else {
                self.ids_from(sender@).len()
            },
    {
        let ids = self.by_sender.get(sender);
        let mut r: Vec<TxId> = Vec::new();
        let mut i: usize = 0;
        while i < ids.len() && i < limit
            invariant
                i <= ids@.len(),
                i <= limit,
                r@ == ids@.subrange(0, i as int),
            decreases ids@.len() - i,
        {
            r.push(ids[i]);
            i = i + 1;
            assert(r@ =~= ids@.subrange(0, i as int));
        }
        proof {
            broadcast use vstd::seq_lib::seq_to_set_is_finite;

            assert(self.ids_from(sender@) == ids@.to_set());
            ids@.unique_seq_to_set();
            assert(r@.len() == i);
            assert forall|a: int, b: int| 0 <= a < r@.len() && 0 <= b < r@.len() && a != b implies r@[a] != r@[b] by {
                assert(r@[a] == ids@[a] && r@[b] == ids@[b]);
            }
            assert forall|x: TxId| r@.to_set().contains(x) implies self.ids_from(sender@).contains(x) by {
                let j = choose|j: int| 0 <= j < r@.len() && r@[j] == x;
                assert(ids@[j] == x);
                assert(ids@.to_set().contains(x));
            }
        }
        r
    }

    /// Summaries of the stored transactions, latest timestamp first, at
    /// most `limit` of them.
    pub fn recent_transactions(&self, limit: usize) -> (r: Vec<RecentTxItem>)
        ensures
            exists|all: Seq<RecentModel>|
                {
                    &&& all.to_multiset() == recent_items(self.txs()).to_multiset()
                    &&& sorted_by_time_desc(all)
                    &&& item_views(r@) == take_upto(all, limit as nat)
                },
    {
        broadcast use vstd::seq_lib::to_multiset_insert;

        let mut all: Vec<RecentTxItem> = Vec::new();
        assert(item_views(all@) =~= recent_items(self.txs().subrange(0, 0)));
        let mut i: usize = 0;
        while i < self.transactions.len()
            invariant
                i <= self.txs().len(),
                self.txs().len() == self.transactions@.len(),
                item_views(all@).to_multiset() == recent_items(
                    self.txs().subrange(0, i as int),
                ).to_multiset(),
                sorted_by_time_desc(item_views(all@)),
            decreases self.transactions@.len() - i,
        {
            let item = RecentTxItem::of(&self.transactions[i]);
            let mut p: usize = 0;
            while p < all.len() && all[p].timestamp >= item.timestamp
                invariant
                    p <= all@.len(),
                    forall|k: int| 0 <= k < p ==> all@[k].timestamp >= item.timestamp,
                decreases all@.len() - p,
            {
                p = p + 1;
            }
            let ghost before = item_views(all@);
            all.insert(p, item);
            proof {
                assert(item_views(all@) =~= before.insert(p as int, item@));
                vstd::seq_lib::to_multiset_insert(before, p as int, item@);
                assert(recent_items(self.txs().subrange(0, i + 1)) =~= recent_items(
                    self.txs().subrange(0, i as int),
                ).push(item@));
                vstd::seq_lib::to_multiset_build(
                    recent_items(self.txs().subrange(0, i as int)),
                    item@,
                );
                assert forall|a: int, b: int|
                    0 <= a < b < item_views(all@).len() implies item_views(all@)[a].timestamp
                    >= item_views(all@)[b].timestamp by {
                    if p < before.len() {
                        assert(before[p as int].timestamp < item.timestamp);
                    }
                    if a < p && b > p {
                        assert(before[a].timestamp >= item.timestamp);
                    }
                    if a == p && b > p {
                        assert(before[b - 1].timestamp <= before[p as int].timestamp);
                    }
                    if a < p && b == p {
                        assert(before[a].timestamp >= item.timestamp);
                    }
                }
            }
            i = i + 1;
        }
        assert(self.txs().subrange(0, self.txs().len() as int) =~= self.txs());
        let ghost full = item_views(all@);
        if limit < all.len() {
            all.truncate(limit);
            assert(item_views(all@) =~= full.take(limit as int));
        }
        all
    }

    /// A graph holding the snapshot's transactions and alerts, each by id
    /// (a later entry replacing an earlier one with the same id).
    pub fn from_snapshot(snapshot: GraphSnapshot) -> (r: Self)
        ensures
            r.wf(),
            r.view() == snapshot_model(snapshot.txs(), snapshot.alert_seq()),
    {
        let mut graph = LocalGraph::new();
        let GraphSnapshot { transactions, alerts } = snapshot;
        let ghost txs = tx_views(transactions@);
        let ghost als = alert_views(alerts@);
        let mut i: usize = 0;
        while i < transactions.len()
            invariant
                graph.wf(),
                i <= transactions@.len(),
                txs == tx_views(transactions@),
                graph.view().transactions == keyed_map(txs.subrange(0, i as int), tx_key()),
                graph.view().alerts == Map::<TxId, AlertModel>::empty(),
            decreases transactions@.len() - i,
        {
            graph.put_transaction(transactions[i].clone());
            assert(txs.subrange(0, i + 1).drop_last() =~= txs.subrange(0, i as int));
            i = i + 1;
        }
        assert(txs.subrange(0, transactions@.len() as int) =~= txs);
        let mut j: usize = 0;
        while j < alerts.len()
            invariant
                graph.wf(),
                j <= alerts@.len(),
                als == alert_views(alerts@),
                graph.view().transactions == keyed_map(txs, tx_key()),
                graph.view().alerts == keyed_map(als.subrange(0, j as int), alert_key()),
            decreases alerts@.len() - j,
        {
            graph.put_alert(alerts[j].clone());
            assert(als.subrange(0, j + 1).drop_last() =~= als.subrange(0, j as int));
            j = j + 1;
        }
        assert(als.subrange(0, alerts@.len() as int) =~= als);
        graph
    }

    /// All stored transactions and alerts.
    pub fn to_snapshot(&self) -> (r: GraphSnapshot)
        ensures
            r.txs() == self.txs(),
            r.alert_seq() == self.alert_seq(),
    {
        let mut transactions: Vec<Transaction> = Vec::new();
        let mut i: usize = 0;
        while i < self.transactions.len()
            invariant
                i <= self.transactions@.len(),
                transactions@.len() == i,
                tx_views(transactions@) == self.txs().subrange(0, i as int),
            decreases self.transactions@.len() - i,
        {
            let c = self.transactions[i].clone();
            assert(c@ == self.txs()[i as int]);
            let ghost prev = transactions@;
            transactions.push(c);
            assert(transactions@ == prev.push(c));
            assert forall|k: int| 0 <= k <= i implies #[trigger] tx_views(transactions@)[k] == self.txs()[k] by {
                if k < i {
                    assert(transactions@[k] == prev[k]);
                    assert(tx_views(prev)[k] == self.txs().subrange(0, i as int)[k]);
                }
            }
            i = i + 1;
            assert(tx_views(transactions@) =~= self.txs().subrange(0, i as int));
        }
        let mut alerts: Vec<Alert> = Vec::new();
        let mut j: usize = 0;
        while j < self.alerts.len()
            invariant
                j <= self.alerts@.len(),
                alerts@.len() == j,
                alert_views(alerts@) == self.alert_seq().subrange(0, j as int),
            decreases self.alerts@.len() - j,
        {
            let c = self.alerts[j].clone();
            assert(c@ == self.alert_seq()[j as int]);
            let ghost prev = alerts@;
            alerts.push(c);
            assert(alerts@ == prev.push(c));
            assert forall|k: int| 0 <= k <= j implies #[trigger] alert_views(alerts@)[k] == self.alert_seq()[k] by {
                if k < j {
                    assert(alerts@[k] == prev[k]);
                    assert(alert_views(prev)[k] == self.alert_seq().subrange(0, j as int)[k]);
                }
            }
            j = j + 1;
            assert(alert_views(alerts@) =~= self.alert_seq().subrange(0, j as int));
        }
        let r = GraphSnapshot { transactions, alerts };
        assert(r.txs() =~= self.txs());
        assert(r.alert_seq() =~= self.alert_seq());
        r
    }
}

/// The sender and anchor indices reflect exactly the graph's
/// transactions: under a sender, and under an anchor, are filed exactly the
/// ids of the stored transactions with that sender, or that anchor. An empty
/// graph is well formed, and every insertion keeps it so.
pub proof fn lemma_indices_reflect_graph(g: LocalGraph, sender: Seq<u8>, anchor: Anchor)
    requires
        g.wf(),
    ensures
        g.by_sender.ids_for(sender) == Set::new(
            |id: TxId|
                g.view().transactions.contains_key(id) && g.view().transactions[id].from == sender,
        ),
        g.by_anchor.ids_for(anchor@) == Set::new(
            |id: TxId|
                g.view().transactions.contains_key(id) && g.view().transactions[id].anchor == anchor,
        ),
{
    assert(g.by_sender.ids_for(sender) == g.ids_from(sender));
    assert(g.by_anchor.ids_for(anchor@) == g.ids_with_anchor(anchor@));
    assert forall|id: TxId| g.view().transactions.contains_key(id) implies (g.view().transactions[id].anchor@ == anchor@ <==> g.view().transactions[id].anchor == anchor) by {
        if g.view().transactions[id].anchor@ == anchor@ {
            assert(g.view().transactions[id].anchor =~= anchor);
        }
    }
    assert(g.ids_with_anchor(anchor@) =~= Set::new(
        |id: TxId|
            g.view().transactions.contains_key(id) && g.view().transactions[id].anchor == anchor,
    ));
}

/// A transaction signed with a key pair whose keys belong together verifies
/// under the signer's public key.
pub proof fn lemma_signed_transaction_verifies(t: TxModel, public_key: Seq<u8>, secret_key: Seq<u8>)
    requires
        keys_match(public_key, secret_key),
        t.signature == dilithium_signed(secret_key, canonical(t)),
    ensures
        signature_valid(public_key, canonical(t), t.signature),
{
}

/// Changing what a signature covers makes it fail: a transaction carrying
/// the signature of another whose canonical bytes differ does not verify
/// under the signer's public key.
pub proof fn lemma_tampered_transaction_fails(
    t: TxModel,
    tampered: TxModel,
    public_key: Seq<u8>,
    secret_key: Seq<u8>,
)
    requires
        keys_match(public_key, secret_key),
        t.signature == dilithium_signed(secret_key, canonical(t)),
        tampered.signature == t.signature,
        canonical(tampered) != canonical(t),
    ensures
        !signature_valid(public_key, canonical(tampered), tampered.signature),
{
    assert(dilithium_opened(public_key, dilithium_signed(secret_key, canonical(t))) == Some(canonical(t)));
}

/// The signed field number `k` (in canonical order: sender, recipient,
/// amount, nonce, anchor, parents, timestamp, fee) differs between `t` and
/// `u`, and every other signed field is the same.
pub open spec fn only_field_changed(t: TxModel, u: TxModel, k: int) -> bool {
    &&& (k == 0) == (t.from != u.from)
    &&& (k == 1) == (t.to != u.to)
    &&& (k == 2) == (t.amount != u.amount)
    &&& (k == 3) == (t.nonce != u.nonce)
    &&& (k == 4) == (t.anchor != u.anchor)
    &&& (k == 5) == (t.parents != u.parents)
    &&& (k == 6) == (t.timestamp != u.timestamp)
    &&& (k == 7) == (t.fee != u.fee)
}

proof fn lemma_cancel_right(a: Seq<u8>, b: Seq<u8>, r: Seq<u8>)
    requires
        a + r == b + r,
    ensures
        a == b,
{
    assert((a + r).len() == a.len() + r.len());
    assert((b + r).len() == b.len() + r.len());
    assert(a =~= (a + r).subrange(0, a.len() as int));
    assert(b =~= (b + r).subrange(0, b.len() as int));
}

proof fn lemma_cancel_left(p: Seq<u8>, x: Seq<u8>, y: Seq<u8>)
    requires
        p + x == p + y,
    ensures
        x == y,
{
    assert((p + x).len() == p.len() + x.len());
    assert((p + y).len() == p.len() + y.len());
    assert(x =~= (p + x).subrange(p.len() as int, (p + x).len() as int));
    assert(y =~= (p + y).subrange(p.len() as int, (p + y).len() as int));
}

proof fn lemma_concat_digests_len(ds: Seq<TxId>)
    ensures
        concat_digests(ds).len() == 64 * ds.len(),
    decreases ds.len(),
{
    if ds.len() > 0 {
        lemma_concat_digests_len(ds.drop_last());
    }
}

proof fn lemma_concat_digests_injective(ds: Seq<TxId>, es: Seq<TxId>)
    requires
        concat_digests(ds) == concat_digests(es),
    ensures
        ds == es,
    decreases ds.len(),
{
    lemma_concat_digests_len(ds);
    lemma_concat_digests_len(es);
    if ds.len() > 0 {
        let a = concat_digests(ds.drop_last());
        let b = concat_digests(es.drop_last());
        lemma_concat_digests_len(ds.drop_last());
        lemma_concat_digests_len(es.drop_last());
        let c = concat_digests(ds);
        assert(a =~= c.subrange(0, a.len() as int));
        assert(b =~= c.subrange(0, b.len() as int));
        assert(ds.last()@ =~= c.subrange(a.len() as int, c.len() as int));
        assert(es.last()@ =~= c.subrange(b.len() as int, c.len() as int));
        assert(ds.last() =~= es.last());
        lemma_concat_digests_injective(ds.drop_last(), es.drop_last());
        assert(ds =~= ds.drop_last().push(ds.last()));
        assert(es =~= es.drop_last().push(es.last()));
    } else {
        assert(ds =~= es);
    }
}

/// Changing exactly one signed field of a transaction changes its canonical
/// bytes.
pub proof fn lemma_one_field_change_changes_canonical(t: TxModel, u: TxModel, k: int)
    requires
        0 <= k < 8,
        only_field_changed(t, u, k),
    ensures
        canonical(t) != canonical(u),
{
    if canonical(t) == canonical(u) {
        let (f, o, la, ln, an, cp, lt, lf) = (
            t.from,
            t.to,
            le_bytes(t.amount),
            le_bytes(t.nonce),
            t.anchor@,
            concat_digests(t.parents),
            le_bytes(t.timestamp),
            le_bytes(t.fee),
        );
        let (f2, o2, la2, ln2, an2, cp2, lt2, lf2) = (
            u.from,
            u.to,
            le_bytes(u.amount),
            le_bytes(u.nonce),
            u.anchor@,
            concat_digests(u.parents),
            le_bytes(u.timestamp),
            le_bytes(u.fee),
        );
        if k == 7 {
            lemma_cancel_left(f + o + la + ln + an + cp + lt, lf, lf2);
            crate::bytes::lemma_le_round_trip(t.fee);
            crate::bytes::lemma_le_round_trip(u.fee);
        } else {
            lemma_cancel_right(f2 + o2 + la2 + ln2 + an2 + cp2 + lt2, f + o + la + ln + an + cp + lt, lf);
            if k == 6 {
                lemma_cancel_left(f + o + la + ln + an + cp, lt, lt2);
                crate::bytes::lemma_le_round_trip(t.timestamp);
                crate::bytes::lemma_le_round_trip(u.timestamp);
            } else {
                lemma_cancel_right(f2 + o2 + la2 + ln2 + an2 + cp2, f + o + la + ln + an + cp, lt);
                if k == 5 {
                    lemma_cancel_left(f + o + la + ln + an, cp, cp2);
                    lemma_concat_digests_injective(t.parents, u.parents);
                } else {
                    lemma_cancel_right(f2 + o2 + la2 + ln2 + an2, f + o + la + ln + an, cp);
                    if k == 4 {
                        lemma_cancel_left(f + o + la + ln, an, an2);
                        assert(t.anchor =~= u.anchor);
                    } else {
                        lemma_cancel_right(f2 + o2 + la2 + ln2, f + o + la + ln, an);
                        if k == 3 {
                            lemma_cancel_left(f + o + la, ln, ln2);
                            crate::bytes::lemma_le_round_trip(t.nonce);
                            crate::bytes::lemma_le_round_trip(u.nonce);
                        } else {
                            lemma_cancel_right(f2 + o2 + la2, f + o + la, ln);
                            if k == 2 {
                                lemma_cancel_left(f + o, la, la2);
                                crate::bytes::lemma_le_round_trip(t.amount);
                                crate::bytes::lemma_le_round_trip(u.amount);
                            } else {
                                lemma_cancel_right(f2 + o2, f + o, la);
                                if k == 1 {
                                    lemma_cancel_left(f, o, o2);
                                } else {
                                    lemma_cancel_right(f2, f, o);
                                }
                            }
                        }
                    }
                }
            }
        }
    }
}

/// Rebuilding a graph from its snapshot gives back the same graph.
pub proof fn lemma_snapshot_round_trip(g: LocalGraph)
    ensures
        snapshot_model(g.txs(), g.alert_seq()) == g.view(),
{
}

/// A graph's confidence values lie in `[0.5, 1.0]`.
pub proof fn lemma_confidence_bounds(known: bool, referrers: nat)
    ensures
        5_000 <= confidence_spec(known, referrers) <= 10_000,
{
}

} // verus!
