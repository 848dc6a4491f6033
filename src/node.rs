//! The node core: balance, reputation, stake and the decisions of the
//! event loop. The loop itself, the transport and persistence run around
//! these functions; each decision returns the actions for them to perform.

use crate::bytes::{bytes_eq, bytes_to_vec, le_bytes, u64_to_le};
use crate::consensus::EchoLocator;
use crate::crypto::{
    dilithium_signed, hash_512, keys_match, sha3_512, signature_valid, CryptoError, KeyPair,
    PUBLIC_KEY_SIZE,
};
use crate::economics::{
    compute_fee_micro, emission_reward, emission_reward_spec, fee_spec, TxPriority, BP_ONE,
    FEE_SHARE_STORAGE, REPUTATION_DEFAULT, REPUTATION_DELTA_RELAY, REPUTATION_MAX,
    REPUTATION_PUNISH_MIN, STAKE_MAX,
};
use crate::graph::{canonical, conflicts, Alert, GraphError, LocalGraph, Transaction, TxModel};
use crate::index::{
    first_lookup, lemma_first_lookup_at, lemma_first_lookup_first, lemma_first_lookup_in,
    lemma_first_lookup_push, lemma_first_lookup_update,
};
use crate::network::NetworkEvent;
use vstd::prelude::*;

verus! {

/// A reputation clamped to `[0.01, 0.99]`.
pub open spec fn clamp_reputation(x: int) -> u64 {
    if x < REPUTATION_PUNISH_MIN {
        REPUTATION_PUNISH_MIN
    } else if x > REPUTATION_MAX {
        REPUTATION_MAX
    } else {
        x as u64
    }
}

/// Reputation of peers, in basis points, each within `[0.01, 0.99]`.
pub struct ReputationMap {
    entries: Vec<(Vec<u8>, u64)>,
}

impl ReputationMap {
    pub closed spec fn entry_seq(&self) -> Seq<(Seq<u8>, u64)> {
        self.entries@.map_values(|e: (Vec<u8>, u64)| (e.0@, e.1))
    }

    /// The stored reputation of `peer`, if any.
    pub open spec fn stored(&self, peer: Seq<u8>) -> Option<u64> {
        first_lookup(self.entry_seq(), peer)
    }

    /// The reputation of `peer`: the default 0.5 for a peer never mentioned.
    pub open spec fn reputation_of(&self, peer: Seq<u8>) -> u64 {
        match self.stored(peer) {
            Some(v) => v,
            None => REPUTATION_DEFAULT,
        }
    }

    /// Every stored reputation lies within `[0.01, 0.99]`.
    pub closed spec fn wf(&self) -> bool {
        forall|j: int|
            0 <= j < self.entries@.len() ==> REPUTATION_PUNISH_MIN <= #[trigger] self.entries@[j].1
                <= REPUTATION_MAX
    }

    /// A stored reputation of a well-formed map lies within `[0.01, 0.99]`.
    pub proof fn lemma_stored_in_range(&self, peer: Seq<u8>)
        requires
            self.wf(),
        ensures
            REPUTATION_PUNISH_MIN <= self.reputation_of(peer) <= REPUTATION_MAX,
    {
        lemma_first_lookup_in(self.entry_seq(), peer);
        if self.stored(peer) is Some {
            let j = choose|j: int|
                0 <= j < self.entry_seq().len() && self.entry_seq()[j].1 == self.stored(peer)->Some_0;
            assert(self.entry_seq()[j].1 == self.entries@[j].1);
        }
    }

    /// A map with no peers.
    pub fn new() -> (r: Self)
        ensures
            r.wf(),
            forall|p: Seq<u8>| r.stored(p) is None,
    {
        let r = ReputationMap { entries: Vec::new() };
        assert(r.entry_seq() =~= Seq::<(Seq<u8>, u64)>::empty());
        r
    }

    /// Position of the first entry of `peer`.
    fn position(&self, peer: &[u8]) -> (r: Option<usize>)
        ensures
            match r {
                Some(k) => k < self.entry_seq().len() && self.entry_seq()[k as int].0 == peer@
                    && forall|j: int| 0 <= j < k ==> self.entry_seq()[j].0 != peer@,
                None => forall|j: int| 0 <= j < self.entry_seq().len() ==> self.entry_seq()[j].0 != peer@,
            },
    {
        let mut i: usize = 0;
        while i < self.entries.len()
            invariant
                i <= self.entries@.len(),
                self.entry_seq().len() == self.entries@.len(),
                forall|j: int| 0 <= j < i ==> self.entry_seq()[j].0 != peer@,
            decreases self.entries@.len() - i,
        {
            if bytes_eq(self.entries[i].0.as_slice(), peer) {
                return Some(i);
            }
            i = i + 1;
        }
        None
    }

    /// The reputation of `peer` (0.5 if never mentioned).
    pub fn get(&self, peer: &[u8]) -> (r: u64)
        ensures
            r == self.reputation_of(peer@),
    {
        proof {
            lemma_first_lookup_first(self.entry_seq(), peer@);
        }
        match self.position(peer) {
            Some(k) => {
                proof {
                    lemma_first_lookup_at(self.entry_seq(), k as int, peer@);
                }
                self.entries[k].1
            },
            None => REPUTATION_DEFAULT,
        }
    }

    /// Sets the reputation of `peer` to `value` clamped to `[0.01, 0.99]`.
    pub fn set(&mut self, peer: &[u8], value: u64)
        requires
            old(self).wf(),
        ensures
            final(self).wf(),
            final(self).stored(peer@) == Some(clamp_reputation(value as int)),
            forall|q: Seq<u8>| q != peer@ ==> final(self).stored(q) == old(self).stored(q),
    {
        let v: u64 = if value < REPUTATION_PUNISH_MIN {
            REPUTATION_PUNISH_MIN
        } else if value > REPUTATION_MAX {
            REPUTATION_MAX
        } else {
            value
        };
        let ghost before = self.entry_seq();
        match self.position(peer) {
            Some(k) => {
                self.entries.set(k, (bytes_to_vec(peer), v));
                assert(self.entry_seq() =~= before.update(k as int, (peer@, v)));
                assert forall|q: Seq<u8>| #[trigger] first_lookup(self.entry_seq(), q) == if q == peer@ {
                    Some(v)
                } else {
                    first_lookup(before, q)
                } by {
                    lemma_first_lookup_update(before, k as int, peer@, v, q);
                }
            },
            None => {
                self.entries.push((bytes_to_vec(peer), v));
                assert(self.entry_seq() =~= before.push((peer@, v)));
                assert forall|q: Seq<u8>| #[trigger] first_lookup(self.entry_seq(), q) == if q == peer@ {
                    Some(v)
                } else {
                    first_lookup(before, q)
                } by {
                    lemma_first_lookup_push(before, peer@, v, q);
                }
            },
        }
    }

    /// Adds `delta` to the reputation of `peer` (0.5 if never mentioned),
    /// clamped to `[0.01, 0.99]`.
    pub fn credit(&mut self, peer: &[u8], delta: u64)
        requires
            old(self).wf(),
        ensures
            final(self).wf(),
            final(self).stored(peer@) == Some(
                clamp_reputation(old(self).reputation_of(peer@) + delta),
            ),
            forall|q: Seq<u8>| q != peer@ ==> final(self).stored(q) == old(self).stored(q),
    {
        let cur = self.get(peer);
        proof {
            self.lemma_stored_in_range(peer@);
        }
        let raised: u64 = if delta > REPUTATION_MAX { REPUTATION_MAX } else { delta };
        let sum: u64 = cur + raised;
        assert(clamp_reputation(sum as int) == clamp_reputation(cur + delta));
        self.set(peer, sum);
    }

    /// Sets `peer` to the lowest reputation, for a detected double spend.
    pub fn punish(&mut self, peer: &[u8])
        requires
            old(self).wf(),
        ensures
            final(self).wf(),
            final(self).stored(peer@) == Some(REPUTATION_PUNISH_MIN),
            forall|q: Seq<u8>| q != peer@ ==> final(self).stored(q) == old(self).stored(q),
    {
        self.set(peer, REPUTATION_PUNISH_MIN);
    }

    /// Number of peers with a stored reputation entry.
    pub fn len(&self) -> (r: usize)
        ensures
            r == self.entry_seq().len(),
    {
        self.entries.len()
    }

    /// The `i`-th entry: a peer and its reputation.
    pub fn entry(&self, i: usize) -> (r: (Vec<u8>, u64))
        requires
            i < self.entry_seq().len(),
        ensures
            r.0@ == self.entry_seq()[i as int].0,
            r.1 == self.entry_seq()[i as int].1,
    {
        (bytes_to_vec(self.entries[i].0.as_slice()), self.entries[i].1)
    }
}

/// Address of the admin endpoint when none is given.
pub fn default_admin() -> (r: String)
    ensures
        r@ == "127.0.0.1:9190"@,
{
    "127.0.0.1:9190".to_owned()
}

/// Node configuration.
pub struct NodeConfig {
    pub initial_balance: u64,
    /// Own starting reputation, in basis points.
    pub initial_reputation: u64,
    pub enable_chaff: bool,
    /// Probability of cover traffic, in basis points.
    pub chaff_probability: u64,
    pub data_dir: String,
    /// Address of the local admin endpoint, if any.
    pub admin_listen: Option<String>,
    /// Seconds between emission ticks; 0 disables emission.
    pub emission_interval_secs: u64,
}

/// Errors the node core reports.
pub enum NodeError {
    InsufficientBalance,
    InvalidSignature,
    CollisionDetected,
    InvalidArgument(String),
    Crypto(CryptoError),
}

/// What became of an inbound transaction.
pub enum TxOutcome {
    /// Stored: persist the graph and rebroadcast the transaction.
    Accepted,
    /// Dropped: the signature does not check.
    InvalidSignature,
    /// A double spend: broadcast this alert.
    Collision(Alert),
}

/// Work for the loop around the node to perform.
pub enum NodeAction {
    PublishTransaction(Transaction),
    PublishAlert(Alert),
    SaveGraph,
}

/// The stake clamped to `[0, 0.5]`.
pub open spec fn clamp_stake(x: u64) -> u64 {
    if x > STAKE_MAX {
        STAKE_MAX
    } else {
        x
    }
}

/// `a + b`, saturating at `u64::MAX`.
pub open spec fn sat_add(a: u64, b: u64) -> u64 {
    if a + b > u64::MAX {
        u64::MAX
    } else {
        (a + b) as u64
    }
}

fn saturating_add(a: u64, b: u64) -> (r: u64)
    ensures
        r == sat_add(a, b),
{
    if a > u64::MAX - b {
        u64::MAX
    } else {
        a + b
    }
}

/// A node: its keys, balance, reputation view, graph, confidence tracker
/// and stake.
pub struct ElenaNode {
    pub keypair: KeyPair,
    pub peer_id: Vec<u8>,
    pub balance: u64,
    pub reputation: ReputationMap,
    pub graph: LocalGraph,
    pub echo: EchoLocator,
    pub config: NodeConfig,
    /// Stake fraction in basis points, within `[0, 0.5]`.
    pub staked_fraction: u64,
}

impl ElenaNode {
    /// Well-formed graph and reputation map, stake within `[0, 0.5]`.
    pub open spec fn wf(&self) -> bool {
        &&& self.graph.wf()
        &&& self.reputation.wf()
        &&& self.staked_fraction <= STAKE_MAX
    }

    /// A node with the given keys (fresh ones if none), the graph and stake
    /// loaded from disk, its own reputation set from the configuration.
    pub fn new(config: NodeConfig, keypair: Option<KeyPair>, graph: LocalGraph, staked_fraction: u64) -> (r: Self)
        requires
            graph.wf(),
        ensures
            r.wf(),
            keypair is Some ==> r.keypair.public_view() == keypair->Some_0.public_view(),
            keypair is Some ==> r.keypair.secret_view() == keypair->Some_0.secret_view(),
            keypair is None ==> r.keypair.public_view().len() == PUBLIC_KEY_SIZE
                && r.keypair.secret_view().len() == crate::crypto::SECRET_KEY_SIZE
                && keys_match(r.keypair.public_view(), r.keypair.secret_view()),
            r.peer_id@ == sha3_512(r.keypair.public_view()),
            r.balance == config.initial_balance,
            r.graph == graph,
            r.staked_fraction == clamp_stake(staked_fraction),
            r.reputation.stored(r.peer_id@) == Some(clamp_reputation(config.initial_reputation as int)),
            forall|q: Seq<u8>| q != r.peer_id@ ==> r.reputation.stored(q) is None,
    {
        let keypair = match keypair {
            Some(k) => k,
            None => KeyPair::generate(),
        };
        let digest = hash_512(keypair.public_key());
        let peer_id = bytes_to_vec(&digest);
        let mut reputation = ReputationMap::new();
        reputation.set(peer_id.as_slice(), config.initial_reputation);
        let stake = if staked_fraction > STAKE_MAX {
            STAKE_MAX
        } else {
            staked_fraction
        };
        ElenaNode {
            keypair,
            peer_id,
            balance: config.initial_balance,
            reputation,
            graph,
            echo: EchoLocator::new(),
            config,
            staked_fraction: stake,
        }
    }

    /// The anchor of the next payment: the digest of the balance's
    /// little-endian bytes.
    pub fn compute_anchor(&self) -> (r: [u8; 64])
        ensures
            r@ == sha3_512(le_bytes(self.balance)),
    {
        let bytes = u64_to_le(self.balance);
        hash_512(&bytes)
    }

    /// Creates and signs a payment of `amount` to `to`, with the fee for the
    /// own reputation, and debits amount plus fee. Fails when the balance
    /// does not cover them (the sum saturating), or when signing fails.
    pub fn create_payment(&mut self, to: Vec<u8>, amount: u64) -> (r: Result<Transaction, NodeError>)
        requires
            old(self).wf(),
        ensures
            final(self).wf(),
            ({
                let fee = fee_spec(amount, TxPriority::Normal, old(self).reputation.reputation_of(old(self).peer_id@));
                let total = sat_add(amount, fee);
                &&& (r is Err && r->Err_0 is InsufficientBalance) <==> old(self).balance < total
                &&& r is Ok ==> {
                    let t = r->Ok_0;
                    &&& final(self).balance == old(self).balance - total
                    &&& t.from@ == old(self).keypair.public_view()
                    &&& t.to@ == to@
                    &&& t.amount == amount
                    &&& t.fee == fee
                    &&& t.anchor@ == sha3_512(le_bytes(old(self).balance))
                    &&& t.parents@.no_duplicates()
                    &&& t.parents@.to_set().subset_of(
                        old(self).graph.ids_from(old(self).keypair.public_view()),
                    )
                    &&& t.parents@.len() == if 5 < old(self).graph.ids_from(
                        old(self).keypair.public_view(),
                    ).len() {
                        5
                    } else {
                        old(self).graph.ids_from(old(self).keypair.public_view()).len()
                    }
                    &&& t.signature@ == dilithium_signed(old(self).keypair.secret_view(), canonical(t@))
                    &&& t.id@ == sha3_512(canonical(t@))
                }
                &&& r is Err ==> final(self).balance == old(self).balance
            }),
            r is Ok <==> (old(self).keypair.secret_view().len() == crate::crypto::SECRET_KEY_SIZE
                && old(self).balance >= sat_add(amount, fee_spec(amount, TxPriority::Normal, old(self).reputation.reputation_of(old(self).peer_id@)))),
            final(self).graph == old(self).graph,
            final(self).peer_id == old(self).peer_id,
            final(self).keypair == old(self).keypair,
            final(self).reputation == old(self).reputation,
    {
        let sender_rep = self.reputation.get(self.peer_id.as_slice());
        let fee = compute_fee_micro(amount, TxPriority::Normal, sender_rep);
        let total = saturating_add(amount, fee);
        if self.balance < total {
            return Err(NodeError::InsufficientBalance);
        }
        let anchor = self.compute_anchor();
        let parents = self.graph.recent_tx_ids_for_sender(self.keypair.public_key(), 5);
        let from = bytes_to_vec(self.keypair.public_key());
        match Transaction::new(from, to, amount, anchor, parents, fee, &self.keypair) {
            Ok(tx) => {
                self.balance = self.balance - total;
                Ok(tx)
            },
            Err(e) => Err(NodeError::Crypto(e)),
        }
    }

    /// Handles an inbound transaction: drops it on a bad signature (checked
    /// with the sender's key), stores it and rewards on success, and on a
    /// double spend punishes the sender and builds the alert.
    pub fn handle_transaction(&mut self, tx: Transaction) -> (r: TxOutcome)
        requires
            old(self).wf(),
        ensures
            final(self).wf(),
            final(self).peer_id == old(self).peer_id,
            final(self).keypair == old(self).keypair,
            ({
                let valid = tx.from@.len() == PUBLIC_KEY_SIZE && signature_valid(
                    tx.from@,
                    canonical(tx@),
                    tx.signature@,
                );
                let conflict = old(self).graph.has_conflict(tx@);
                &&& r is InvalidSignature <==> !valid
                &&& r is Accepted <==> valid && !conflict
                &&& r is Collision <==> valid && conflict
                &&& !valid ==> final(self).graph == old(self).graph && final(self).balance
                    == old(self).balance && final(self).reputation == old(self).reputation
                &&& r is Accepted ==> {
                    &&& final(self).graph.view().transactions == old(self).graph.view().transactions.insert(tx.id, tx@)
                    &&& final(self).graph.view().alerts == old(self).graph.view().alerts
                    &&& final(self).balance == sat_add(old(self).balance, (tx.fee * FEE_SHARE_STORAGE / (BP_ONE as int)) as u64)
                    &&& final(self).reputation.stored(tx.from@) == Some(clamp_reputation(
                        old(self).reputation.reputation_of(tx.from@) + REPUTATION_DELTA_RELAY,
                    ))
                    &&& forall|q: Seq<u8>| q != tx.from@ ==> final(self).reputation.stored(q) == old(self).reputation.stored(q)
                }
                &&& r is Collision ==> {
                    let a = r->Collision_0;
                    &&& final(self).graph.view() == old(self).graph.view()
                    &&& final(self).balance == old(self).balance
                    &&& final(self).reputation.stored(tx.from@) == Some(REPUTATION_PUNISH_MIN)
                    &&& forall|q: Seq<u8>| q != tx.from@ ==> final(self).reputation.stored(q) == old(self).reputation.stored(q)
                    &&& a.id@ == sha3_512(tx.anchor@)
                    &&& a.anchor == tx.anchor
                    &&& a.conflicting_tx2 == tx.id
                    &&& old(self).graph.view().transactions.contains_key(a.conflicting_tx1)
                    &&& conflicts(old(self).graph.view().transactions[a.conflicting_tx1], tx@)
                    &&& a.discovered_by@ == old(self).peer_id@
                    &&& a.timestamp == tx.timestamp
                    &&& a.propagation_count == 0
                }
            }),
    {
        if !tx.verify_signature(tx.from.as_slice()) {
            return TxOutcome::InvalidSignature;
        }
        let t = tx.clone();
        match self.graph.add_transaction(tx) {
            Ok(()) => {
                self.reputation.credit(t.from.as_slice(), REPUTATION_DELTA_RELAY);
                let share = t.fee / 2;
                assert(share == t.fee * FEE_SHARE_STORAGE / (BP_ONE as int));
                self.balance = saturating_add(self.balance, share);
                TxOutcome::Accepted
            },
            Err(GraphError::CollisionDetected) => {
                let other = match self.graph.first_conflict(&t) {
                    Some(o) => o,
                    None => t.id,
                };
                self.reputation.punish(t.from.as_slice());
                let alert = Alert {
                    id: hash_512(&t.anchor),
                    conflicting_tx1: other,
                    conflicting_tx2: t.id,
                    anchor: t.anchor,
                    discovered_by: bytes_to_vec(self.peer_id.as_slice()),
                    timestamp: t.timestamp,
                    propagation_count: 0,
                };
                TxOutcome::Collision(alert)
            },
        }
    }

    /// Whether `tx` carries a valid signature by its sender.
    pub open spec fn signed_by_sender(tx: TxModel) -> bool {
        tx.from.len() == PUBLIC_KEY_SIZE && signature_valid(tx.from, canonical(tx), tx.signature)
    }

    /// Handles one gossip event and returns what to publish or persist: a
    /// stored transaction is saved and rebroadcast, a double spend yields its
    /// alert, an inbound alert is republished unchanged.
    pub fn handle_event(&mut self, event: NetworkEvent) -> (r: Vec<NodeAction>)
        requires
            old(self).wf(),
        ensures
            final(self).wf(),
            match event {
                NetworkEvent::TransactionReceived(tx) => {
                    let valid = Self::signed_by_sender(tx@);
                    let conflict = old(self).graph.has_conflict(tx@);
                    &&& !valid ==> r@.len() == 0
                    &&& valid && !conflict ==> r@.len() == 2 && r@[0] is SaveGraph
                        && r@[1] is PublishTransaction && r@[1]->PublishTransaction_0@ == tx@
                    &&& valid && conflict ==> r@.len() == 1 && r@[0] is PublishAlert
                        && r@[0]->PublishAlert_0.anchor == tx.anchor
                        && r@[0]->PublishAlert_0.conflicting_tx2 == tx.id
                    &&& valid && !conflict ==> final(self).graph.view().transactions
                        == old(self).graph.view().transactions.insert(tx.id, tx@)
                    &&& (!valid || conflict) ==> final(self).graph.view() == old(self).graph.view()
                },
                NetworkEvent::AlertReceived(a) => {
                    &&& r@.len() == 1 && r@[0] is PublishAlert && r@[0]->PublishAlert_0@ == a@
                    &&& final(self).graph == old(self).graph
                    &&& final(self).balance == old(self).balance
                },
                _ => r@.len() == 0 && final(self).graph == old(self).graph && final(self).balance
                    == old(self).balance,
            },
    {
        let mut actions: Vec<NodeAction> = Vec::new();
        match event {
            NetworkEvent::TransactionReceived(tx) => {
                let copy = tx.clone();
                match self.handle_transaction(tx) {
                    TxOutcome::Accepted => {
                        actions.push(NodeAction::SaveGraph);
                        actions.push(NodeAction::PublishTransaction(copy));
                    },
                    TxOutcome::Collision(alert) => {
                        actions.push(NodeAction::PublishAlert(alert));
                    },
                    TxOutcome::InvalidSignature => {},
                }
            },
            NetworkEvent::AlertReceived(alert) => {
                actions.push(NodeAction::PublishAlert(alert));
            },
            NetworkEvent::PeerConnected(_) => {},
            NetworkEvent::PeerDisconnected(_) => {},
        }
        actions
    }

    /// Sets the stake fraction; refuses one above 0.5.
    pub fn apply_stake(&mut self, fraction: u64) -> (r: Result<(), NodeError>)
        requires
            old(self).wf(),
        ensures
            final(self).wf(),
            r is Ok <==> fraction <= STAKE_MAX,
            r is Ok ==> final(self).staked_fraction == fraction,
            r is Err ==> r->Err_0 is InvalidArgument && final(self).staked_fraction == old(self).staked_fraction,
            final(self).balance == old(self).balance,
            final(self).graph == old(self).graph,
            final(self).reputation == old(self).reputation,
    {
        if fraction > STAKE_MAX {
            return Err(NodeError::InvalidArgument("stake fraction must be in [0.0, 0.5]".to_owned()));
        }
        self.staked_fraction = fraction;
        Ok(())
    }

    /// Credits an emission reward, saturating.
    pub fn credit_emission(&mut self, amount: u64)
        requires
            old(self).wf(),
        ensures
            final(self).wf(),
            final(self).balance == sat_add(old(self).balance, amount),
            final(self).graph == old(self).graph,
            final(self).reputation == old(self).reputation,
            final(self).staked_fraction == old(self).staked_fraction,
    {
        self.balance = saturating_add(self.balance, amount);
    }

    /// The reward of one emission tick of `interval_secs` seconds, from the
    /// stored transactions and alerts, the own reputation and the stake.
    pub fn emission_tick(&self, interval_secs: u64) -> (r: u64)
        ensures
            r == emission_reward_spec(
                self.graph.txs().len(),
                self.graph.alert_seq().len(),
                self.reputation.reputation_of(self.peer_id@),
                self.staked_fraction,
                interval_secs,
            ),
    {
        let rep = self.reputation.get(self.peer_id.as_slice());
        emission_reward(self.graph.transactions.len(), self.graph.alerts.len(), rep, self.staked_fraction, interval_secs)
    }
}

/// A payment made by a node whose keys belong together passes the signature
/// check of any node that receives it.
pub proof fn lemma_payment_passes_signature_check(tx: TxModel, public_key: Seq<u8>, secret_key: Seq<u8>)
    requires
        keys_match(public_key, secret_key),
        public_key.len() == PUBLIC_KEY_SIZE,
        tx.from == public_key,
        tx.signature == dilithium_signed(secret_key, canonical(tx)),
    ensures
        ElenaNode::signed_by_sender(tx),
{
    crate::graph::lemma_signed_transaction_verifies(tx, public_key, secret_key);
}

/// Every reputation the node holds stays within `[0.01, 0.99]`: each
/// mutation of the map keeps it well formed, and a well-formed map gives
/// every peer a value in range.
pub proof fn lemma_reputation_in_range(m: ReputationMap, peer: Seq<u8>)
    requires
        m.wf(),
    ensures
        REPUTATION_PUNISH_MIN <= m.reputation_of(peer) <= REPUTATION_MAX,
{
    m.lemma_stored_in_range(peer);
}

} // verus!
