//! The replicated key-value store: entries with a time to live, keyed by
//! category prefix, and the registry of known peers.
//!
//! Times are whole seconds. An entry written at `t` with a time to live of
//! `ttl` seconds is visible to reads at `now` while `now - t < ttl`; after
//! that reads treat it as absent and a sweep removes it.

use vstd::prelude::*;
use vstd::string::StrSliceExecFns;
use vstd::utf8::encode_utf8;
use crate::outside::{json_number, json_string, json_string_text};
use crate::seqs::{first_index, lemma_filter_empty, lemma_filter_step, lemma_first_index, lemma_first_index_is, lemma_first_index_none};
use crate::text::{joined, decimal, decimal_string, is_lex_less, lex_less, owned, push_text, same_text, skip_chars, starts_with};
use crate::types::{opt_bytes, texts, Currency, NodeId};

verus! {

/// How long a heartbeat keeps an identity active: 24 hours.
pub const ACTIVITY_WINDOW_SECONDS: u64 = 86400;

/// How long a record of a distribution transaction is kept: 24 hours.
pub const TRANSACTION_TTL_SECONDS: u64 = 86400;

/// How long registered key data is kept: 24 hours.
pub const AOI_KEY_TTL_SECONDS: u64 = 86400;

/// How many peers the registry holds unless told otherwise.
pub const DEFAULT_PEER_CAPACITY: usize = 256;

/// One stored value.
#[derive(Debug, PartialEq, Eq)]
pub struct DhtEntry {
    pub key: String,
    pub value: Vec<u8>,
    /// When this node stored the value; the time to live counts from here.
    pub stored_at: u64,
    pub ttl_seconds: u64,
    /// The writer's own timestamp of the value.
    pub last_updated: u64,
    /// The identity that wrote the value.
    pub origin: String,
}

/// What a [`DhtEntry`] stands for.
pub struct DhtEntryView {
    pub key: Seq<char>,
    pub value: Seq<u8>,
    pub stored_at: u64,
    pub ttl_seconds: u64,
    pub last_updated: u64,
    pub origin: Seq<char>,
}

impl DhtEntryView {
    /// Whether the entry is visible to a read at `now`.
    pub open spec fn live_at(self, now: u64) -> bool {
        seconds_between(self.stored_at, now) < self.ttl_seconds
    }

    /// Whether a copy written at `last_updated` by `origin` replaces this
    /// entry: the later writer wins, and of two writers at the same time the
    /// one whose identity is lexicographically greater.
    pub open spec fn superseded_by(self, last_updated: u64, origin: Seq<char>) -> bool {
        self.last_updated < last_updated || (self.last_updated == last_updated && lex_less(self.origin, origin))
    }
}

impl View for DhtEntry {
    type V = DhtEntryView;

    open spec fn view(&self) -> DhtEntryView {
        DhtEntryView {
            key: self.key@,
            value: self.value@,
            stored_at: self.stored_at,
            ttl_seconds: self.ttl_seconds,
            last_updated: self.last_updated,
            origin: self.origin@,
        }
    }
}

impl DeepView for DhtEntry {
    type V = DhtEntryView;

    open spec fn deep_view(&self) -> DhtEntryView {
        self@
    }
}

/// A known peer.
#[derive(Debug, PartialEq, Eq)]
pub struct PeerInfo {
    pub did: String,
    pub endpoint: String,
    pub last_seen: u64,
}

/// What a [`PeerInfo`] stands for.
pub struct PeerInfoView {
    pub did: Seq<char>,
    pub endpoint: Seq<char>,
    pub last_seen: u64,
}

impl View for PeerInfo {
    type V = PeerInfoView;

    open spec fn view(&self) -> PeerInfoView {
        PeerInfoView { did: self.did@, endpoint: self.endpoint@, last_seen: self.last_seen }
    }
}

impl DeepView for PeerInfo {
    type V = PeerInfoView;

    open spec fn deep_view(&self) -> PeerInfoView {
        self@
    }
}

impl Clone for PeerInfo {
    fn clone(&self) -> (r: Self)
        ensures
            r@ == self@,
    {
        PeerInfo { did: self.did.clone(), endpoint: self.endpoint.clone(), last_seen: self.last_seen }
    }
}

/// Counts that the store reports about itself.
#[derive(Debug, Clone, Copy, PartialEq, Eq, Structural)]
pub struct DhtStats {
    pub total_entries: usize,
    pub total_peers: usize,
    pub service_entries: usize,
    pub reputation_entries: usize,
    pub escrow_entries: usize,
}

/// The seconds from `earlier` to `later`; zero where `later` is not later.
pub open spec fn seconds_between(earlier: u64, later: u64) -> u64 {
    if later >= earlier {
        (later - earlier) as u64
    } else {
        0
    }
}

/// The bytes that carry a text in a stored value.
pub open spec fn text_bytes(s: Seq<char>) -> Seq<u8> {
    encode_utf8(s)
}

/// The condition "is stored under `key`".
pub open spec fn under_key(key: Seq<char>) -> spec_fn(DhtEntryView) -> bool {
    |e: DhtEntryView| e.key == key
}

/// The condition "is visible at `now` and its key begins with `prefix`".
pub open spec fn visible_with_prefix(prefix: Seq<char>, now: u64) -> spec_fn(DhtEntryView) -> bool {
    |e: DhtEntryView| e.live_at(now) && prefix.is_prefix_of(e.key)
}

/// The condition "is visible at `now`".
pub open spec fn visible(now: u64) -> spec_fn(DhtEntryView) -> bool {
    |e: DhtEntryView| e.live_at(now)
}

/// The condition "its key begins with `prefix`".
pub open spec fn with_prefix(prefix: Seq<char>) -> spec_fn(DhtEntryView) -> bool {
    |e: DhtEntryView| prefix.is_prefix_of(e.key)
}

/// The condition "is the peer `did`".
pub open spec fn is_peer(did: Seq<char>) -> spec_fn(PeerInfoView) -> bool {
    |p: PeerInfoView| p.did == did
}

/// The position of the peer seen longest ago, the first of them where
/// several share that time. Zero for an empty registry.
pub open spec fn stalest(peers: Seq<PeerInfoView>) -> int
    decreases peers.len(),
{
    if peers.len() <= 1 {
        0
    } else {
        let before = stalest(peers.drop_last());
        if peers.last().last_seen < peers[before].last_seen {
            peers.len() - 1
        } else {
            before
        }
    }
}

/// The key under which the heartbeat of `did` is stored.
pub open spec fn heartbeat_key(did: Seq<char>) -> Seq<char> {
    "did_heartbeat:"@ + did
}

/// The key under which the key data of the service `service_id` is stored.
pub open spec fn aoi_key(service_id: Seq<char>) -> Seq<char> {
    "aoi:"@ + service_id
}

/// The key under which the distribution transaction `tx_id` is logged.
pub open spec fn transaction_key(tx_id: Seq<char>) -> Seq<char> {
    "community_fund_tx_"@ + tx_id
}

/// The text logged for a distribution transaction: a JSON object with the
/// currency's symbol, the recipient and the amount.
pub open spec fn transaction_record(currency: Currency, recipient_did: Seq<char>, amount: u64) -> Seq<char> {
    "{\"currency\":\""@ + currency.spec_symbol() + "\",\"recipient_did\":"@ + json_string_text(recipient_did)
        + ",\"amount\":"@ + decimal(amount as nat) + "}"@
}

/// What a [`Dht`] stands for: its entries in the order in which their keys
/// were first stored, and its peers in the order in which they joined.
pub struct DhtView {
    pub node_id: Seq<char>,
    pub entries: Seq<DhtEntryView>,
    pub peers: Seq<PeerInfoView>,
    pub peer_capacity: usize,
}

impl DhtView {
    /// No key is stored twice, no peer is listed twice, and the registry
    /// keeps within its capacity.
    pub open spec fn wf(self) -> bool {
        &&& forall|i: int, j: int| 0 <= i < j < self.entries.len() ==> self.entries[i].key != self.entries[j].key
        &&& forall|i: int, j: int| 0 <= i < j < self.peers.len() ==> self.peers[i].did != self.peers[j].did
        &&& self.peers.len() <= self.peer_capacity
    }

    /// Where `key` is stored, if it is.
    pub open spec fn key_index(self, key: Seq<char>) -> Option<int> {
        first_index(self.entries, under_key(key))
    }

    /// The entry under `key` that a read at `now` sees, if any.
    pub open spec fn visible_entry(self, key: Seq<char>, now: u64) -> Option<DhtEntryView> {
        match self.key_index(key) {
            Some(i) => if self.entries[i].live_at(now) {
                Some(self.entries[i])
            } else {
                None
            },
            None => None,
        }
    }

    /// What a read of `key` at `now` returns.
    pub open spec fn get(self, key: Seq<char>, now: u64) -> Option<Seq<u8>> {
        match self.visible_entry(key, now) {
            Some(e) => Some(e.value),
            None => None,
        }
    }

    /// The store after `entry` is written: it takes the place of the entry
    /// with the same key, or is added at the end.
    pub open spec fn put(self, entry: DhtEntryView) -> DhtView {
        match self.key_index(entry.key) {
            Some(i) => DhtView { entries: self.entries.update(i, entry), ..self },
            None => DhtView { entries: self.entries.push(entry), ..self },
        }
    }

    /// The store after this node writes `value` under `key` at `now`.
    pub open spec fn store(self, key: Seq<char>, value: Seq<u8>, ttl_seconds: u64, now: u64) -> DhtView {
        self.put(
            DhtEntryView { key, value, stored_at: now, ttl_seconds, last_updated: now, origin: self.node_id },
        )
    }

    /// The store after a read of `key` at `now`: an entry under `key` that
    /// has expired is evicted, and nothing else changes.
    pub open spec fn evict_expired(self, key: Seq<char>, now: u64) -> DhtView {
        match self.key_index(key) {
            Some(i) => if self.entries[i].live_at(now) {
                self
            } else {
                self.delete(key)
            },
            None => self,
        }
    }

    /// The store after `key` is deleted.
    pub open spec fn delete(self, key: Seq<char>) -> DhtView {
        match self.key_index(key) {
            Some(i) => DhtView { entries: self.entries.remove(i), ..self },
            None => self,
        }
    }

    /// The keys and values, in store order, of the visible entries whose key
    /// begins with `prefix`.
    pub open spec fn list_by_prefix(self, prefix: Seq<char>, now: u64) -> Seq<(Seq<char>, Seq<u8>)> {
        self.entries.filter(visible_with_prefix(prefix, now)).map_values(|e: DhtEntryView| (e.key, e.value))
    }

    /// The store after the entries that have expired at `now` are removed.
    pub open spec fn sweep(self, now: u64) -> DhtView {
        DhtView { entries: self.entries.filter(visible(now)), ..self }
    }

    /// The identities with a visible heartbeat at `now`, in store order.
    pub open spec fn active_dids(self, now: u64) -> Seq<Seq<char>> {
        self.entries.filter(visible_with_prefix("did_heartbeat:"@, now)).map_values(
            |e: DhtEntryView| e.key.skip(14),
        )
    }

    /// The store after `did` reports that it is alive at `now`.
    pub open spec fn heartbeat(self, did: Seq<char>, now: u64) -> DhtView {
        self.store(heartbeat_key(did), text_bytes(decimal(now as nat)), ACTIVITY_WINDOW_SECONDS, now)
    }

    /// The store after key data is registered for a service at `now`.
    pub open spec fn register_aoi_key(self, service_id: Seq<char>, key_data: Seq<char>, now: u64) -> DhtView {
        self.store(aoi_key(service_id), text_bytes(key_data), AOI_KEY_TTL_SECONDS, now)
    }

    /// Whether the log can take the given record for `tx_id` at `now`: the
    /// key is free, or holds this very record.
    pub open spec fn can_log_transaction(self, tx_id: Seq<char>, record: Seq<u8>, now: u64) -> bool {
        match self.get(transaction_key(tx_id), now) {
            Some(v) => v == record,
            None => true,
        }
    }

    /// The store after a distribution transaction is logged at `now`: the
    /// record is written where the key is free, and nothing changes where
    /// the key is taken.
    pub open spec fn log_transaction(
        self,
        tx_id: Seq<char>,
        currency: Currency,
        recipient_did: Seq<char>,
        amount: u64,
        now: u64,
    ) -> DhtView {
        let key = transaction_key(tx_id);
        if self.get(key, now).is_some() {
            self
        } else {
            self.store(key, text_bytes(transaction_record(currency, recipient_did, amount)), TRANSACTION_TTL_SECONDS, now)
        }
    }

    /// Whether a copy of `key` that a peer wrote at `last_updated` is taken
    /// over at `now`: always where no entry under `key` is visible, else
    /// only where the copy supersedes the local one.
    pub open spec fn accepts_remote(self, key: Seq<char>, last_updated: u64, origin: Seq<char>, now: u64) -> bool {
        match self.visible_entry(key, now) {
            Some(e) => e.superseded_by(last_updated, origin),
            None => true,
        }
    }

    /// The store after a peer's copy arrives at `now`.
    pub open spec fn merge_remote(
        self,
        key: Seq<char>,
        value: Seq<u8>,
        ttl_seconds: u64,
        last_updated: u64,
        origin: Seq<char>,
        now: u64,
    ) -> DhtView {
        if self.accepts_remote(key, last_updated, origin, now) {
            self.put(DhtEntryView { key, value, stored_at: now, ttl_seconds, last_updated, origin })
        } else {
            self
        }
    }

    /// Where the peer `did` is listed, if it is.
    pub open spec fn peer_index(self, did: Seq<char>) -> Option<int> {
        first_index(self.peers, is_peer(did))
    }

    /// The registry after `peer` is registered: its record is refreshed where
    /// it is listed; else it is added, in place of the peer seen longest ago
    /// where the registry is full. A registry of capacity zero stays empty.
    pub open spec fn register_peer(self, peer: PeerInfoView) -> DhtView {
        match self.peer_index(peer.did) {
            Some(i) => DhtView { peers: self.peers.update(i, peer), ..self },
            None => if self.peers.len() < self.peer_capacity {
                DhtView { peers: self.peers.push(peer), ..self }
            } else if self.peers.len() > 0 {
                DhtView { peers: self.peers.remove(stalest(self.peers)).push(peer), ..self }
            } else {
                self
            },
        }
    }

    /// The counts that the store reports.
    pub open spec fn stats(self) -> DhtStats {
        DhtStats {
            total_entries: self.entries.len() as usize,
            total_peers: self.peers.len() as usize,
            service_entries: self.entries.filter(with_prefix("service:"@)).len() as usize,
            reputation_entries: self.entries.filter(with_prefix("reputation:"@)).len() as usize,
            escrow_entries: self.entries.filter(with_prefix("escrow:"@)).len() as usize,
        }
    }
}

/// What a list of keys and values stands for.
pub open spec fn pairs(v: Seq<(String, Vec<u8>)>) -> Seq<(Seq<char>, Seq<u8>)> {
    v.map_values(|p: (String, Vec<u8>)| (p.0@, p.1@))
}

/// The bytes that carry `s` in a stored value.
pub fn bytes_of(s: &str) -> (r: Vec<u8>)
    ensures
        r@ == text_bytes(s@),
{
    s.as_bytes_vec()
}

/// The seconds from `earlier` to `later`; zero where `later` is not later.
pub fn elapsed_seconds(earlier: u64, later: u64) -> (r: u64)
    ensures
        r == seconds_between(earlier, later),
{
    later.saturating_sub(earlier)
}

/// The replicated key-value store of one node.
pub struct Dht {
    node_id: NodeId,
    entries: Vec<DhtEntry>,
    peers: Vec<PeerInfo>,
    peer_capacity: usize,
}

impl View for Dht {
    type V = DhtView;

    closed spec fn view(&self) -> DhtView {
        DhtView {
            node_id: self.node_id.0@,
            entries: self.entries.deep_view(),
            peers: self.peers.deep_view(),
            peer_capacity: self.peer_capacity,
        }
    }
}

impl Dht {
    /// Whether the store keeps its invariant.
    pub open spec fn wf(&self) -> bool {
        self@.wf()
    }

    /// An empty store for the node `node_id`, with the default peer capacity.
    pub fn new(node_id: NodeId) -> (dht: Dht)
        ensures
            dht.wf(),
            dht@ == (DhtView {
                node_id: node_id.0@,
                entries: Seq::empty(),
                peers: Seq::empty(),
                peer_capacity: DEFAULT_PEER_CAPACITY,
            }),
    {
        Dht::with_peer_capacity(node_id, DEFAULT_PEER_CAPACITY)
    }

    /// An empty store for the node `node_id` whose registry holds at most
    /// `peer_capacity` peers.
    pub fn with_peer_capacity(node_id: NodeId, peer_capacity: usize) -> (dht: Dht)
        ensures
            dht.wf(),
            dht@ == (DhtView { node_id: node_id.0@, entries: Seq::empty(), peers: Seq::empty(), peer_capacity }),
    {
        let dht = Dht { node_id, entries: Vec::new(), peers: Vec::new(), peer_capacity };
        assert(dht.entries.deep_view() =~= Seq::empty());
        assert(dht.peers.deep_view() =~= Seq::empty());
        dht
    }

    fn find(&self, key: &str) -> (r: Option<usize>)
        ensures
            match r {
                Some(i) => self@.key_index(key@) == Some(i as int) && i < self.entries.len(),
                None => self@.key_index(key@).is_none(),
            },
    {
        let mut i: usize = 0;
        while i < self.entries.len()
            invariant
                i <= self.entries.len(),
                forall|j: int| 0 <= j < i ==> !under_key(key@)(#[trigger] self@.entries[j]),
            decreases self.entries.len() - i,
        {
            if same_text(self.entries[i].key.as_str(), key) {
                proof {
                    lemma_first_index_is(self@.entries, under_key(key@), i as int);
                }
                return Some(i);
            }
            i = i + 1;
        }
        proof {
            lemma_first_index_none(self@.entries, under_key(key@));
        }
        None
    }

    fn put(&mut self, entry: DhtEntry)
        requires
            old(self).wf(),
        ensures
            final(self).wf(),
            final(self)@ == old(self)@.put(entry@),
    {
        proof {
            lemma_first_index(self@.entries, under_key(entry@.key));
        }
        match self.find(entry.key.as_str()) {
            Some(i) => {
                self.entries[i] = entry;
                assert(self.entries.deep_view() =~= old(self).entries.deep_view().update(i as int, entry@));
            },
            None => {
                self.entries.push(entry);
                assert(self.entries.deep_view() =~= old(self).entries.deep_view().push(entry@));
            },
        }
    }

    /// Writes `value` under `key` with a time to live of `ttl_seconds`,
    /// counted from `now`. An entry already under `key` is overwritten.
    pub fn store(&mut self, key: String, value: Vec<u8>, ttl_seconds: u64, now: u64)
        requires
            old(self).wf(),
        ensures
            final(self).wf(),
            final(self)@ == old(self)@.store(key@, value@, ttl_seconds, now),
    {
        let origin = self.node_id.0.clone();
        self.put(DhtEntry { key, value, stored_at: now, ttl_seconds, last_updated: now, origin });
    }

    /// The value under `key`, if there is one that has not expired at `now`.
    pub fn get(&self, key: &str, now: u64) -> (r: Option<Vec<u8>>)
        ensures
            opt_bytes(r) == self@.get(key@, now),
    {
        match self.find(key) {
            Some(i) => {
                let e = &self.entries[i];
                if elapsed_seconds(e.stored_at, now) < e.ttl_seconds {
                    Some(e.value.clone())
                } else {
                    None
                }
            },
            None => None,
        }
    }

    /// The value under `key`, if there is one that has not expired at `now`.
    /// An entry under `key` that has expired is evicted on the way.
    pub fn get_or_evict(&mut self, key: &str, now: u64) -> (r: Option<Vec<u8>>)
        requires
            old(self).wf(),
        ensures
            final(self).wf(),
            opt_bytes(r) == old(self)@.get(key@, now),
            final(self)@ == old(self)@.evict_expired(key@, now),
    {
        let r = self.get(key, now);
        if r.is_none() {
            self.delete(key);
        }
        r
    }

    /// Removes the entry under `key`, if there is one. Returns whether
    /// there was.
    pub fn delete(&mut self, key: &str) -> (found: bool)
        requires
            old(self).wf(),
        ensures
            final(self).wf(),
            final(self)@ == old(self)@.delete(key@),
            found == old(self)@.key_index(key@).is_some(),
    {
        match self.find(key) {
            Some(i) => {
                self.entries.remove(i);
                assert(self.entries.deep_view() =~= old(self).entries.deep_view().remove(i as int));
                true
            },
            None => false,
        }
    }

    /// The keys and values of the entries that have not expired at `now` and
    /// whose key begins with `prefix`, in store order.
    pub fn list_by_prefix(&self, prefix: &str, now: u64) -> (r: Vec<(String, Vec<u8>)>)
        ensures
            pairs(r@) == self@.list_by_prefix(prefix@, now),
    {
        let mut r: Vec<(String, Vec<u8>)> = Vec::new();
        let mut i: usize = 0;
        proof {
            lemma_filter_empty(self@.entries.take(0), visible_with_prefix(prefix@, now));
            assert(pairs(r@) =~= Seq::empty());
        }
        while i < self.entries.len()
            invariant
                i <= self.entries.len(),
                pairs(r@) == self@.entries.take(i as int).filter(visible_with_prefix(prefix@, now)).map_values(
                    |e: DhtEntryView| (e.key, e.value),
                ),
            decreases self.entries.len() - i,
        {
            let e = &self.entries[i];
            proof {
                lemma_filter_step(self@.entries, visible_with_prefix(prefix@, now), i as int);
            }
            if elapsed_seconds(e.stored_at, now) < e.ttl_seconds && starts_with(e.key.as_str(), prefix) {
                let ghost before = r@;
                r.push((e.key.clone(), e.value.clone()));
                assert(pairs(r@) =~= pairs(before).push((e@.key, e@.value)));
                assert(self@.entries.take(i + 1).filter(visible_with_prefix(prefix@, now)).map_values(
                    |e: DhtEntryView| (e.key, e.value),
                ) =~= self@.entries.take(i as int).filter(visible_with_prefix(prefix@, now)).map_values(
                    |e: DhtEntryView| (e.key, e.value),
                ).push((e@.key, e@.value)));
            }
            i = i + 1;
        }
        assert(self@.entries.take(self.entries.len() as int) =~= self@.entries);
        r
    }

    /// Removes every entry that has expired at `now`. Returns how many went.
    pub fn sweep(&mut self, now: u64) -> (removed: usize)
        requires
            old(self).wf(),
        ensures
            final(self).wf(),
            final(self)@ == old(self)@.sweep(now),
            removed == old(self)@.entries.len() - final(self)@.entries.len(),
    {
        let mut kept: Vec<DhtEntry> = Vec::new();
        let mut removed: usize = 0;
        let ghost all = self@.entries;
        proof {
            lemma_filter_empty(all.take(0), visible(now));
            assert(kept.deep_view() =~= Seq::empty());
            assert(all.skip(0) =~= all);
        }
        while self.entries.len() > 0
            invariant
                self.entries.deep_view().len() <= all.len(),
                self.entries.deep_view() == all.skip(all.len() - self.entries.len()),
                kept.deep_view() == all.take(all.len() - self.entries.len()).filter(visible(now)),
                removed + kept.len() + self.entries.len() == all.len(),
                all.len() == old(self).entries.len(),
                self.node_id == old(self).node_id,
                self.peers == old(self).peers,
                self.peer_capacity == old(self).peer_capacity,
            decreases self.entries.len(),
        {
            let ghost i = all.len() - self.entries.len();
            let ghost kept_before = kept.deep_view();
            let ghost rest_before = self.entries.deep_view();
            let e = self.entries.remove(0);
            proof {
                assert(self.entries.deep_view() =~= rest_before.remove(0));
                assert(rest_before.remove(0) =~= all.skip(i + 1));
                assert(e@ == rest_before[0]);
                assert(rest_before[0] == all[i]);
                lemma_filter_step(all, visible(now), i);
            }
            if elapsed_seconds(e.stored_at, now) < e.ttl_seconds {
                kept.push(e);
                assert(kept.deep_view() =~= kept_before.push(all[i]));
            } else {
                removed = removed + 1;
            }
        }
        proof {
            assert(all.take(all.len() as int) =~= all);
            all.lemma_filter_len(visible(now));
            lemma_filter_keeps_keys_apart(all, visible(now));
        }
        self.entries = kept;
        removed
    }

    /// Records that `did` is alive at `now`: its heartbeat is stored for the
    /// length of the activity window.
    pub fn heartbeat(&mut self, did: &str, now: u64)
        requires
            old(self).wf(),
        ensures
            final(self).wf(),
            final(self)@ == old(self)@.heartbeat(did@, now),
    {
        let key = joined("did_heartbeat:", did);
        let stamp = decimal_string(now);
        let value = bytes_of(stamp.as_str());
        self.store(key, value, ACTIVITY_WINDOW_SECONDS, now);
    }

    /// The identities whose heartbeat has not expired at `now`, in store
    /// order.
    pub fn get_active_dids(&self, now: u64) -> (r: Vec<String>)
        ensures
            texts(r@) == self@.active_dids(now),
    {
        let mut r: Vec<String> = Vec::new();
        let mut i: usize = 0;
        let ghost cond = visible_with_prefix("did_heartbeat:"@, now);
        proof {
            reveal_strlit("did_heartbeat:");
            lemma_filter_empty(self@.entries.take(0), cond);
            assert(texts(r@) =~= Seq::empty());
        }
        while i < self.entries.len()
            invariant
                i <= self.entries.len(),
                cond == visible_with_prefix("did_heartbeat:"@, now),
                "did_heartbeat:"@.len() == 14,
                texts(r@) == self@.entries.take(i as int).filter(cond).map_values(
                    |e: DhtEntryView| e.key.skip(14),
                ),
            decreases self.entries.len() - i,
        {
            let e = &self.entries[i];
            proof {
                lemma_filter_step(self@.entries, cond, i as int);
            }
            if elapsed_seconds(e.stored_at, now) < e.ttl_seconds && starts_with(e.key.as_str(), "did_heartbeat:") {
                let ghost before = r@;
                let did = skip_chars(e.key.as_str(), 14);
                r.push(did);
                assert(texts(r@) =~= texts(before).push(e@.key.skip(14)));
                assert(self@.entries.take(i + 1).filter(cond).map_values(|e: DhtEntryView| e.key.skip(14))
                    =~= self@.entries.take(i as int).filter(cond).map_values(|e: DhtEntryView| e.key.skip(14)).push(
                    e@.key.skip(14),
                ));
            }
            i = i + 1;
        }
        assert(self@.entries.take(self.entries.len() as int) =~= self@.entries);
        r
    }

    /// Registers key data for the service `service_id` at `now`, in place
    /// of what was registered for it before.
    pub fn register_aoi_key(&mut self, service_id: &str, key_data: &str, now: u64)
        requires
            old(self).wf(),
        ensures
            final(self).wf(),
            final(self)@ == old(self)@.register_aoi_key(service_id@, key_data@, now),
    {
        let key = joined("aoi:", service_id);
        self.store(key, bytes_of(key_data), AOI_KEY_TTL_SECONDS, now);
    }

    /// The key data registered for the service `service_id`, as bytes, if
    /// there is any that has not expired at `now`.
    pub fn get_aoi_key(&self, service_id: &str, now: u64) -> (r: Option<Vec<u8>>)
        ensures
            opt_bytes(r) == self@.get(aoi_key(service_id@), now),
    {
        let key = joined("aoi:", service_id);
        self.get(key.as_str(), now)
    }

    /// Logs a distribution transaction under its identifier. Logging the
    /// same record again changes nothing. Returns whether the log now holds
    /// this record; it does not where the identifier is taken by another.
    pub fn store_community_fund_transaction(
        &mut self,
        tx_id: &str,
        currency: Currency,
        recipient_did: &str,
        amount: u64,
        now: u64,
    ) -> (recorded: bool)
        requires
            old(self).wf(),
        ensures
            final(self).wf(),
            final(self)@ == old(self)@.log_transaction(tx_id@, currency, recipient_did@, amount, now),
            recorded == old(self)@.can_log_transaction(
                tx_id@,
                text_bytes(transaction_record(currency, recipient_did@, amount)),
                now,
            ),
    {
        let key = joined("community_fund_tx_", tx_id);
        let mut text = owned("{\"currency\":\"");
        push_text(&mut text, currency.symbol());
        push_text(&mut text, "\",\"recipient_did\":");
        push_text(&mut text, json_string(recipient_did).unwrap().as_str());
        push_text(&mut text, ",\"amount\":");
        push_text(&mut text, json_number(amount).unwrap().as_str());
        push_text(&mut text, "}");
        let record = bytes_of(text.as_str());
        match self.get(key.as_str(), now) {
            Some(existing) => same_bytes(&existing, &record),
            None => {
                self.store(key, record, TRANSACTION_TTL_SECONDS, now);
                true
            },
        }
    }

    /// Takes over a copy of `key` that the peer `origin` wrote at
    /// `last_updated`, unless a visible local entry is at least as recent.
    /// Returns whether the copy was taken over.
    pub fn merge_remote(
        &mut self,
        key: String,
        value: Vec<u8>,
        ttl_seconds: u64,
        last_updated: u64,
        origin: String,
        now: u64,
    ) -> (accepted: bool)
        requires
            old(self).wf(),
        ensures
            final(self).wf(),
            final(self)@ == old(self)@.merge_remote(key@, value@, ttl_seconds, last_updated, origin@, now),
            accepted == old(self)@.accepts_remote(key@, last_updated, origin@, now),
    {
        let accepted = match self.find(key.as_str()) {
            Some(i) => {
                let e = &self.entries[i];
                if elapsed_seconds(e.stored_at, now) < e.ttl_seconds {
                    e.last_updated < last_updated || (e.last_updated == last_updated && is_lex_less(
                        e.origin.as_str(),
                        origin.as_str(),
                    ))
                } else {
                    true
                }
            },
            None => true,
        };
        if accepted {
            self.put(DhtEntry { key, value, stored_at: now, ttl_seconds, last_updated, origin });
        }
        accepted
    }

    fn find_peer(&self, did: &str) -> (r: Option<usize>)
        ensures
            match r {
                Some(i) => self@.peer_index(did@) == Some(i as int) && i < self.peers.len(),
                None => self@.peer_index(did@).is_none(),
            },
    {
        let mut i: usize = 0;
        while i < self.peers.len()
            invariant
                i <= self.peers.len(),
                forall|j: int| 0 <= j < i ==> !is_peer(did@)(#[trigger] self@.peers[j]),
            decreases self.peers.len() - i,
        {
            if same_text(self.peers[i].did.as_str(), did) {
                proof {
                    lemma_first_index_is(self@.peers, is_peer(did@), i as int);
                }
                return Some(i);
            }
            i = i + 1;
        }
        proof {
            lemma_first_index_none(self@.peers, is_peer(did@));
        }
        None
    }

    fn stalest_peer(&self) -> (r: usize)
        requires
            self.peers.len() > 0,
        ensures
            r == stalest(self@.peers),
            r < self.peers.len(),
    {
        let mut best: usize = 0;
        let mut i: usize = 1;
        assert(self@.peers.take(1).len() == 1);
        while i < self.peers.len()
            invariant
                1 <= i <= self.peers.len(),
                best < i,
                best == stalest(self@.peers.take(i as int)),
            decreases self.peers.len() - i,
        {
            proof {
                assert(self@.peers.take(i + 1).drop_last() =~= self@.peers.take(i as int));
                assert(self@.peers.take(i + 1).last() == self@.peers[i as int]);
                assert(self@.peers.take(i + 1)[best as int] == self@.peers[best as int]);
            }
            if self.peers[i].last_seen < self.peers[best].last_seen {
                best = i;
            }
            i = i + 1;
        }
        assert(self@.peers.take(self.peers.len() as int) =~= self@.peers);
        best
    }

    /// Registers the peer `did`, or refreshes its record. Where the registry
    /// is full, the peer seen longest ago makes room.
    pub fn register_peer(&mut self, did: String, endpoint: String, last_seen: u64)
        requires
            old(self).wf(),
        ensures
            final(self).wf(),
            final(self)@ == old(self)@.register_peer(PeerInfoView { did: did@, endpoint: endpoint@, last_seen }),
    {
        proof {
            lemma_first_index(self@.peers, is_peer(did@));
        }
        let ghost before = self.peers.deep_view();
        let peer = PeerInfo { did, endpoint, last_seen };
        let ghost added = peer@;
        match self.find_peer(peer.did.as_str()) {
            Some(i) => {
                self.peers[i] = peer;
                assert(self.peers.deep_view() =~= before.update(i as int, added));
                assert(is_peer(added.did)(before[i as int]));
                assert(self@.entries == old(self)@.entries);
                assert(self@.peers == before.update(i as int, added));
                assert(forall|a: int, b: int| 0 <= a < b < self@.peers.len() ==> self@.peers[a].did != self@.peers[b].did);
            },
            None => {
                assert(forall|j: int| 0 <= j < before.len() ==> !is_peer(added.did)(#[trigger] before[j]));
                if self.peers.len() < self.peer_capacity {
                    self.peers.push(peer);
                    assert(self.peers.deep_view() =~= before.push(added));
                    assert(self@.entries == old(self)@.entries);
                    assert(self@.peers == before.push(added));
                    assert(forall|a: int, b: int| 0 <= a < b < self@.peers.len() ==> self@.peers[a].did != self@.peers[b].did);
                } else if self.peers.len() > 0 {
                    let k = self.stalest_peer();
                    self.peers.remove(k);
                    assert(self.peers.deep_view() =~= before.remove(k as int));
                    self.peers.push(peer);
                    let ghost after = before.remove(k as int).push(added);
                    assert(self.peers.deep_view() =~= after);
                    assert forall|i: int, j: int| 0 <= i < j < after.len() implies after[i].did != after[j].did by {
                        let a = if i < k { i } else { i + 1 };
                        assert(after[i] == before[a]);
                        if j < after.len() - 1 {
                            let b = if j < k { j } else { j + 1 };
                            assert(after[j] == before[b]);
                        } else {
                            assert(!is_peer(added.did)(before[a]));
                        }
                    }
                    assert(self@.entries == old(self)@.entries);
                    assert(self@.peers == after);
                }
            },
        }
    }

    /// The known peers, in the order in which they joined.
    pub fn peers(&self) -> (r: Vec<PeerInfo>)
        ensures
            r.deep_view() == self@.peers,
    {
        let mut r: Vec<PeerInfo> = Vec::new();
        let mut i: usize = 0;
        while i < self.peers.len()
            invariant
                i <= self.peers.len(),
                r.len() == i,
                forall|j: int| 0 <= j < i ==> r@[j]@ == self.peers@[j]@,
            decreases self.peers.len() - i,
        {
            r.push(self.peers[i].clone());
            i = i + 1;
        }
        assert(r.deep_view() =~= self.peers.deep_view());
        r
    }

    fn count_prefix(&self, prefix: &str) -> (n: usize)
        ensures
            n == self@.entries.filter(with_prefix(prefix@)).len(),
    {
        let mut n: usize = 0;
        let mut i: usize = 0;
        proof {
            lemma_filter_empty(self@.entries.take(0), with_prefix(prefix@));
        }
        while i < self.entries.len()
            invariant
                i <= self.entries.len(),
                n <= i,
                n == self@.entries.take(i as int).filter(with_prefix(prefix@)).len(),
            decreases self.entries.len() - i,
        {
            proof {
                lemma_filter_step(self@.entries, with_prefix(prefix@), i as int);
            }
            if starts_with(self.entries[i].key.as_str(), prefix) {
                n = n + 1;
            }
            i = i + 1;
        }
        assert(self@.entries.take(self.entries.len() as int) =~= self@.entries);
        n
    }

    /// How many entries and peers the store holds, and how many entries of
    /// the service, reputation and escrow categories. Expired entries that
    /// no sweep has removed yet are counted.
    pub fn get_stats(&self) -> (r: DhtStats)
        ensures
            r == self@.stats(),
    {
        DhtStats {
            total_entries: self.entries.len(),
            total_peers: self.peers.len(),
            service_entries: self.count_prefix("service:"),
            reputation_entries: self.count_prefix("reputation:"),
            escrow_entries: self.count_prefix("escrow:"),
        }
    }
}

/// A value that this node stores is read back as long as its time to live
/// has not run out, and is absent afterwards, whatever was stored before.
pub proof fn lemma_store_then_get(dht: DhtView, key: Seq<char>, value: Seq<u8>, ttl_seconds: u64, stored: u64, now: u64)
    requires
        dht.wf(),
    ensures
        dht.store(key, value, ttl_seconds, stored).wf(),
        dht.store(key, value, ttl_seconds, stored).get(key, now) == if seconds_between(stored, now) < ttl_seconds {
            Some(value)
        } else {
            None
        },
{
    let entry = DhtEntryView { key, value, stored_at: stored, ttl_seconds, last_updated: stored, origin: dht.node_id };
    let after = dht.put(entry);
    lemma_first_index(dht.entries, under_key(key));
    match dht.key_index(key) {
        Some(i) => {
            assert(under_key(key)(after.entries[i]));
            assert forall|j: int| 0 <= j < i implies !under_key(key)(#[trigger] after.entries[j]) by {
                assert(after.entries[j] == dht.entries[j]);
            }
            lemma_first_index_is(after.entries, under_key(key), i);
        },
        None => {
            let i = dht.entries.len() as int;
            assert(under_key(key)(after.entries[i]));
            assert forall|j: int| 0 <= j < i implies !under_key(key)(#[trigger] after.entries[j]) by {
                assert(after.entries[j] == dht.entries[j]);
            }
            lemma_first_index_is(after.entries, under_key(key), i);
        },
    }
}

/// Writing under one key does not change what a read of another key sees.
pub proof fn lemma_store_keeps_others(
    dht: DhtView,
    key: Seq<char>,
    value: Seq<u8>,
    ttl_seconds: u64,
    stored: u64,
    other: Seq<char>,
    now: u64,
)
    requires
        dht.wf(),
        other != key,
    ensures
        dht.store(key, value, ttl_seconds, stored).get(other, now) == dht.get(other, now),
{
    let entry = DhtEntryView { key, value, stored_at: stored, ttl_seconds, last_updated: stored, origin: dht.node_id };
    let after = dht.put(entry);
    lemma_first_index(dht.entries, under_key(key));
    lemma_first_index(dht.entries, under_key(other));
    lemma_first_index(after.entries, under_key(other));
    match dht.key_index(other) {
        Some(i) => {
            assert(after.entries[i] == dht.entries[i]);
            assert forall|j: int| 0 <= j < i implies !under_key(other)(#[trigger] after.entries[j]) by {
                if dht.key_index(key) != Some(j) {
                    assert(after.entries[j] == dht.entries[j]);
                }
            }
            lemma_first_index_is(after.entries, under_key(other), i);
        },
        None => {
            assert forall|j: int| 0 <= j < after.entries.len() implies !under_key(other)(#[trigger] after.entries[j]) by {
                if j < dht.entries.len() && dht.key_index(key) != Some(j) {
                    assert(after.entries[j] == dht.entries[j]);
                }
            }
            lemma_first_index_none(after.entries, under_key(other));
        },
    }
}

/// The entry of `s` under `key`, if there is one.
pub open spec fn entry_under(s: Seq<DhtEntryView>, key: Seq<char>) -> Option<DhtEntryView> {
    match first_index(s, under_key(key)) {
        Some(i) => Some(s[i]),
        None => None,
    }
}

proof fn lemma_entry_under_filtered(s: Seq<DhtEntryView>, key: Seq<char>, now: u64)
    requires
        forall|i: int, j: int| 0 <= i < j < s.len() ==> s[i].key != s[j].key,
    ensures
        entry_under(s.filter(visible(now)), key) == match entry_under(s, key) {
            Some(e) => if e.live_at(now) {
                Some(e)
            } else {
                None
            },
            None => None,
        },
    decreases s.len(),
{
    reveal(Seq::filter);
    let f = s.filter(visible(now));
    lemma_first_index(s, under_key(key));
    lemma_first_index(f, under_key(key));
    if s.len() > 0 {
        let t = s.drop_last();
        let e = s.last();
        assert forall|i: int, j: int| 0 <= i < j < t.len() implies t[i].key != t[j].key by {
            assert(t[i] == s[i] && t[j] == s[j]);
        }
        lemma_entry_under_filtered(t, key, now);
        let ft = t.filter(visible(now));
        lemma_first_index(t, under_key(key));
        lemma_first_index(ft, under_key(key));
        match first_index(t, under_key(key)) {
            Some(i) => {
                assert(t[i] == s[i]);
                assert(e.key != key);
                lemma_first_index_is(s, under_key(key), i);
                match first_index(ft, under_key(key)) {
                    Some(k) => {
                        assert(f[k] == ft[k]);
                        assert forall|j: int| 0 <= j < k implies !under_key(key)(#[trigger] f[j]) by {
                            assert(f[j] == ft[j]);
                        }
                        lemma_first_index_is(f, under_key(key), k);
                    },
                    None => {
                        assert forall|j: int| 0 <= j < f.len() implies !under_key(key)(#[trigger] f[j]) by {
                            if j < ft.len() {
                                assert(f[j] == ft[j]);
                            }
                        }
                        lemma_first_index_none(f, under_key(key));
                    },
                }
            },
            None => {
                assert forall|j: int| 0 <= j < ft.len() implies !under_key(key)(#[trigger] f[j]) by {
                    assert(f[j] == ft[j]);
                }
                if e.key == key {
                    assert forall|j: int| 0 <= j < s.len() - 1 implies !under_key(key)(#[trigger] s[j]) by {
                        assert(s[j] == t[j]);
                    }
                    lemma_first_index_is(s, under_key(key), s.len() - 1);
                    if e.live_at(now) {
                        assert(f == ft.push(e));
                        lemma_first_index_is(f, under_key(key), f.len() - 1);
                    } else {
                        assert(f == ft);
                    }
                } else {
                    assert forall|j: int| 0 <= j < s.len() implies !under_key(key)(#[trigger] s[j]) by {
                        if j < t.len() {
                            assert(s[j] == t[j]);
                        }
                    }
                    lemma_first_index_none(s, under_key(key));
                    assert forall|j: int| 0 <= j < f.len() implies !under_key(key)(#[trigger] f[j]) by {
                        if j < ft.len() {
                            assert(f[j] == ft[j]);
                        }
                    }
                    lemma_first_index_none(f, under_key(key));
                }
            },
        }
    }
}

/// A sweep changes nothing that a read can see, at the time of the sweep or
/// later: what it removes had expired.
pub proof fn lemma_sweep_keeps_reads(dht: DhtView, key: Seq<char>, swept_at: u64, now: u64)
    requires
        dht.wf(),
        swept_at <= now,
    ensures
        dht.sweep(swept_at).wf(),
        dht.sweep(swept_at).get(key, now) == dht.get(key, now),
{
    lemma_entry_under_filtered(dht.entries, key, swept_at);
    lemma_filter_keeps_keys_apart(dht.entries, visible(swept_at));
    dht.entries.lemma_filter_len(visible(swept_at));
    lemma_first_index(dht.entries, under_key(key));
}

/// An identity is active exactly while its heartbeat is visible.
pub proof fn lemma_active_iff_heartbeat(dht: DhtView, did: Seq<char>, now: u64)
    requires
        dht.wf(),
    ensures
        dht.active_dids(now).contains(did) <==> dht.get(heartbeat_key(did), now).is_some(),
{
    reveal_strlit("did_heartbeat:");
    let prefix = "did_heartbeat:"@;
    let key = heartbeat_key(did);
    let cond = visible_with_prefix(prefix, now);
    let kept = dht.entries.filter(cond);
    let active = dht.active_dids(now);
    assert(key.skip(14) =~= did);
    assert(key.subrange(0, 14) =~= prefix);
    lemma_first_index(dht.entries, under_key(key));
    if dht.get(key, now).is_some() {
        let i = dht.key_index(key).unwrap();
        let e = dht.entries[i];
        assert(cond(e));
        dht.entries.lemma_filter_contains(cond, i);
        let w = choose|w: int| 0 <= w < kept.len() && kept[w] == e;
        assert(active[w] == did);
    }
    if active.contains(did) {
        let w = choose|w: int| 0 <= w < active.len() && active[w] == did;
        let e = kept[w];
        dht.entries.lemma_filter_pred(cond, w);
        assert(kept.contains(e));
        dht.entries.lemma_filter_contains_rev(cond, e);
        let j = choose|j: int| 0 <= j < dht.entries.len() && dht.entries[j] == e;
        assert(e.key.skip(14) == did);
        assert(e.key.subrange(0, 14) =~= prefix);
        assert(e.key =~= prefix + did);
        assert(under_key(key)(dht.entries[j]));
        let i = dht.key_index(key).unwrap();
        assert(dht.entries[i].key == dht.entries[j].key);
        assert(i == j);
    }
}

/// An identity that reports that it is alive is active for the length of
/// the activity window, and not longer unless it reports again.
pub proof fn lemma_heartbeat_makes_active(dht: DhtView, did: Seq<char>, reported: u64, now: u64)
    requires
        dht.wf(),
    ensures
        dht.heartbeat(did, reported).wf(),
        dht.heartbeat(did, reported).active_dids(now).contains(did) <==> seconds_between(reported, now)
            < ACTIVITY_WINDOW_SECONDS,
{
    lemma_store_then_get(
        dht,
        heartbeat_key(did),
        text_bytes(decimal(reported as nat)),
        ACTIVITY_WINDOW_SECONDS,
        reported,
        now,
    );
    lemma_active_iff_heartbeat(dht.heartbeat(did, reported), did, now);
}

/// Whether two byte strings are equal.
pub fn same_bytes(a: &Vec<u8>, b: &Vec<u8>) -> (r: bool)
    ensures
        r == (a@ == b@),
{
    if a.len() != b.len() {
        return false;
    }
    let mut i: usize = 0;
    while i < a.len()
        invariant
            i <= a.len(),
            a.len() == b.len(),
            forall|j: int| 0 <= j < i ==> a@[j] == b@[j],
        decreases a.len() - i,
    {
        if a[i] != b[i] {
            return false;
        }
        i = i + 1;
    }
    assert(a@ =~= b@);
    true
}

/// Filtering keeps apart the keys that were apart.
proof fn lemma_filter_keeps_keys_apart(s: Seq<DhtEntryView>, pred: spec_fn(DhtEntryView) -> bool)
    requires
        forall|i: int, j: int| 0 <= i < j < s.len() ==> s[i].key != s[j].key,
    ensures
        forall|i: int, j: int|
            0 <= i < j < s.filter(pred).len() ==> s.filter(pred)[i].key != s.filter(pred)[j].key,
    decreases s.len(),
{
    reveal(Seq::filter);
    if s.len() > 0 {
        let t = s.drop_last();
        lemma_filter_keeps_keys_apart(t, pred);
        let f = s.filter(pred);
        let ft = t.filter(pred);
        assert forall|i: int, j: int| 0 <= i < j < f.len() implies f[i].key != f[j].key by {
            if j < ft.len() {
            } else {
                t.lemma_filter_contains_rev(pred, ft[i]);
                let w = choose|w: int| 0 <= w < t.len() && t[w] == ft[i];
                assert(s[w] == ft[i]);
            }
        }
    }
}

} // verus!
