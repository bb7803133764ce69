//! The reputation accumulator: signed attestations about identities, and
//! the window of recent scores from which an identity's reputation is
//! computed.
//!
//! A score is kept as the bit pattern of its 64-bit float, which this module
//! stores and hands back without interpreting it. Signatures are verified
//! outside this module: an attestation comes with the outcome of its
//! verification.

use vstd::prelude::*;
use crate::dht::{bytes_of, text_bytes, Dht, DhtView};
use crate::error::CoreError;
use crate::identity::{signature_valid, verify_text};
use crate::json::{json_bytes, push_json_bytes, push_json_number, push_json_string};
use crate::outside::json_string_text;
use crate::seqs::{lemma_filter_empty, lemma_filter_step};
use crate::text::{decimal, owned, push_decimal, push_text, same_text};
use crate::types::texts;

verus! {

/// How many of the latest attestations count for a score unless told
/// otherwise.
pub const DEFAULT_SCORE_WINDOW: usize = 100;

/// How long a published attestation is kept: 24 hours.
pub const ATTESTATION_TTL_SECONDS: u64 = 86400;

/// A signed statement of one identity about another.
#[derive(Debug, PartialEq, Eq)]
pub struct ReputationAttestation {
    pub attester_did: String,
    pub target_did: String,
    /// The score, conventionally between 0.0 and 5.0, as the bit pattern of
    /// its 64-bit float.
    pub score_bits: u64,
    pub interaction_type: String,
    pub timestamp: u64,
    pub signature: Vec<u8>,
}

/// What a [`ReputationAttestation`] stands for.
pub struct AttestationView {
    pub attester_did: Seq<char>,
    pub target_did: Seq<char>,
    pub score_bits: u64,
    pub interaction_type: Seq<char>,
    pub timestamp: u64,
    pub signature: Seq<u8>,
}

impl View for ReputationAttestation {
    type V = AttestationView;

    open spec fn view(&self) -> AttestationView {
        AttestationView {
            attester_did: self.attester_did@,
            target_did: self.target_did@,
            score_bits: self.score_bits,
            interaction_type: self.interaction_type@,
            timestamp: self.timestamp,
            signature: self.signature@,
        }
    }
}

impl DeepView for ReputationAttestation {
    type V = AttestationView;

    open spec fn deep_view(&self) -> AttestationView {
        self@
    }
}

impl Clone for ReputationAttestation {
    fn clone(&self) -> (r: Self)
        ensures
            r@ == self@,
    {
        ReputationAttestation {
            attester_did: self.attester_did.clone(),
            target_did: self.target_did.clone(),
            score_bits: self.score_bits,
            interaction_type: self.interaction_type.clone(),
            timestamp: self.timestamp,
            signature: self.signature.clone(),
        }
    }
}

/// Counts over all attestations. The average score is computed from
/// [`ReputationSystem::all_scores`].
#[derive(Debug, Clone, Copy, PartialEq, Eq, Structural)]
pub struct ReputationStats {
    /// How many identities have been attested.
    pub total_nodes: usize,
    pub total_attestations: usize,
}

/// The text that an attestation's signature covers: every field before the
/// signature, joined by colons, the score as the decimal numeral of its bit
/// pattern.
pub open spec fn signed_text(a: AttestationView) -> Seq<char> {
    a.attester_did + ":"@ + a.target_did + ":"@ + decimal(a.score_bits as nat) + ":"@ + a.interaction_type + ":"@
        + decimal(a.timestamp as nat)
}

/// The key under which an attestation is published.
pub open spec fn attestation_key(a: AttestationView) -> Seq<char> {
    "reputation:"@ + a.target_did + ":"@ + a.attester_did + ":"@ + decimal(a.timestamp as nat)
}

/// The JSON text of an attestation, as it is published: an object with the
/// attestation's fields in the order of their declaration.
pub open spec fn attestation_json(a: AttestationView) -> Seq<char> {
    "{\"attester_did\":"@ + json_string_text(a.attester_did) + ",\"target_did\":"@ + json_string_text(a.target_did)
        + ",\"score_bits\":"@ + decimal(a.score_bits as nat) + ",\"interaction_type\":"@ + json_string_text(
        a.interaction_type,
    ) + ",\"timestamp\":"@ + decimal(a.timestamp as nat) + ",\"signature\":"@ + json_bytes(a.signature) + "}"@
}

/// Whether the signature of `a` is a valid signature of its attester for
/// the text that it covers.
pub open spec fn attestation_verifies(a: AttestationView) -> bool {
    signature_valid(a.attester_did, text_bytes(signed_text(a)), a.signature)
}

/// Whether two attestations are the same statement: by the same attester,
/// about the same target, at the same time.
pub open spec fn same_statement(a: AttestationView, b: AttestationView) -> bool {
    a.attester_did == b.attester_did && a.target_did == b.target_did && a.timestamp == b.timestamp
}

/// The condition "is about `did`".
pub open spec fn about(did: Seq<char>) -> spec_fn(AttestationView) -> bool {
    |a: AttestationView| a.target_did == did
}

/// The last `n` elements of `s`, or all of `s` where it has fewer.
pub open spec fn last_n<T>(s: Seq<T>, n: nat) -> Seq<T> {
    if s.len() <= n {
        s
    } else {
        s.skip(s.len() - n)
    }
}

/// The identities that `s` attests, each once, in the order in which they
/// first occur.
pub open spec fn targets(s: Seq<AttestationView>) -> Seq<Seq<char>>
    decreases s.len(),
{
    if s.len() == 0 {
        Seq::empty()
    } else {
        let before = targets(s.drop_last());
        if before.contains(s.last().target_did) {
            before
        } else {
            before.push(s.last().target_did)
        }
    }
}

/// What a [`ReputationSystem`] stands for: its attestations in the order in
/// which they arrived.
pub struct ReputationView {
    pub attestations: Seq<AttestationView>,
    pub window: usize,
}

impl ReputationView {
    /// No statement is stored twice.
    pub open spec fn wf(self) -> bool {
        forall|i: int, j: int|
            0 <= i < j < self.attestations.len() ==> !same_statement(self.attestations[i], self.attestations[j])
    }

    /// Whether the signature of every stored attestation is valid.
    pub open spec fn all_verified(self) -> bool {
        forall|i: int| 0 <= i < self.attestations.len() ==> attestation_verifies(#[trigger] self.attestations[i])
    }

    /// Whether the statement of `a` is stored.
    pub open spec fn holds(self, a: AttestationView) -> bool {
        exists|i: int| 0 <= i < self.attestations.len() && same_statement(#[trigger] self.attestations[i], a)
    }

    /// The attestations after `a` arrives: it is added unless its signature
    /// is not valid or its statement is already stored.
    pub open spec fn add(self, a: AttestationView, signature_valid: bool) -> ReputationView {
        if signature_valid && !self.holds(a) {
            ReputationView { attestations: self.attestations.push(a), ..self }
        } else {
            self
        }
    }

    /// The store after `a` arrives at `now`: the attestation is published
    /// under its key where it is added.
    pub open spec fn add_record(self, dht: DhtView, a: AttestationView, signature_valid: bool, now: u64) -> DhtView {
        if signature_valid && !self.holds(a) {
            dht.store(attestation_key(a), text_bytes(attestation_json(a)), ATTESTATION_TTL_SECONDS, now)
        } else {
            dht
        }
    }

    /// The scores of all attestations about `did`, in the order in which
    /// they arrived.
    pub open spec fn scores_of(self, did: Seq<char>) -> Seq<u64> {
        self.attestations.filter(about(did)).map_values(|a: AttestationView| a.score_bits)
    }

    /// The scores that count for `did`: those of the latest attestations
    /// about it, as many as the window holds.
    pub open spec fn recent_scores(self, did: Seq<char>) -> Seq<u64> {
        last_n(self.scores_of(did), self.window as nat)
    }

    /// The scores of all attestations.
    pub open spec fn all_scores(self) -> Seq<u64> {
        self.attestations.map_values(|a: AttestationView| a.score_bits)
    }

    /// The counts over all attestations.
    pub open spec fn stats(self) -> ReputationStats {
        ReputationStats {
            total_nodes: targets(self.attestations).len() as usize,
            total_attestations: self.attestations.len() as usize,
        }
    }
}

/// The text that the signature of `attestation` covers.
pub fn signing_payload(attestation: &ReputationAttestation) -> (payload: String)
    ensures
        payload@ == signed_text(attestation@),
{
    let mut payload = attestation.attester_did.clone();
    push_text(&mut payload, ":");
    push_text(&mut payload, attestation.target_did.as_str());
    push_text(&mut payload, ":");
    push_decimal(&mut payload, attestation.score_bits);
    push_text(&mut payload, ":");
    push_text(&mut payload, attestation.interaction_type.as_str());
    push_text(&mut payload, ":");
    push_decimal(&mut payload, attestation.timestamp);
    payload
}

/// The key under which `attestation` is published.
pub fn reputation_key(attestation: &ReputationAttestation) -> (key: String)
    ensures
        key@ == attestation_key(attestation@),
{
    let mut key = owned("reputation:");
    push_text(&mut key, attestation.target_did.as_str());
    push_text(&mut key, ":");
    push_text(&mut key, attestation.attester_did.as_str());
    push_text(&mut key, ":");
    push_decimal(&mut key, attestation.timestamp);
    key
}

/// The JSON text of `attestation`, as it is published.
pub fn attestation_text(attestation: &ReputationAttestation) -> (s: String)
    ensures
        s@ == attestation_json(attestation@),
{
    let mut s = owned("{\"attester_did\":");
    push_json_string(&mut s, attestation.attester_did.as_str());
    push_text(&mut s, ",\"target_did\":");
    push_json_string(&mut s, attestation.target_did.as_str());
    push_text(&mut s, ",\"score_bits\":");
    push_json_number(&mut s, attestation.score_bits);
    push_text(&mut s, ",\"interaction_type\":");
    push_json_string(&mut s, attestation.interaction_type.as_str());
    push_text(&mut s, ",\"timestamp\":");
    push_json_number(&mut s, attestation.timestamp);
    push_text(&mut s, ",\"signature\":");
    push_json_bytes(&mut s, &attestation.signature);
    push_text(&mut s, "}");
    s
}

fn contains_text(list: &Vec<String>, did: &str) -> (r: bool)
    ensures
        r == texts(list@).contains(did@),
{
    let mut i: usize = 0;
    while i < list.len()
        invariant
            i <= list.len(),
            forall|j: int| 0 <= j < i ==> texts(list@)[j] != did@,
        decreases list.len() - i,
    {
        if same_text(list[i].as_str(), did) {
            assert(texts(list@)[i as int] == did@);
            return true;
        }
        i = i + 1;
    }
    false
}

/// The store of attestations of one node.
pub struct ReputationSystem {
    attestations: Vec<ReputationAttestation>,
    window: usize,
}

impl View for ReputationSystem {
    type V = ReputationView;

    closed spec fn view(&self) -> ReputationView {
        ReputationView { attestations: self.attestations.deep_view(), window: self.window }
    }
}

impl ReputationSystem {
    /// Whether the store keeps its invariant.
    pub open spec fn wf(&self) -> bool {
        self@.wf()
    }

    /// An empty store with the default window.
    pub fn new() -> (s: ReputationSystem)
        ensures
            s.wf(),
            s@ == (ReputationView { attestations: Seq::empty(), window: DEFAULT_SCORE_WINDOW }),
    {
        ReputationSystem::with_window(DEFAULT_SCORE_WINDOW)
    }

    /// An empty store in which the latest `window` attestations about an
    /// identity count for its score.
    pub fn with_window(window: usize) -> (s: ReputationSystem)
        ensures
            s.wf(),
            s@ == (ReputationView { attestations: Seq::empty(), window }),
    {
        let s = ReputationSystem { attestations: Vec::new(), window };
        assert(s.attestations.deep_view() =~= Seq::empty());
        s
    }

    fn holds(&self, a: &ReputationAttestation) -> (r: bool)
        ensures
            r == self@.holds(a@),
    {
        let mut i: usize = 0;
        while i < self.attestations.len()
            invariant
                i <= self.attestations.len(),
                forall|j: int| 0 <= j < i ==> !same_statement(#[trigger] self@.attestations[j], a@),
            decreases self.attestations.len() - i,
        {
            let b = &self.attestations[i];
            if b.timestamp == a.timestamp && same_text(b.attester_did.as_str(), a.attester_did.as_str()) && same_text(
                b.target_did.as_str(),
                a.target_did.as_str(),
            ) {
                assert(same_statement(self@.attestations[i as int], a@));
                return true;
            }
            i = i + 1;
        }
        false
    }

    /// Takes in an attestation at `now`, after verifying its signature
    /// against the key that the attester's identifier names, and publishes
    /// it under its key. Returns whether the attestation was added: it is
    /// not where the same attester's statement about the same target at the
    /// same time is already stored.
    ///
    /// Fails, and stores and publishes nothing, where the signature is not
    /// valid. So every stored attestation stays verified.
    pub fn add_attestation(&mut self, dht: &mut Dht, attestation: ReputationAttestation, now: u64) -> (r: Result<
        bool,
        CoreError,
    >)
        requires
            old(self).wf(),
            old(dht).wf(),
        ensures
            final(self).wf(),
            final(dht).wf(),
            final(self)@ == old(self)@.add(attestation@, attestation_verifies(attestation@)),
            final(dht)@ == old(self)@.add_record(old(dht)@, attestation@, attestation_verifies(attestation@), now),
            r == if attestation_verifies(attestation@) {
                Ok::<bool, CoreError>(!old(self)@.holds(attestation@))
            } else {
                Err::<bool, CoreError>(CoreError::BadSignature)
            },
            old(self)@.all_verified() ==> final(self)@.all_verified(),
    {
        let payload = signing_payload(&attestation);
        let valid = verify_text(attestation.attester_did.as_str(), payload.as_str(), &attestation.signature);
        proof {
            if self@.all_verified() {
                lemma_add_keeps_verified(self@, attestation@, valid);
            }
        }
        self.add_attestation_with(dht, attestation, valid, now)
    }

    /// Takes in an attestation at `now`, and publishes it under its key.
    /// `signature_valid` says whether its signature verified against the
    /// attester's key over [`signed_text`]. Returns whether the attestation
    /// was added: it is not where the same attester's statement about the
    /// same target at the same time is already stored.
    ///
    /// Fails, and stores and publishes nothing, where the signature is not
    /// valid.
    pub fn add_attestation_with(
        &mut self,
        dht: &mut Dht,
        attestation: ReputationAttestation,
        signature_valid: bool,
        now: u64,
    ) -> (r: Result<bool, CoreError>)
        requires
            old(self).wf(),
            old(dht).wf(),
        ensures
            final(self).wf(),
            final(dht).wf(),
            final(self)@ == old(self)@.add(attestation@, signature_valid),
            final(dht)@ == old(self)@.add_record(old(dht)@, attestation@, signature_valid, now),
            r == if signature_valid {
                Ok::<bool, CoreError>(!old(self)@.holds(attestation@))
            } else {
                Err::<bool, CoreError>(CoreError::BadSignature)
            },
    {
        if !signature_valid {
            return Err(CoreError::BadSignature);
        }
        if self.holds(&attestation) {
            return Ok(false);
        }
        let ghost before = self.attestations.deep_view();
        let ghost added = attestation@;
        let key = reputation_key(&attestation);
        let text = attestation_text(&attestation);
        dht.store(key, bytes_of(text.as_str()), ATTESTATION_TTL_SECONDS, now);
        self.attestations.push(attestation);
        assert(self.attestations.deep_view() =~= before.push(added));
        assert forall|i: int, j: int| 0 <= i < j < self@.attestations.len() implies !same_statement(
            self@.attestations[i],
            self@.attestations[j],
        ) by {
            if j == before.len() {
                assert(!same_statement(old(self)@.attestations[i], added));
            } else {
                assert(self@.attestations[i] == old(self)@.attestations[i]);
                assert(self@.attestations[j] == old(self)@.attestations[j]);
            }
        }
        Ok(true)
    }

    /// The scores that count for `did`: those of the latest attestations
    /// about it, as many as the window holds, oldest first. The reputation
    /// of `did` is their arithmetic mean, and the neutral score where there
    /// is none.
    pub fn recent_scores(&self, did: &str) -> (r: Vec<u64>)
        ensures
            r@ == self@.recent_scores(did@),
    {
        let mut all: Vec<u64> = Vec::new();
        let mut i: usize = 0;
        proof {
            lemma_filter_empty(self@.attestations.take(0), about(did@));
            assert(all@ =~= Seq::<AttestationView>::empty().map_values(|a: AttestationView| a.score_bits));
        }
        while i < self.attestations.len()
            invariant
                i <= self.attestations.len(),
                all@ == self@.attestations.take(i as int).filter(about(did@)).map_values(
                    |a: AttestationView| a.score_bits,
                ),
            decreases self.attestations.len() - i,
        {
            proof {
                lemma_filter_step(self@.attestations, about(did@), i as int);
            }
            let a = &self.attestations[i];
            if same_text(a.target_did.as_str(), did) {
                let ghost before = all@;
                all.push(a.score_bits);
                assert(all@ =~= self@.attestations.take(i + 1).filter(about(did@)).map_values(
                    |a: AttestationView| a.score_bits,
                ));
            }
            i = i + 1;
        }
        assert(self@.attestations.take(self.attestations.len() as int) =~= self@.attestations);
        if all.len() <= self.window {
            return all;
        }
        let start: usize = all.len() - self.window;
        let mut r: Vec<u64> = Vec::new();
        let mut k: usize = start;
        while k < all.len()
            invariant
                start <= k <= all.len(),
                r@ == all@.subrange(start as int, k as int),
            decreases all.len() - k,
        {
            r.push(all[k]);
            k = k + 1;
            assert(r@ =~= all@.subrange(start as int, k as int));
        }
        assert(r@ =~= all@.skip(start as int));
        r
    }

    /// The scores of all attestations, in the order in which they arrived.
    pub fn all_scores(&self) -> (r: Vec<u64>)
        ensures
            r@ == self@.all_scores(),
    {
        let mut r: Vec<u64> = Vec::new();
        let mut i: usize = 0;
        while i < self.attestations.len()
            invariant
                i <= self.attestations.len(),
                r.len() == i,
                forall|j: int| 0 <= j < i ==> r@[j] == self@.attestations[j].score_bits,
            decreases self.attestations.len() - i,
        {
            r.push(self.attestations[i].score_bits);
            i = i + 1;
        }
        assert(r@ =~= self@.all_scores());
        r
    }

    /// The counts over all attestations.
    pub fn get_stats(&self) -> (r: ReputationStats)
        ensures
            r == self@.stats(),
    {
        let mut seen: Vec<String> = Vec::new();
        let mut i: usize = 0;
        assert(texts(seen@) =~= Seq::empty());
        while i < self.attestations.len()
            invariant
                i <= self.attestations.len(),
                seen.len() <= i,
                texts(seen@) == targets(self@.attestations.take(i as int)),
            decreases self.attestations.len() - i,
        {
            proof {
                assert(self@.attestations.take(i + 1).drop_last() =~= self@.attestations.take(i as int));
                assert(self@.attestations.take(i + 1).last() == self@.attestations[i as int]);
            }
            let target = &self.attestations[i].target_did;
            if !contains_text(&seen, target.as_str()) {
                let ghost before = seen@;
                seen.push(target.clone());
                assert(texts(seen@) =~= texts(before).push(target@));
            }
            i = i + 1;
        }
        assert(self@.attestations.take(self.attestations.len() as int) =~= self@.attestations);
        assert(seen@.len() == texts(seen@).len());
        ReputationStats { total_nodes: seen.len(), total_attestations: self.attestations.len() }
    }
}

/// For every stored attestation, the signature verifies against the
/// attester's key over the text that it covers: where this holds before an
/// attestation arrives whose signature is accepted only if it verifies, it
/// holds afterwards.
pub proof fn lemma_add_keeps_verified(r: ReputationView, a: AttestationView, signature_valid: bool)
    requires
        r.all_verified(),
        signature_valid ==> attestation_verifies(a),
    ensures
        r.add(a, signature_valid).all_verified(),
{
    let after = r.add(a, signature_valid);
    assert forall|i: int| 0 <= i < after.attestations.len() implies attestation_verifies(
        #[trigger] after.attestations[i],
    ) by {
        if i < r.attestations.len() {
            assert(after.attestations[i] == r.attestations[i]);
        }
    }
}

/// An attestation whose signature is not valid is neither stored nor
/// published.
pub proof fn lemma_bad_signature_stores_nothing(r: ReputationView, dht: DhtView, a: AttestationView, now: u64)
    ensures
        r.add(a, false) == r,
        r.add_record(dht, a, false, now) == dht,
{
}

/// Only verified attestations are stored: where the arrival of an
/// attestation changes the store, or publishes anything, its signature was
/// valid; and every attestation stored afterwards was stored before or is
/// the one that arrived.
pub proof fn lemma_only_verified_are_stored(
    r: ReputationView,
    dht: DhtView,
    a: AttestationView,
    signature_valid: bool,
    now: u64,
)
    ensures
        r.add(a, signature_valid) != r ==> signature_valid,
        r.add_record(dht, a, signature_valid, now) != dht ==> signature_valid,
        forall|i: int|
            0 <= i < r.add(a, signature_valid).attestations.len() ==> (i < r.attestations.len() && r.add(
                a,
                signature_valid,
            ).attestations[i] == r.attestations[i]) || (signature_valid && #[trigger] r.add(
                a,
                signature_valid,
            ).attestations[i] == a),
{
}

} // verus!
