//! The escrow state machine: contracts between a buyer and a seller, watched
//! by arbiters, whose funds move once enough of them have signed.
//!
//! ```text
//! Created  --fund-->            Funded
//! Funded   --start_work-->      InProgress
//! Funded   --raise_dispute-->   Disputed
//! Funded   --settle(refund)-->  Refunded     two of buyer, seller, first arbiter signed
//! InProgress --raise_dispute--> Disputed
//! InProgress --settle(release)--> Completed  two of buyer, seller, first arbiter signed
//! Disputed --settle(release)--> Completed    an arbiter signed
//! Disputed --settle(refund)-->  Refunded     an arbiter signed
//! ```
//!
//! Signatures are verified, and funds are moved, outside this module: a
//! signature comes with the outcome of its verification, and a settlement
//! with the outcome of the wallet's release.

use vstd::prelude::*;
use crate::clock::get_current_timestamp;
use crate::dht::{bytes_of, text_bytes, Dht, DhtView};
use crate::error::CoreError;
use crate::identity::{signature_valid, verify_text};
use crate::json::{comma_separated, json_array, json_bytes, json_texts, lemma_comma_separated_step, push_json_bytes, push_json_number, push_json_string, push_json_texts};
use crate::outside::{json_string_text, random_uuid};
use crate::seqs::{first_index, lemma_filter_empty, lemma_filter_len_pointwise, lemma_filter_step, lemma_first_index, lemma_first_index_is, lemma_first_index_none};
use crate::text::{joined, decimal, owned, push_decimal, push_text, same_text};
use crate::types::{texts, EscrowContract, EscrowContractView, EscrowSignature, EscrowSignatureView, EscrowState, SignatureIntent};

verus! {

/// Counts over all contracts.
#[derive(Debug, Clone, Copy, PartialEq, Eq, Structural)]
pub struct EscrowStats {
    pub total_contracts: usize,
    pub created: usize,
    pub funded: usize,
    pub in_progress: usize,
    pub completed: usize,
    pub disputed: usize,
    pub refunded: usize,
    /// The sum of the amounts of all contracts, capped at the largest value.
    pub total_amount: u64,
}

/// The word that stands for an intent in a signed payload.
pub open spec fn intent_word(intent: SignatureIntent) -> Seq<char> {
    match intent {
        SignatureIntent::Release => "release"@,
        SignatureIntent::Refund => "refund"@,
    }
}

/// The text that a signature on a contract covers: the contract's
/// identifier, the intent and the amount, joined by colons.
pub open spec fn signed_text(escrow_id: Seq<char>, intent: SignatureIntent, amount: u64) -> Seq<char> {
    escrow_id + ":"@ + intent_word(intent) + ":"@ + decimal(amount as nat)
}

/// The key under which the contract `escrow_id` is published.
pub open spec fn contract_key(escrow_id: Seq<char>) -> Seq<char> {
    "escrow:"@ + escrow_id
}

/// How long a published contract is kept: 24 hours.
pub const CONTRACT_TTL_SECONDS: u64 = 86400;

/// The word that stands for a state in a published contract.
pub open spec fn state_word(state: EscrowState) -> Seq<char> {
    match state {
        EscrowState::Created => "Created"@,
        EscrowState::Funded => "Funded"@,
        EscrowState::InProgress => "InProgress"@,
        EscrowState::Completed => "Completed"@,
        EscrowState::Disputed => "Disputed"@,
        EscrowState::Refunded => "Refunded"@,
    }
}

/// The JSON text of a signature: an object with the signer, the intent and
/// the signature's bytes.
pub open spec fn signature_json(s: EscrowSignatureView) -> Seq<char> {
    "{\"signer_did\":"@ + json_string_text(s.signer_did) + ",\"intent\":\""@ + intent_word(s.intent)
        + "\",\"signature\":"@ + json_bytes(s.signature) + "}"@
}

/// The JSON text of a contract, as it is published: an object with the
/// contract's fields in the order of their declaration.
pub open spec fn contract_json(c: EscrowContractView) -> Seq<char> {
    "{\"id\":"@ + json_string_text(c.id) + ",\"buyer_did\":"@ + json_string_text(c.buyer_did) + ",\"seller_did\":"@
        + json_string_text(c.seller_did) + ",\"arbiters\":"@ + json_texts(c.arbiters) + ",\"amount\":"@ + decimal(
        c.amount as nat,
    ) + ",\"state\":\""@ + state_word(c.state) + "\",\"multisig_address\":"@ + json_string_text(c.multisig_address)
        + ",\"signatures\":"@ + json_array(c.signatures.map_values(|s: EscrowSignatureView| signature_json(s)))
        + ",\"created_at\":"@ + decimal(c.created_at as nat) + "}"@
}

/// Whether the state machine has a transition from `from` to `to`.
pub open spec fn has_transition(from: EscrowState, to: EscrowState) -> bool {
    match (from, to) {
        (EscrowState::Created, EscrowState::Funded) => true,
        (EscrowState::Funded, EscrowState::InProgress) => true,
        (EscrowState::Funded, EscrowState::Disputed) => true,
        (EscrowState::Funded, EscrowState::Refunded) => true,
        (EscrowState::InProgress, EscrowState::Completed) => true,
        (EscrowState::InProgress, EscrowState::Disputed) => true,
        (EscrowState::Disputed, EscrowState::Completed) => true,
        (EscrowState::Disputed, EscrowState::Refunded) => true,
        _ => false,
    }
}

/// Whether `to` can be reached from `from` along the transitions of the
/// state machine, in any number of steps.
pub open spec fn reachable(from: EscrowState, to: EscrowState) -> bool {
    from == to || match from {
        EscrowState::Created => true,
        EscrowState::Funded => to != EscrowState::Created,
        EscrowState::InProgress => to == EscrowState::Completed || to == EscrowState::Disputed || to
            == EscrowState::Refunded,
        EscrowState::Disputed => to == EscrowState::Completed || to == EscrowState::Refunded,
        EscrowState::Completed => false,
        EscrowState::Refunded => false,
    }
}

/// Whether nothing leads out of `state`.
pub open spec fn is_terminal(state: EscrowState) -> bool {
    state == EscrowState::Completed || state == EscrowState::Refunded
}

/// The state that a settlement with `intent` leads to.
pub open spec fn settled_state(intent: SignatureIntent) -> EscrowState {
    match intent {
        SignatureIntent::Release => EscrowState::Completed,
        SignatureIntent::Refund => EscrowState::Refunded,
    }
}

/// The condition "is the signature of `signer` for `intent`".
pub open spec fn signed_by(signer: Seq<char>, intent: SignatureIntent) -> spec_fn(EscrowSignatureView) -> bool {
    |s: EscrowSignatureView| s.signer_did == signer && s.intent == intent
}

/// The condition "has the identifier `id`".
pub open spec fn has_id(id: Seq<char>) -> spec_fn(EscrowContractView) -> bool {
    |c: EscrowContractView| c.id == id
}

/// The condition "is in `state`".
pub open spec fn in_state(state: EscrowState) -> spec_fn(EscrowContractView) -> bool {
    |c: EscrowContractView| c.state == state
}

/// The condition "is a signature for `intent` by the buyer, the seller or
/// the first arbiter of `c`".
pub open spec fn counts_toward(c: EscrowContractView, intent: SignatureIntent) -> spec_fn(EscrowSignatureView) -> bool {
    |s: EscrowSignatureView| s.intent == intent && c.is_threshold_party(s.signer_did)
}

/// The condition "is a signature for `intent` by an arbiter of `c`".
pub open spec fn arbiter_vote(c: EscrowContractView, intent: SignatureIntent) -> spec_fn(EscrowSignatureView) -> bool {
    |s: EscrowSignatureView| s.intent == intent && c.is_arbiter(s.signer_did)
}

/// The sum of the amounts of `s`, capped at the largest value.
pub open spec fn total_amount(s: Seq<EscrowContractView>) -> u64
    decreases s.len(),
{
    if s.len() == 0 {
        0
    } else {
        let before = total_amount(s.drop_last());
        if before + s.last().amount > u64::MAX {
            u64::MAX
        } else {
            (before + s.last().amount) as u64
        }
    }
}

impl EscrowContractView {
    /// Whether `did` is the buyer or the seller.
    pub open spec fn is_principal(self, did: Seq<char>) -> bool {
        did == self.buyer_did || did == self.seller_did
    }

    /// Whether `did` is one of the arbiters.
    pub open spec fn is_arbiter(self, did: Seq<char>) -> bool {
        self.arbiters.contains(did)
    }

    /// Whether `did` may sign: the buyer, the seller and the arbiters may.
    pub open spec fn authorizes(self, did: Seq<char>) -> bool {
        self.is_principal(did) || self.is_arbiter(did)
    }

    /// Whether a signature of `did` counts toward the threshold: those of
    /// the buyer, the seller and the first arbiter do.
    pub open spec fn is_threshold_party(self, did: Seq<char>) -> bool {
        self.is_principal(did) || (self.arbiters.len() > 0 && did == self.arbiters[0])
    }

    /// Every signature is by an authorized signer, and no signer has two
    /// signatures for one intent.
    pub open spec fn wf(self) -> bool {
        &&& forall|i: int| 0 <= i < self.signatures.len() ==> self.authorizes(#[trigger] self.signatures[i].signer_did)
        &&& forall|i: int, j: int|
            0 <= i < j < self.signatures.len() ==> !(self.signatures[i].signer_did == self.signatures[j].signer_did
                && self.signatures[i].intent == self.signatures[j].intent)
    }

    /// Whether `sig` is a valid signature of its signer for the text that it
    /// covers on this contract.
    pub open spec fn signature_verifies(self, sig: EscrowSignatureView) -> bool {
        signature_valid(sig.signer_did, text_bytes(signed_text(self.id, sig.intent, self.amount)), sig.signature)
    }

    /// Whether every signature on this contract is valid.
    pub open spec fn all_verified(self) -> bool {
        forall|i: int| 0 <= i < self.signatures.len() ==> self.signature_verifies(#[trigger] self.signatures[i])
    }

    /// Where the signature of `signer` for `intent` is kept, if there is one.
    pub open spec fn signature_index(self, signer: Seq<char>, intent: SignatureIntent) -> Option<int> {
        first_index(self.signatures, signed_by(signer, intent))
    }

    /// The contract after `sig` is recorded: it takes the place of the
    /// signature of the same signer for the same intent, or is added.
    pub open spec fn with_signature(self, sig: EscrowSignatureView) -> EscrowContractView {
        match self.signature_index(sig.signer_did, sig.intent) {
            Some(i) => EscrowContractView { signatures: self.signatures.update(i, sig), ..self },
            None => EscrowContractView { signatures: self.signatures.push(sig), ..self },
        }
    }

    /// How many of the buyer, the seller and the first arbiter have signed
    /// for `intent`.
    pub open spec fn votes(self, intent: SignatureIntent) -> nat {
        self.signatures.filter(counts_toward(self, intent)).len()
    }

    /// Whether an arbiter has signed for `intent`.
    pub open spec fn arbiter_signed(self, intent: SignatureIntent) -> bool {
        self.signatures.filter(arbiter_vote(self, intent)).len() > 0
    }

    /// Whether the signatures allow a settlement with `intent` in the
    /// contract's state: two of three for a release of work in progress or a
    /// refund before work began, an arbiter alone for either in a dispute.
    pub open spec fn settlement_due(self, intent: SignatureIntent) -> bool {
        match self.state {
            EscrowState::InProgress => intent == SignatureIntent::Release && self.votes(intent) >= 2,
            EscrowState::Funded => intent == SignatureIntent::Refund && self.votes(intent) >= 2,
            EscrowState::Disputed => self.arbiter_signed(intent),
            _ => false,
        }
    }

    /// Why a signature of `signer` is refused, if it is.
    pub open spec fn signature_refusal(self, signer: Seq<char>, signature_valid: bool) -> Option<CoreError> {
        if !self.authorizes(signer) {
            Some(CoreError::NotAuthorized)
        } else if !signature_valid {
            Some(CoreError::BadSignature)
        } else {
            None
        }
    }

    /// Why `by_did` cannot raise a dispute, if it cannot.
    pub open spec fn dispute_refusal(self, by_did: Seq<char>) -> Option<CoreError> {
        if !self.is_principal(by_did) {
            Some(CoreError::NotAuthorized)
        } else if self.state != EscrowState::Funded && self.state != EscrowState::InProgress {
            Some(CoreError::IllegalTransition)
        } else {
            None
        }
    }

    /// Why the dispute cannot be resolved by `arbiter_did`, if it cannot.
    pub open spec fn resolution_refusal(self, arbiter_did: Seq<char>, signature_valid: bool) -> Option<CoreError> {
        if self.state != EscrowState::Disputed {
            Some(CoreError::IllegalTransition)
        } else if !self.is_arbiter(arbiter_did) {
            Some(CoreError::NotAuthorized)
        } else if !signature_valid {
            Some(CoreError::BadSignature)
        } else {
            None
        }
    }

    /// Why a settlement with `intent` is refused, if it is.
    pub open spec fn settlement_refusal(self, intent: SignatureIntent, released: bool) -> Option<CoreError> {
        if !self.settlement_due(intent) {
            Some(CoreError::IllegalTransition)
        } else if !released {
            Some(CoreError::ReleaseFailed)
        } else {
            None
        }
    }
}

/// The contract that is created from the given parts: in state `Created`,
/// without signatures.
pub open spec fn new_contract(
    id: Seq<char>,
    buyer_did: Seq<char>,
    seller_did: Seq<char>,
    arbiters: Seq<Seq<char>>,
    amount: u64,
    multisig_address: Seq<char>,
    now: u64,
) -> EscrowContractView {
    EscrowContractView {
        id,
        buyer_did,
        seller_did,
        arbiters,
        amount,
        state: EscrowState::Created,
        multisig_address,
        signatures: Seq::empty(),
        created_at: now,
    }
}

/// What an [`EscrowManager`] stands for: its contracts in the order of
/// their creation.
pub struct EscrowView {
    pub contracts: Seq<EscrowContractView>,
}

impl EscrowView {
    /// No identifier is used twice, and every contract is well formed.
    pub open spec fn wf(self) -> bool {
        &&& forall|i: int, j: int| 0 <= i < j < self.contracts.len() ==> self.contracts[i].id != self.contracts[j].id
        &&& forall|i: int| 0 <= i < self.contracts.len() ==> (#[trigger] self.contracts[i]).wf()
    }

    /// Where the contract `id` is kept, if there is one.
    pub open spec fn contract_index(self, id: Seq<char>) -> Option<int> {
        first_index(self.contracts, has_id(id))
    }

    /// The contract `id`, if there is one.
    pub open spec fn contract(self, id: Seq<char>) -> Option<EscrowContractView> {
        match self.contract_index(id) {
            Some(i) => Some(self.contracts[i]),
            None => None,
        }
    }

    /// The contracts with `c` in the place of the contract with its
    /// identifier.
    pub open spec fn with_contract(self, c: EscrowContractView) -> EscrowView {
        match self.contract_index(c.id) {
            Some(i) => EscrowView { contracts: self.contracts.update(i, c) },
            None => self,
        }
    }

    /// The contracts after `c` is created. Nothing changes where its
    /// identifier is taken.
    pub open spec fn created(self, c: EscrowContractView) -> EscrowView {
        if self.contract(c.id).is_some() {
            self
        } else {
            EscrowView { contracts: self.contracts.push(c) }
        }
    }

    /// Why the contract `id` cannot move from `from` to `to`, if it cannot.
    pub open spec fn move_refusal(self, id: Seq<char>, from: EscrowState) -> Option<CoreError> {
        match self.contract(id) {
            None => Some(CoreError::EscrowNotFound),
            Some(c) => if c.state != from {
                Some(CoreError::IllegalTransition)
            } else {
                None
            },
        }
    }

    /// The contracts after the contract `id` moves from `from` to `to`.
    /// Nothing changes where it cannot.
    pub open spec fn moved(self, id: Seq<char>, from: EscrowState, to: EscrowState) -> EscrowView {
        match self.contract(id) {
            Some(c) => if c.state == from {
                self.with_contract(EscrowContractView { state: to, ..c })
            } else {
                self
            },
            None => self,
        }
    }

    /// What adding a signature returns: the settlement that is due once the
    /// signature is recorded, if one is.
    pub open spec fn add_signature_result(
        self,
        id: Seq<char>,
        sig: EscrowSignatureView,
        signature_valid: bool,
    ) -> Result<Option<SignatureIntent>, CoreError> {
        match self.contract(id) {
            None => Err(CoreError::EscrowNotFound),
            Some(c) => match c.signature_refusal(sig.signer_did, signature_valid) {
                Some(e) => Err(e),
                None => if c.with_signature(sig).settlement_due(sig.intent) {
                    Ok(Some(sig.intent))
                } else {
                    Ok(None)
                },
            },
        }
    }

    /// The contracts after a signature is added. Nothing changes where it is
    /// refused.
    pub open spec fn add_signature(self, id: Seq<char>, sig: EscrowSignatureView, signature_valid: bool) -> EscrowView {
        match self.contract(id) {
            Some(c) => if c.signature_refusal(sig.signer_did, signature_valid).is_none() {
                self.with_contract(c.with_signature(sig))
            } else {
                self
            },
            None => self,
        }
    }

    /// Why raising a dispute on the contract `id` by `by_did` is refused, if
    /// it is.
    pub open spec fn raise_dispute_refusal(self, id: Seq<char>, by_did: Seq<char>) -> Option<CoreError> {
        match self.contract(id) {
            None => Some(CoreError::EscrowNotFound),
            Some(c) => c.dispute_refusal(by_did),
        }
    }

    /// The contracts after `by_did` raises a dispute on the contract `id`.
    pub open spec fn raise_dispute(self, id: Seq<char>, by_did: Seq<char>) -> EscrowView {
        match self.contract(id) {
            Some(c) => if c.dispute_refusal(by_did).is_none() {
                self.with_contract(EscrowContractView { state: EscrowState::Disputed, ..c })
            } else {
                self
            },
            None => self,
        }
    }

    /// Why the resolution of the dispute on the contract `id` is refused, if
    /// it is.
    pub open spec fn resolve_dispute_refusal(self, id: Seq<char>, arbiter_did: Seq<char>, signature_valid: bool) -> Option<
        CoreError,
    > {
        match self.contract(id) {
            None => Some(CoreError::EscrowNotFound),
            Some(c) => c.resolution_refusal(arbiter_did, signature_valid),
        }
    }

    /// The contracts after an arbiter's decision on the contract `id` is
    /// recorded.
    pub open spec fn resolve_dispute(self, id: Seq<char>, sig: EscrowSignatureView, signature_valid: bool) -> EscrowView {
        match self.contract(id) {
            Some(c) => if c.resolution_refusal(sig.signer_did, signature_valid).is_none() {
                self.with_contract(c.with_signature(sig))
            } else {
                self
            },
            None => self,
        }
    }

    /// Why the settlement of the contract `id` is refused, if it is.
    pub open spec fn settle_refusal(self, id: Seq<char>, intent: SignatureIntent, released: bool) -> Option<CoreError> {
        match self.contract(id) {
            None => Some(CoreError::EscrowNotFound),
            Some(c) => c.settlement_refusal(intent, released),
        }
    }

    /// The contracts after the contract `id` is settled.
    pub open spec fn settle(self, id: Seq<char>, intent: SignatureIntent, released: bool) -> EscrowView {
        match self.contract(id) {
            Some(c) => if c.settlement_refusal(intent, released).is_none() {
                self.with_contract(EscrowContractView { state: settled_state(intent), ..c })
            } else {
                self
            },
            None => self,
        }
    }

    /// Whether `sig` is a valid signature for the contract `id`; not where
    /// there is no such contract.
    pub open spec fn signature_verifies(self, id: Seq<char>, sig: EscrowSignatureView) -> bool {
        match self.contract(id) {
            Some(c) => c.signature_verifies(sig),
            None => false,
        }
    }

    /// Whether every signature on every contract is valid.
    pub open spec fn all_verified(self) -> bool {
        forall|i: int| 0 <= i < self.contracts.len() ==> (#[trigger] self.contracts[i]).all_verified()
    }

    /// The store after the contract `id` is published at `now`: its JSON
    /// text is written under its key.
    pub open spec fn publish(self, dht: DhtView, id: Seq<char>, now: u64) -> DhtView {
        match self.contract(id) {
            Some(c) => dht.store(contract_key(id), text_bytes(contract_json(c)), CONTRACT_TTL_SECONDS, now),
            None => dht,
        }
    }

    /// The counts over all contracts.
    pub open spec fn stats(self) -> EscrowStats {
        EscrowStats {
            total_contracts: self.contracts.len() as usize,
            created: self.contracts.filter(in_state(EscrowState::Created)).len() as usize,
            funded: self.contracts.filter(in_state(EscrowState::Funded)).len() as usize,
            in_progress: self.contracts.filter(in_state(EscrowState::InProgress)).len() as usize,
            completed: self.contracts.filter(in_state(EscrowState::Completed)).len() as usize,
            disputed: self.contracts.filter(in_state(EscrowState::Disputed)).len() as usize,
            refunded: self.contracts.filter(in_state(EscrowState::Refunded)).len() as usize,
            total_amount: total_amount(self.contracts),
        }
    }
}

/// The word that stands for `intent` in a signed payload.
pub fn intent_name(intent: SignatureIntent) -> (s: &'static str)
    ensures
        s@ == intent_word(intent),
{
    match intent {
        SignatureIntent::Release => "release",
        SignatureIntent::Refund => "refund",
    }
}

/// The text that a signature for `intent` on the contract `escrow_id` over
/// `amount` covers.
pub fn signing_payload(escrow_id: &str, intent: SignatureIntent, amount: u64) -> (payload: String)
    ensures
        payload@ == signed_text(escrow_id@, intent, amount),
{
    let mut payload = owned(escrow_id);
    push_text(&mut payload, ":");
    push_text(&mut payload, intent_name(intent));
    push_text(&mut payload, ":");
    push_decimal(&mut payload, amount);
    payload
}

/// The word that stands for `state` in a published contract.
pub fn state_name(state: EscrowState) -> (s: &'static str)
    ensures
        s@ == state_word(state),
{
    match state {
        EscrowState::Created => "Created",
        EscrowState::Funded => "Funded",
        EscrowState::InProgress => "InProgress",
        EscrowState::Completed => "Completed",
        EscrowState::Disputed => "Disputed",
        EscrowState::Refunded => "Refunded",
    }
}

fn push_signature(out: &mut String, s: &EscrowSignature)
    ensures
        final(out)@ == old(out)@ + signature_json(s@),
{
    push_text(out, "{\"signer_did\":");
    push_json_string(out, s.signer_did.as_str());
    push_text(out, ",\"intent\":\"");
    push_text(out, intent_name(s.intent));
    push_text(out, "\",\"signature\":");
    push_json_bytes(out, &s.signature);
    push_text(out, "}");
    assert(out@ =~= old(out)@ + signature_json(s@));
}

fn push_signatures(out: &mut String, v: &Vec<EscrowSignature>)
    ensures
        final(out)@ == old(out)@ + json_array(v.deep_view().map_values(|s: EscrowSignatureView| signature_json(s))),
{
    let ghost items = v.deep_view().map_values(|s: EscrowSignatureView| signature_json(s));
    push_text(out, "[");
    let mut i: usize = 0;
    assert(out@ =~= old(out)@ + "["@ + comma_separated(items.take(0)));
    while i < v.len()
        invariant
            i <= v.len(),
            items == v.deep_view().map_values(|s: EscrowSignatureView| signature_json(s)),
            out@ == old(out)@ + "["@ + comma_separated(items.take(i as int)),
        decreases v.len() - i,
    {
        proof {
            lemma_comma_separated_step(items, i as int);
            assert(items[i as int] == signature_json(v@[i as int]@));
        }
        if i > 0 {
            push_text(out, ",");
        }
        push_signature(out, &v[i]);
        i = i + 1;
        assert(out@ =~= old(out)@ + "["@ + comma_separated(items.take(i as int)));
    }
    assert(items.take(v.len() as int) =~= items);
    push_text(out, "]");
    assert(out@ =~= old(out)@ + json_array(items));
}

/// The JSON text of `c`, as it is published.
pub fn contract_text(c: &EscrowContract) -> (s: String)
    ensures
        s@ == contract_json(c@),
{
    let mut s = owned("{\"id\":");
    push_json_string(&mut s, c.id.as_str());
    push_text(&mut s, ",\"buyer_did\":");
    push_json_string(&mut s, c.buyer_did.as_str());
    push_text(&mut s, ",\"seller_did\":");
    push_json_string(&mut s, c.seller_did.as_str());
    push_text(&mut s, ",\"arbiters\":");
    push_json_texts(&mut s, &c.arbiters);
    push_text(&mut s, ",\"amount\":");
    push_json_number(&mut s, c.amount);
    push_text(&mut s, ",\"state\":\"");
    push_text(&mut s, state_name(c.state));
    push_text(&mut s, "\",\"multisig_address\":");
    push_json_string(&mut s, c.multisig_address.as_str());
    push_text(&mut s, ",\"signatures\":");
    push_signatures(&mut s, &c.signatures);
    push_text(&mut s, ",\"created_at\":");
    push_json_number(&mut s, c.created_at);
    push_text(&mut s, "}");
    s
}

/// The key under which the contract `escrow_id` is published.
pub fn escrow_key(escrow_id: &str) -> (key: String)
    ensures
        key@ == contract_key(escrow_id@),
{
    joined("escrow:", escrow_id)
}

fn contains_text(list: &Vec<String>, did: &str) -> (r: bool)
    ensures
        r == texts(list@).contains(did@),
{
    let mut i: usize = 0;
    while i < list.len()
        invariant
            i <= list.len(),
            forall|j: int| 0 <= j < i ==> texts(list@)[j] != did@,
        decreases list.len() - i,
    {
        if same_text(list[i].as_str(), did) {
            assert(texts(list@)[i as int] == did@);
            return true;
        }
        i = i + 1;
    }
    false
}

fn is_principal(c: &EscrowContract, did: &str) -> (r: bool)
    ensures
        r == c@.is_principal(did@),
{
    same_text(did, c.buyer_did.as_str()) || same_text(did, c.seller_did.as_str())
}

fn is_arbiter(c: &EscrowContract, did: &str) -> (r: bool)
    ensures
        r == c@.is_arbiter(did@),
{
    contains_text(&c.arbiters, did)
}

fn is_threshold_party(c: &EscrowContract, did: &str) -> (r: bool)
    ensures
        r == c@.is_threshold_party(did@),
{
    if is_principal(c, did) {
        return true;
    }
    if c.arbiters.len() > 0 {
        assert(texts(c.arbiters@)[0] == c.arbiters@[0]@);
        same_text(did, c.arbiters[0].as_str())
    } else {
        false
    }
}

fn same_intent(a: SignatureIntent, b: SignatureIntent) -> (r: bool)
    ensures
        r == (a == b),
{
    match (a, b) {
        (SignatureIntent::Release, SignatureIntent::Release) => true,
        (SignatureIntent::Refund, SignatureIntent::Refund) => true,
        _ => false,
    }
}

fn votes(c: &EscrowContract, intent: SignatureIntent) -> (n: usize)
    ensures
        n == c@.votes(intent),
{
    let mut n: usize = 0;
    let mut i: usize = 0;
    let ghost cond = counts_toward(c@, intent);
    proof {
        lemma_filter_empty(c@.signatures.take(0), cond);
    }
    while i < c.signatures.len()
        invariant
            i <= c.signatures.len(),
            cond == counts_toward(c@, intent),
            n <= i,
            n == c@.signatures.take(i as int).filter(cond).len(),
        decreases c.signatures.len() - i,
    {
        proof {
            lemma_filter_step(c@.signatures, cond, i as int);
        }
        let s = &c.signatures[i];
        if same_intent(s.intent, intent) && is_threshold_party(c, s.signer_did.as_str()) {
            n = n + 1;
        }
        i = i + 1;
    }
    assert(c@.signatures.take(c.signatures.len() as int) =~= c@.signatures);
    n
}

fn arbiter_signed(c: &EscrowContract, intent: SignatureIntent) -> (r: bool)
    ensures
        r == c@.arbiter_signed(intent),
{
    let mut n: usize = 0;
    let mut i: usize = 0;
    let ghost cond = arbiter_vote(c@, intent);
    proof {
        lemma_filter_empty(c@.signatures.take(0), cond);
    }
    while i < c.signatures.len()
        invariant
            i <= c.signatures.len(),
            cond == arbiter_vote(c@, intent),
            n <= i,
            n == c@.signatures.take(i as int).filter(cond).len(),
        decreases c.signatures.len() - i,
    {
        proof {
            lemma_filter_step(c@.signatures, cond, i as int);
        }
        let s = &c.signatures[i];
        if same_intent(s.intent, intent) && is_arbiter(c, s.signer_did.as_str()) {
            n = n + 1;
        }
        i = i + 1;
    }
    assert(c@.signatures.take(c.signatures.len() as int) =~= c@.signatures);
    n > 0
}

fn settlement_due(c: &EscrowContract, intent: SignatureIntent) -> (r: bool)
    ensures
        r == c@.settlement_due(intent),
{
    match c.state {
        EscrowState::InProgress => same_intent(intent, SignatureIntent::Release) && votes(c, intent) >= 2,
        EscrowState::Funded => same_intent(intent, SignatureIntent::Refund) && votes(c, intent) >= 2,
        EscrowState::Disputed => arbiter_signed(c, intent),
        _ => false,
    }
}

fn find_signature(c: &EscrowContract, signer_did: &str, intent: SignatureIntent) -> (r: Option<usize>)
    ensures
        match r {
            Some(k) => k < c.signatures.len() && c@.signature_index(signer_did@, intent) == Some(k as int),
            None => c@.signature_index(signer_did@, intent).is_none(),
        },
{
    let ghost cond = signed_by(signer_did@, intent);
    let mut k: usize = 0;
    while k < c.signatures.len()
        invariant
            k <= c.signatures.len(),
            cond == signed_by(signer_did@, intent),
            forall|j: int| 0 <= j < k ==> !cond(#[trigger] c@.signatures[j]),
        decreases c.signatures.len() - k,
    {
        let s = &c.signatures[k];
        if same_intent(s.intent, intent) && same_text(s.signer_did.as_str(), signer_did) {
            proof {
                lemma_first_index_is(c@.signatures, cond, k as int);
            }
            return Some(k);
        }
        k = k + 1;
    }
    proof {
        lemma_first_index_none(c@.signatures, cond);
    }
    None
}

fn record_signature(c: &mut EscrowContract, sig: EscrowSignature)
    requires
        old(c)@.wf(),
        old(c)@.authorizes(sig@.signer_did),
    ensures
        final(c)@.wf(),
        final(c)@ == old(c)@.with_signature(sig@),
{
    let ghost before = c.signatures.deep_view();
    let ghost added = sig@;
    let ghost cond = signed_by(added.signer_did, added.intent);
    proof {
        lemma_first_index(before, cond);
    }
    let found = find_signature(c, sig.signer_did.as_str(), sig.intent);
    match found {
        Some(k) => {
            c.signatures[k] = sig;
            assert(c.signatures.deep_view() =~= before.update(k as int, added));
            assert(cond(before[k as int]));
        },
        None => {
            assert(forall|j: int| 0 <= j < before.len() ==> !cond(#[trigger] before[j]));
            c.signatures.push(sig);
            assert(c.signatures.deep_view() =~= before.push(added));
        },
    }
    assert(c@.arbiters == old(c)@.arbiters);
    assert(forall|d: Seq<char>| c@.authorizes(d) == old(c)@.authorizes(d));
}

fn is_well_formed(c: &EscrowContract) -> (r: bool)
    ensures
        r == c@.wf(),
{
    let mut i: usize = 0;
    while i < c.signatures.len()
        invariant
            i <= c.signatures.len(),
            forall|k: int| 0 <= k < i ==> c@.authorizes(#[trigger] c@.signatures[k].signer_did),
            forall|a: int, b: int|
                0 <= a < b < i ==> !(c@.signatures[a].signer_did == c@.signatures[b].signer_did
                    && c@.signatures[a].intent == c@.signatures[b].intent),
        decreases c.signatures.len() - i,
    {
        let s = &c.signatures[i];
        if !(is_principal(c, s.signer_did.as_str()) || is_arbiter(c, s.signer_did.as_str())) {
            assert(!c@.authorizes(c@.signatures[i as int].signer_did));
            return false;
        }
        match find_signature(c, s.signer_did.as_str(), s.intent) {
            Some(k) => {
                proof {
                    lemma_first_index(c@.signatures, signed_by(s@.signer_did, s@.intent));
                }
                if k != i {
                    proof {
                        let first = c@.signatures[k as int];
                        let again = c@.signatures[i as int];
                        assert(signed_by(s@.signer_did, s@.intent)(first));
                        assert(signed_by(s@.signer_did, s@.intent)(again));
                        assert(k < i);
                        assert(first.signer_did == again.signer_did && first.intent == again.intent);
                    }
                    return false;
                }
            },
            None => {
                proof {
                    lemma_first_index(c@.signatures, signed_by(s@.signer_did, s@.intent));
                    assert(signed_by(s@.signer_did, s@.intent)(c@.signatures[i as int]));
                }
                return false;
            },
        }
        i = i + 1;
    }
    true
}

/// The keeper of the escrow contracts of one node.
pub struct EscrowManager {
    contracts: Vec<EscrowContract>,
}

impl View for EscrowManager {
    type V = EscrowView;

    closed spec fn view(&self) -> EscrowView {
        EscrowView { contracts: self.contracts.deep_view() }
    }
}

impl EscrowManager {
    /// Whether the manager keeps its invariant.
    pub open spec fn wf(&self) -> bool {
        self@.wf()
    }

    /// A manager without contracts.
    pub fn new() -> (m: EscrowManager)
        ensures
            m.wf(),
            m@.contracts == Seq::<EscrowContractView>::empty(),
    {
        let m = EscrowManager { contracts: Vec::new() };
        assert(m.contracts.deep_view() =~= Seq::empty());
        m
    }

    fn find(&self, id: &str) -> (r: Option<usize>)
        ensures
            match r {
                Some(i) => self@.contract_index(id@) == Some(i as int) && i < self.contracts.len(),
                None => self@.contract_index(id@).is_none(),
            },
    {
        let mut i: usize = 0;
        while i < self.contracts.len()
            invariant
                i <= self.contracts.len(),
                forall|j: int| 0 <= j < i ==> !has_id(id@)(#[trigger] self@.contracts[j]),
            decreases self.contracts.len() - i,
        {
            if same_text(self.contracts[i].id.as_str(), id) {
                proof {
                    lemma_first_index_is(self@.contracts, has_id(id@), i as int);
                }
                return Some(i);
            }
            i = i + 1;
        }
        proof {
            lemma_first_index_none(self@.contracts, has_id(id@));
        }
        None
    }

    fn replace(&mut self, dht: &mut Dht, i: usize, c: EscrowContract, now: u64)
        requires
            old(self).wf(),
            old(dht).wf(),
            i < old(self)@.contracts.len(),
            old(self)@.contract_index(c@.id) == Some(i as int),
            c@.wf(),
        ensures
            final(self).wf(),
            final(dht).wf(),
            final(self)@ == old(self)@.with_contract(c@),
            final(dht)@ == final(self)@.publish(old(dht)@, c@.id, now),
    {
        proof {
            lemma_first_index(self@.contracts, has_id(c@.id));
            lemma_with_contract(self@, c@);
        }
        let key = escrow_key(c.id.as_str());
        let text = contract_text(&c);
        let ghost before = self.contracts.deep_view();
        let ghost added = c@;
        self.contracts[i] = c;
        assert(self.contracts.deep_view() =~= before.update(i as int, added));
        assert(has_id(added.id)(before[i as int]));
        assert(forall|a: int, b: int|
            0 <= a < b < self@.contracts.len() ==> self@.contracts[a].id != self@.contracts[b].id);
        dht.store(key, bytes_of(text.as_str()), CONTRACT_TTL_SECONDS, now);
    }

    /// Creates a contract with the given identifier at `now`, in state
    /// `Created`, and publishes it. Fails, and changes nothing, where the
    /// identifier is taken.
    pub fn create_with(
        &mut self,
        dht: &mut Dht,
        id: String,
        buyer_did: String,
        seller_did: String,
        arbiters: Vec<String>,
        amount: u64,
        multisig_address: String,
        now: u64,
    ) -> (r: Result<String, CoreError>)
        requires
            old(self).wf(),
            old(dht).wf(),
        ensures
            final(self).wf(),
            final(dht).wf(),
            final(self)@ == old(self)@.created(
                new_contract(id@, buyer_did@, seller_did@, texts(arbiters@), amount, multisig_address@, now),
            ),
            match r {
                Ok(created) => created@ == id@ && old(self)@.contract(id@).is_none() && final(dht)@ == final(self)@.publish(old(dht)@, id@, now),
                Err(e) => e == CoreError::DuplicateId && old(self)@.contract(id@).is_some() && final(dht)@ == old(dht)@,
            },
    {
        proof {
            lemma_first_index(self@.contracts, has_id(id@));
        }
        match self.find(id.as_str()) {
            Some(_) => Err(CoreError::DuplicateId),
            None => {
                let created = id.clone();
                let key = escrow_key(id.as_str());
                let c = EscrowContract {
                    id,
                    buyer_did,
                    seller_did,
                    arbiters,
                    amount,
                    state: EscrowState::Created,
                    multisig_address,
                    signatures: Vec::new(),
                    created_at: now,
                };
                let text = contract_text(&c);
                let ghost before = self.contracts.deep_view();
                let ghost added = c@;
                assert(c.signatures.deep_view() =~= Seq::empty());
                assert(forall|j: int| 0 <= j < before.len() ==> !has_id(added.id)(#[trigger] before[j]));
                self.contracts.push(c);
                assert(self.contracts.deep_view() =~= before.push(added));
                assert(forall|a: int, b: int|
                    0 <= a < b < self@.contracts.len() ==> self@.contracts[a].id != self@.contracts[b].id);
                proof {
                    assert(has_id(added.id)(self@.contracts[before.len() as int]));
                    lemma_first_index_is(self@.contracts, has_id(added.id), before.len() as int);
                }
                dht.store(key, bytes_of(text.as_str()), CONTRACT_TTL_SECONDS, now);
                Ok(created)
            },
        }
    }

    /// Creates a contract with a fresh random identifier at the time of the
    /// system clock, publishes it, and returns the identifier. Fails, and
    /// changes nothing, only where the identifier that was drawn is taken.
    pub fn create(
        &mut self,
        dht: &mut Dht,
        buyer_did: String,
        seller_did: String,
        arbiters: Vec<String>,
        amount: u64,
        multisig_address: String,
    ) -> (r: Result<String, CoreError>)
        requires
            old(self).wf(),
            old(dht).wf(),
        ensures
            final(self).wf(),
            final(dht).wf(),
            match r {
                Ok(id) => old(self)@.contract(id@).is_none() && exists|now: u64|
                    {
                        &&& final(self)@ == old(self)@.created(
                            #[trigger] new_contract(
                                id@,
                                buyer_did@,
                                seller_did@,
                                texts(arbiters@),
                                amount,
                                multisig_address@,
                                now,
                            ),
                        )
                        &&& final(dht)@ == final(self)@.publish(old(dht)@, id@, now)
                    },
                Err(e) => e == CoreError::DuplicateId && final(self)@ == old(self)@ && final(dht)@ == old(dht)@,
            },
            r is Ok ==> r.unwrap()@.len() == 36,
            exists|id: Seq<char>, now: u64|
                {
                    &&& id.len() == 36
                    &&& final(self)@ == old(self)@.created(
                        #[trigger] new_contract(
                            id,
                            buyer_did@,
                            seller_did@,
                            texts(arbiters@),
                            amount,
                            multisig_address@,
                            now,
                        ),
                    )
                    &&& match r {
                        Ok(created) => created@ == id && old(self)@.contract(id).is_none() && final(dht)@ == final(self)@.publish(old(dht)@, id, now),
                        Err(e) => e == CoreError::DuplicateId && old(self)@.contract(id).is_some() && final(dht)@
                            == old(dht)@,
                    }
                },
    {
        let id = random_uuid();
        let now = get_current_timestamp();
        self.create_with(dht, id, buyer_did, seller_did, arbiters, amount, multisig_address, now)
    }

    fn change_state(&mut self, dht: &mut Dht, escrow_id: &str, from: EscrowState, to: EscrowState, now: u64) -> (r: Result<
        (),
        CoreError,
    >)
        requires
            old(self).wf(),
            old(dht).wf(),
        ensures
            final(self).wf(),
            final(dht).wf(),
            final(self)@ == old(self)@.moved(escrow_id@, from, to),
            match r {
                Ok(()) => old(self)@.move_refusal(escrow_id@, from).is_none() && final(dht)@ == final(self)@.publish(
                    old(dht)@,
                    escrow_id@,
                    now,
                ),
                Err(e) => old(self)@.move_refusal(escrow_id@, from) == Some(e) && final(dht)@ == old(dht)@,
            },
    {
        proof {
            lemma_first_index(self@.contracts, has_id(escrow_id@));
        }
        match self.find(escrow_id) {
            None => Err(CoreError::EscrowNotFound),
            Some(i) => {
                if !same_state(self.contracts[i].state, from) {
                    return Err(CoreError::IllegalTransition);
                }
                let mut c = self.contracts[i].clone();
                c.state = to;
                self.replace(dht, i, c, now);
                Ok(())
            },
        }
    }

    /// Takes over a contract as it was published, where its identifier is
    /// free and it is well formed: every signature on it is by its buyer,
    /// its seller or one of its arbiters, and no signer has two signatures
    /// for one intent. Fails, and changes nothing, otherwise.
    pub fn restore(&mut self, contract: EscrowContract) -> (r: Result<(), CoreError>)
        requires
            old(self).wf(),
        ensures
            final(self).wf(),
            match r {
                Ok(()) => contract@.wf() && final(self)@ == old(self)@.created(contract@) && old(self)@.contract(
                    contract@.id,
                ).is_none(),
                Err(e) => final(self)@ == old(self)@ && e == if old(self)@.contract(contract@.id).is_some() {
                    CoreError::DuplicateId
                } else {
                    CoreError::Malformed
                } && (old(self)@.contract(contract@.id).is_some() || !contract@.wf()),
            },
    {
        proof {
            lemma_first_index(self@.contracts, has_id(contract@.id));
        }
        if self.find(contract.id.as_str()).is_some() {
            return Err(CoreError::DuplicateId);
        }
        if !is_well_formed(&contract) {
            return Err(CoreError::Malformed);
        }
        let ghost before = self.contracts.deep_view();
        let ghost added = contract@;
        assert(forall|j: int| 0 <= j < before.len() ==> !has_id(added.id)(#[trigger] before[j]));
        self.contracts.push(contract);
        assert(self.contracts.deep_view() =~= before.push(added));
        assert(forall|a: int, b: int|
            0 <= a < b < self@.contracts.len() ==> self@.contracts[a].id != self@.contracts[b].id);
        Ok(())
    }

    /// Records at `now` that the buyer's payment has arrived: `Created`
    /// becomes `Funded`, and the contract is published. Fails, and changes
    /// nothing, in any other state.
    pub fn fund(&mut self, dht: &mut Dht, escrow_id: &str, now: u64) -> (r: Result<(), CoreError>)
        requires
            old(self).wf(),
            old(dht).wf(),
        ensures
            final(self).wf(),
            final(dht).wf(),
            final(self)@ == old(self)@.moved(escrow_id@, EscrowState::Created, EscrowState::Funded),
            match r {
                Ok(()) => old(self)@.move_refusal(escrow_id@, EscrowState::Created).is_none() && final(dht)@ == final(self)@.publish(old(dht)@, escrow_id@, now),
                Err(e) => old(self)@.move_refusal(escrow_id@, EscrowState::Created) == Some(e) && final(dht)@ == old(dht)@,
            },
    {
        self.change_state(dht, escrow_id, EscrowState::Created, EscrowState::Funded, now)
    }

    /// Records at `now` that work has begun: `Funded` becomes `InProgress`,
    /// and the contract is published. Fails, and changes nothing, in any
    /// other state.
    pub fn start_work(&mut self, dht: &mut Dht, escrow_id: &str, now: u64) -> (r: Result<(), CoreError>)
        requires
            old(self).wf(),
            old(dht).wf(),
        ensures
            final(self).wf(),
            final(dht).wf(),
            final(self)@ == old(self)@.moved(escrow_id@, EscrowState::Funded, EscrowState::InProgress),
            match r {
                Ok(()) => old(self)@.move_refusal(escrow_id@, EscrowState::Funded).is_none() && final(dht)@ == final(self)@.publish(old(dht)@, escrow_id@, now),
                Err(e) => old(self)@.move_refusal(escrow_id@, EscrowState::Funded) == Some(e) && final(dht)@ == old(dht)@,
            },
    {
        self.change_state(dht, escrow_id, EscrowState::Funded, EscrowState::InProgress, now)
    }

    /// Whether `signature` is a valid signature of `signer_did` for `intent`
    /// on the contract `escrow_id`; not where there is no such contract.
    pub fn signature_verifies(&self, escrow_id: &str, signer_did: &str, signature: &Vec<u8>, intent: SignatureIntent) -> (r: bool)
        ensures
            r == self@.signature_verifies(
                escrow_id@,
                EscrowSignatureView { signer_did: signer_did@, intent, signature: signature@ },
            ),
    {
        proof {
            lemma_first_index(self@.contracts, has_id(escrow_id@));
        }
        match self.find(escrow_id) {
            Some(i) => {
                let payload = signing_payload(escrow_id, intent, self.contracts[i].amount);
                verify_text(signer_did, payload.as_str(), signature)
            },
            None => false,
        }
    }

    /// Records the signature of `signer_did` for `intent`, after verifying
    /// it against the key that the signer's identifier names, in place of an
    /// earlier one of the same signer for the same intent, and publishes the
    /// contract at `now`. Returns the settlement that is now due, if one
    /// is; the state changes only when it is settled.
    ///
    /// Fails, and changes nothing, where there is no such contract, the
    /// signer is neither buyer, seller nor arbiter, or the signature is not
    /// valid. So every recorded signature stays verified.
    pub fn add_signature(
        &mut self,
        dht: &mut Dht,
        escrow_id: &str,
        signer_did: &str,
        signature: Vec<u8>,
        intent: SignatureIntent,
        now: u64,
    ) -> (r: Result<Option<SignatureIntent>, CoreError>)
        requires
            old(self).wf(),
            old(dht).wf(),
        ensures
            final(self).wf(),
            final(dht).wf(),
            r == old(self)@.add_signature_result(
                escrow_id@,
                EscrowSignatureView { signer_did: signer_did@, intent, signature: signature@ },
                old(self)@.signature_verifies(
                    escrow_id@,
                    EscrowSignatureView { signer_did: signer_did@, intent, signature: signature@ },
                ),
            ),
            final(self)@ == old(self)@.add_signature(
                escrow_id@,
                EscrowSignatureView { signer_did: signer_did@, intent, signature: signature@ },
                old(self)@.signature_verifies(
                    escrow_id@,
                    EscrowSignatureView { signer_did: signer_did@, intent, signature: signature@ },
                ),
            ),
            final(dht)@ == if r is Ok {
                final(self)@.publish(old(dht)@, escrow_id@, now)
            } else {
                old(dht)@
            },
            old(self)@.all_verified() ==> final(self)@.all_verified(),
    {
        let valid = self.signature_verifies(escrow_id, signer_did, &signature, intent);
        proof {
            if self@.all_verified() {
                lemma_signing_keeps_verified(
                    self@,
                    escrow_id@,
                    EscrowSignatureView { signer_did: signer_did@, intent, signature: signature@ },
                    valid,
                );
            }
        }
        self.add_signature_with(dht, escrow_id, signer_did, signature, intent, valid, now)
    }

    /// Records the signature of `signer_did` for `intent`, in place of an
    /// earlier one of the same signer for the same intent, and publishes the
    /// contract at `now`. `signature_valid` says whether the signature
    /// verified against the signer's key over [`signed_text`]. Returns the
    /// settlement that is now due, if one is; the state changes only when it
    /// is settled.
    ///
    /// Fails, and changes nothing, where there is no such contract, the
    /// signer is neither buyer, seller nor arbiter, or the signature is not
    /// valid.
    pub fn add_signature_with(
        &mut self,
        dht: &mut Dht,
        escrow_id: &str,
        signer_did: &str,
        signature: Vec<u8>,
        intent: SignatureIntent,
        signature_valid: bool,
        now: u64,
    ) -> (r: Result<Option<SignatureIntent>, CoreError>)
        requires
            old(self).wf(),
            old(dht).wf(),
        ensures
            final(self).wf(),
            final(dht).wf(),
            r == old(self)@.add_signature_result(
                escrow_id@,
                EscrowSignatureView { signer_did: signer_did@, intent, signature: signature@ },
                signature_valid,
            ),
            final(self)@ == old(self)@.add_signature(
                escrow_id@,
                EscrowSignatureView { signer_did: signer_did@, intent, signature: signature@ },
                signature_valid,
            ),
            final(dht)@ == if r is Ok {
                final(self)@.publish(old(dht)@, escrow_id@, now)
            } else {
                old(dht)@
            },
    {
        proof {
            lemma_first_index(self@.contracts, has_id(escrow_id@));
        }
        match self.find(escrow_id) {
            None => Err(CoreError::EscrowNotFound),
            Some(i) => {
                let current = &self.contracts[i];
                if !(is_principal(current, signer_did) || is_arbiter(current, signer_did)) {
                    return Err(CoreError::NotAuthorized);
                }
                if !signature_valid {
                    return Err(CoreError::BadSignature);
                }
                let mut c = current.clone();
                record_signature(&mut c, EscrowSignature { signer_did: owned(signer_did), intent, signature });
                let due = settlement_due(&c, intent);
                self.replace(dht, i, c, now);
                if due {
                    Ok(Some(intent))
                } else {
                    Ok(None)
                }
            },
        }
    }

    /// Opens a dispute at `now`: `Funded` or `InProgress` becomes
    /// `Disputed`, and the contract is published. Only the buyer or the
    /// seller may do so. Fails, and changes nothing, otherwise.
    pub fn raise_dispute(&mut self, dht: &mut Dht, escrow_id: &str, by_did: &str, now: u64) -> (r: Result<(), CoreError>)
        requires
            old(self).wf(),
            old(dht).wf(),
        ensures
            final(self).wf(),
            final(dht).wf(),
            final(self)@ == old(self)@.raise_dispute(escrow_id@, by_did@),
            match r {
                Ok(()) => old(self)@.raise_dispute_refusal(escrow_id@, by_did@).is_none() && final(dht)@ == final(self)@.publish(old(dht)@, escrow_id@, now),
                Err(e) => old(self)@.raise_dispute_refusal(escrow_id@, by_did@) == Some(e) && final(dht)@ == old(dht)@,
            },
    {
        proof {
            lemma_first_index(self@.contracts, has_id(escrow_id@));
        }
        match self.find(escrow_id) {
            None => Err(CoreError::EscrowNotFound),
            Some(i) => {
                let current = &self.contracts[i];
                if !is_principal(current, by_did) {
                    return Err(CoreError::NotAuthorized);
                }
                match current.state {
                    EscrowState::Funded | EscrowState::InProgress => {},
                    _ => {
                        return Err(CoreError::IllegalTransition);
                    },
                }
                let mut c = current.clone();
                c.state = EscrowState::Disputed;
                self.replace(dht, i, c, now);
                Ok(())
            },
        }
    }

    /// Records an arbiter's decision on a disputed contract as that
    /// arbiter's signature, after verifying it against the key that the
    /// arbiter's identifier names, and publishes the contract at `now`: for
    /// a refund where the decision is for the buyer, for a release where it
    /// is for the seller. Returns the settlement that is now due.
    ///
    /// Fails, and changes nothing, where there is no such contract, it is
    /// not disputed, `arbiter_did` is not one of its arbiters, or the
    /// signature is not valid. So every recorded signature stays verified.
    pub fn resolve_dispute(
        &mut self,
        dht: &mut Dht,
        escrow_id: &str,
        arbiter_did: &str,
        arbiter_signature: Vec<u8>,
        decision: SignatureIntent,
        now: u64,
    ) -> (r: Result<SignatureIntent, CoreError>)
        requires
            old(self).wf(),
            old(dht).wf(),
        ensures
            final(self).wf(),
            final(dht).wf(),
            final(self)@ == old(self)@.resolve_dispute(
                escrow_id@,
                EscrowSignatureView { signer_did: arbiter_did@, intent: decision, signature: arbiter_signature@ },
                old(self)@.signature_verifies(
                    escrow_id@,
                    EscrowSignatureView { signer_did: arbiter_did@, intent: decision, signature: arbiter_signature@ },
                ),
            ),
            match r {
                Ok(due) => due == decision && old(self)@.resolve_dispute_refusal(
                    escrow_id@,
                    arbiter_did@,
                    old(self)@.signature_verifies(
                        escrow_id@,
                        EscrowSignatureView { signer_did: arbiter_did@, intent: decision, signature: arbiter_signature@ },
                    ),
                ).is_none() && final(dht)@ == final(self)@.publish(old(dht)@, escrow_id@, now),
                Err(e) => old(self)@.resolve_dispute_refusal(
                    escrow_id@,
                    arbiter_did@,
                    old(self)@.signature_verifies(
                        escrow_id@,
                        EscrowSignatureView { signer_did: arbiter_did@, intent: decision, signature: arbiter_signature@ },
                    ),
                ) == Some(e) && final(dht)@ == old(dht)@,
            },
            old(self)@.all_verified() ==> final(self)@.all_verified(),
    {
        let valid = self.signature_verifies(escrow_id, arbiter_did, &arbiter_signature, decision);
        proof {
            if self@.all_verified() {
                lemma_signing_keeps_verified(
                    self@,
                    escrow_id@,
                    EscrowSignatureView { signer_did: arbiter_did@, intent: decision, signature: arbiter_signature@ },
                    valid,
                );
            }
        }
        self.resolve_dispute_with(dht, escrow_id, arbiter_did, arbiter_signature, decision, valid, now)
    }

    /// Records an arbiter's decision on a disputed contract as that
    /// arbiter's signature, and publishes the contract at `now`: for a
    /// refund where the decision is for the buyer, for a release where it is
    /// for the seller. `signature_valid` says whether the signature verified
    /// against the arbiter's key over [`signed_text`]. Returns the
    /// settlement that is now due.
    ///
    /// Fails, and changes nothing, where there is no such contract, it is
    /// not disputed, `arbiter_did` is not one of its arbiters, or the
    /// signature is not valid.
    pub fn resolve_dispute_with(
        &mut self,
        dht: &mut Dht,
        escrow_id: &str,
        arbiter_did: &str,
        arbiter_signature: Vec<u8>,
        decision: SignatureIntent,
        signature_valid: bool,
        now: u64,
    ) -> (r: Result<SignatureIntent, CoreError>)
        requires
            old(self).wf(),
            old(dht).wf(),
        ensures
            final(self).wf(),
            final(dht).wf(),
            final(self)@ == old(self)@.resolve_dispute(
                escrow_id@,
                EscrowSignatureView { signer_did: arbiter_did@, intent: decision, signature: arbiter_signature@ },
                signature_valid,
            ),
            match r {
                Ok(due) => due == decision && old(self)@.resolve_dispute_refusal(
                    escrow_id@,
                    arbiter_did@,
                    signature_valid,
                ).is_none() && final(dht)@ == final(self)@.publish(old(dht)@, escrow_id@, now),
                Err(e) => old(self)@.resolve_dispute_refusal(escrow_id@, arbiter_did@, signature_valid) == Some(e)
                    && final(dht)@ == old(dht)@,
            },
    {
        proof {
            lemma_first_index(self@.contracts, has_id(escrow_id@));
        }
        match self.find(escrow_id) {
            None => Err(CoreError::EscrowNotFound),
            Some(i) => {
                let current = &self.contracts[i];
                if !same_state(current.state, EscrowState::Disputed) {
                    return Err(CoreError::IllegalTransition);
                }
                if !is_arbiter(current, arbiter_did) {
                    return Err(CoreError::NotAuthorized);
                }
                if !signature_valid {
                    return Err(CoreError::BadSignature);
                }
                let mut c = current.clone();
                record_signature(
                    &mut c,
                    EscrowSignature { signer_did: owned(arbiter_did), intent: decision, signature: arbiter_signature },
                );
                self.replace(dht, i, c, now);
                Ok(decision)
            },
        }
    }

    /// Closes the contract at `now`, after the wallet tried to move the
    /// funds, and publishes it: `released` says whether the wallet
    /// succeeded. A release leads to `Completed`, a refund to `Refunded`.
    ///
    /// Fails, and changes nothing, where there is no such contract, the
    /// signatures do not allow the settlement in the contract's state, or
    /// the funds were not moved.
    pub fn settle(&mut self, dht: &mut Dht, escrow_id: &str, intent: SignatureIntent, released: bool, now: u64) -> (r: Result<
        EscrowState,
        CoreError,
    >)
        requires
            old(self).wf(),
            old(dht).wf(),
        ensures
            final(self).wf(),
            final(dht).wf(),
            final(self)@ == old(self)@.settle(escrow_id@, intent, released),
            match r {
                Ok(state) => state == settled_state(intent) && old(self)@.settle_refusal(
                    escrow_id@,
                    intent,
                    released,
                ).is_none() && final(dht)@ == final(self)@.publish(old(dht)@, escrow_id@, now),
                Err(e) => old(self)@.settle_refusal(escrow_id@, intent, released) == Some(e) && final(dht)@ == old(dht)@,
            },
    {
        proof {
            lemma_first_index(self@.contracts, has_id(escrow_id@));
        }
        match self.find(escrow_id) {
            None => Err(CoreError::EscrowNotFound),
            Some(i) => {
                let current = &self.contracts[i];
                if !settlement_due(current, intent) {
                    return Err(CoreError::IllegalTransition);
                }
                if !released {
                    return Err(CoreError::ReleaseFailed);
                }
                let state = match intent {
                    SignatureIntent::Release => EscrowState::Completed,
                    SignatureIntent::Refund => EscrowState::Refunded,
                };
                let mut c = current.clone();
                c.state = state;
                self.replace(dht, i, c, now);
                Ok(state)
            },
        }
    }

    /// A copy of the contract `escrow_id`, if there is one.
    pub fn get(&self, escrow_id: &str) -> (r: Option<EscrowContract>)
        ensures
            match r {
                Some(c) => self@.contract(escrow_id@) == Some(c@),
                None => self@.contract(escrow_id@).is_none(),
            },
    {
        match self.find(escrow_id) {
            Some(i) => Some(self.contracts[i].clone()),
            None => None,
        }
    }

    /// The state of the contract `escrow_id`, if there is one.
    pub fn state_of(&self, escrow_id: &str) -> (r: Option<EscrowState>)
        ensures
            match r {
                Some(s) => self@.contract(escrow_id@).is_some() && self@.contract(escrow_id@).unwrap().state == s,
                None => self@.contract(escrow_id@).is_none(),
            },
    {
        match self.find(escrow_id) {
            Some(i) => Some(self.contracts[i].state),
            None => None,
        }
    }

    /// Whether the contract `escrow_id` holds a signature of `signer_did`
    /// for `intent`.
    pub fn has_signature(&self, escrow_id: &str, signer_did: &str, intent: SignatureIntent) -> (r: bool)
        ensures
            r == (self@.contract(escrow_id@).is_some() && self@.contract(escrow_id@).unwrap().signature_index(
                signer_did@,
                intent,
            ).is_some()),
    {
        match self.find(escrow_id) {
            None => false,
            Some(i) => find_signature(&self.contracts[i], signer_did, intent).is_some(),
        }
    }

    fn count_in_state(&self, state: EscrowState) -> (n: usize)
        ensures
            n == self@.contracts.filter(in_state(state)).len(),
    {
        let mut n: usize = 0;
        let mut i: usize = 0;
        proof {
            lemma_filter_empty(self@.contracts.take(0), in_state(state));
        }
        while i < self.contracts.len()
            invariant
                i <= self.contracts.len(),
                n <= i,
                n == self@.contracts.take(i as int).filter(in_state(state)).len(),
            decreases self.contracts.len() - i,
        {
            proof {
                lemma_filter_step(self@.contracts, in_state(state), i as int);
            }
            if same_state(self.contracts[i].state, state) {
                n = n + 1;
            }
            i = i + 1;
        }
        assert(self@.contracts.take(self.contracts.len() as int) =~= self@.contracts);
        n
    }

    /// The counts over all contracts. Every contract is counted in exactly
    /// one state.
    pub fn get_stats(&self) -> (r: EscrowStats)
        ensures
            r == self@.stats(),
            r.total_contracts == r.created + r.funded + r.in_progress + r.completed + r.disputed + r.refunded,
    {
        proof {
            lemma_stats_add_up(self@);
        }
        let mut total: u64 = 0;
        let mut i: usize = 0;
        while i < self.contracts.len()
            invariant
                i <= self.contracts.len(),
                total == total_amount(self@.contracts.take(i as int)),
            decreases self.contracts.len() - i,
        {
            proof {
                assert(self@.contracts.take(i + 1).drop_last() =~= self@.contracts.take(i as int));
                assert(self@.contracts.take(i + 1).last() == self@.contracts[i as int]);
            }
            total = total.saturating_add(self.contracts[i].amount);
            i = i + 1;
        }
        assert(self@.contracts.take(self.contracts.len() as int) =~= self@.contracts);
        EscrowStats {
            total_contracts: self.contracts.len(),
            created: self.count_in_state(EscrowState::Created),
            funded: self.count_in_state(EscrowState::Funded),
            in_progress: self.count_in_state(EscrowState::InProgress),
            completed: self.count_in_state(EscrowState::Completed),
            disputed: self.count_in_state(EscrowState::Disputed),
            refunded: self.count_in_state(EscrowState::Refunded),
            total_amount: total,
        }
    }
}

/// Recording a signature puts it where the signature of its signer for its
/// intent is looked up, and removes no signature: whoever had signed for an
/// intent has still signed for it.
pub proof fn lemma_with_signature(c: EscrowContractView, sig: EscrowSignatureView)
    ensures
        c.with_signature(sig).signature_index(sig.signer_did, sig.intent).is_some(),
        c.with_signature(sig).signatures[c.with_signature(sig).signature_index(sig.signer_did, sig.intent).unwrap()]
            == sig,
        c.with_signature(sig).signature_index(sig.signer_did, sig.intent) == match c.signature_index(
            sig.signer_did,
            sig.intent,
        ) {
            Some(i) => Some(i),
            None => Some(c.signatures.len() as int),
        },
        forall|signer: Seq<char>, intent: SignatureIntent|
            c.signature_index(signer, intent).is_some() ==> #[trigger] c.with_signature(sig).signature_index(
                signer,
                intent,
            ).is_some(),
{
    let after = c.with_signature(sig);
    let cond = signed_by(sig.signer_did, sig.intent);
    lemma_first_index(c.signatures, cond);
    let k = match c.signature_index(sig.signer_did, sig.intent) {
        Some(i) => i,
        None => c.signatures.len() as int,
    };
    assert(cond(after.signatures[k]));
    assert forall|j: int| 0 <= j < k implies !cond(#[trigger] after.signatures[j]) by {
        assert(after.signatures[j] == c.signatures[j]);
    }
    lemma_first_index_is(after.signatures, cond, k);
    assert forall|signer: Seq<char>, intent: SignatureIntent| c.signature_index(signer, intent).is_some() implies #[trigger] after.signature_index(
        signer,
        intent,
    ).is_some() by {
        let other = signed_by(signer, intent);
        lemma_first_index(c.signatures, other);
        lemma_first_index(after.signatures, other);
        let i = c.signature_index(signer, intent).unwrap();
        if i == k {
            assert(other(c.signatures[i]));
            assert(other(after.signatures[i]));
        } else {
            assert(after.signatures[i] == c.signatures[i]);
            assert(other(after.signatures[i]));
        }
    }
}

/// Recording the same signature twice is recording it once.
pub proof fn lemma_with_signature_idempotent(c: EscrowContractView, sig: EscrowSignatureView)
    ensures
        c.with_signature(sig).with_signature(sig) == c.with_signature(sig),
{
    lemma_with_signature(c, sig);
    let once = c.with_signature(sig);
    let k = once.signature_index(sig.signer_did, sig.intent).unwrap();
    lemma_first_index(once.signatures, signed_by(sig.signer_did, sig.intent));
    assert(once.signatures.update(k, sig) =~= once.signatures);
}

/// Replacing a contract makes it the contract that is found under its
/// identifier, leaves every other contract as it was, and keeps the
/// contracts well formed.
pub proof fn lemma_with_contract(e: EscrowView, c: EscrowContractView)
    requires
        e.wf(),
        e.contract(c.id).is_some(),
        c.wf(),
    ensures
        e.with_contract(c).wf(),
        e.with_contract(c).contract(c.id) == Some(c),
        forall|other: Seq<char>| other != c.id ==> #[trigger] e.with_contract(c).contract(other) == e.contract(other),
{
    let after = e.with_contract(c);
    lemma_first_index(e.contracts, has_id(c.id));
    let i = e.contract_index(c.id).unwrap();
    assert(has_id(c.id)(after.contracts[i]));
    assert forall|j: int| 0 <= j < i implies !has_id(c.id)(#[trigger] after.contracts[j]) by {
        assert(after.contracts[j] == e.contracts[j]);
    }
    lemma_first_index_is(after.contracts, has_id(c.id), i);
    assert forall|other: Seq<char>| other != c.id implies #[trigger] after.contract(other) == e.contract(other) by {
        lemma_first_index(e.contracts, has_id(other));
        match e.contract_index(other) {
            Some(k) => {
                assert(after.contracts[k] == e.contracts[k]);
                assert forall|j: int| 0 <= j < k implies !has_id(other)(#[trigger] after.contracts[j]) by {
                    if j != i {
                        assert(after.contracts[j] == e.contracts[j]);
                    }
                }
                lemma_first_index_is(after.contracts, has_id(other), k);
            },
            None => {
                assert forall|j: int| 0 <= j < after.contracts.len() implies !has_id(other)(
                    #[trigger] after.contracts[j],
                ) by {
                    if j != i {
                        assert(after.contracts[j] == e.contracts[j]);
                    }
                }
                lemma_first_index_none(after.contracts, has_id(other));
            },
        }
    }
    assert forall|j: int| 0 <= j < after.contracts.len() implies (#[trigger] after.contracts[j]).wf() by {
        if j != i {
            assert(after.contracts[j] == e.contracts[j]);
        }
    }
}

/// Whether every contract of `before` is still there in `after`, in the
/// same state or in one that the state machine leads to from it, and with
/// every signature it had.
pub open spec fn follows_graph(before: EscrowView, after: EscrowView) -> bool {
    forall|id: Seq<char>| #[trigger]
        before.contract(id).is_some() ==> {
            let old_c = before.contract(id).unwrap();
            &&& after.contract(id).is_some()
            &&& (after.contract(id).unwrap().state == old_c.state || has_transition(
                old_c.state,
                after.contract(id).unwrap().state,
            ))
            &&& forall|signer: Seq<char>, intent: SignatureIntent|
                old_c.signature_index(signer, intent).is_some() ==> #[trigger] after.contract(id).unwrap().signature_index(
                    signer,
                    intent,
                ).is_some()
        }
}

proof fn lemma_replacement_follows_graph(e: EscrowView, c: EscrowContractView)
    requires
        e.wf(),
        e.contract(c.id).is_some(),
        c.wf(),
        c.state == e.contract(c.id).unwrap().state || has_transition(e.contract(c.id).unwrap().state, c.state),
        forall|signer: Seq<char>, intent: SignatureIntent|
            e.contract(c.id).unwrap().signature_index(signer, intent).is_some() ==> #[trigger] c.signature_index(
                signer,
                intent,
            ).is_some(),
    ensures
        e.with_contract(c).wf(),
        follows_graph(e, e.with_contract(c)),
{
    lemma_with_contract(e, c);
    let after = e.with_contract(c);
    assert forall|id: Seq<char>| #[trigger] e.contract(id).is_some() implies {
        let old_c = e.contract(id).unwrap();
        &&& after.contract(id).is_some()
        &&& (after.contract(id).unwrap().state == old_c.state || has_transition(
            old_c.state,
            after.contract(id).unwrap().state,
        ))
        &&& forall|signer: Seq<char>, intent: SignatureIntent|
            old_c.signature_index(signer, intent).is_some() ==> #[trigger] after.contract(id).unwrap().signature_index(
                signer,
                intent,
            ).is_some()
    } by {
        if id != c.id {
            assert(after.contract(id) == e.contract(id));
        }
    }
}

/// Every operation that the manager accepts moves a contract along the
/// state machine or leaves its state alone, touches no other contract, and
/// removes no signature. In particular nothing leads out of `Completed` or
/// `Refunded`.
pub proof fn lemma_operations_follow_graph(
    e: EscrowView,
    id: Seq<char>,
    sig: EscrowSignatureView,
    signature_valid: bool,
    released: bool,
)
    requires
        e.wf(),
    ensures
        follows_graph(e, e.moved(id, EscrowState::Created, EscrowState::Funded)),
        follows_graph(e, e.moved(id, EscrowState::Funded, EscrowState::InProgress)),
        follows_graph(e, e.add_signature(id, sig, signature_valid)),
        follows_graph(e, e.raise_dispute(id, sig.signer_did)),
        follows_graph(e, e.resolve_dispute(id, sig, signature_valid)),
        follows_graph(e, e.settle(id, sig.intent, released)),
        e.moved(id, EscrowState::Created, EscrowState::Funded).wf(),
        e.moved(id, EscrowState::Funded, EscrowState::InProgress).wf(),
        e.add_signature(id, sig, signature_valid).wf(),
        e.raise_dispute(id, sig.signer_did).wf(),
        e.resolve_dispute(id, sig, signature_valid).wf(),
        e.settle(id, sig.intent, released).wf(),
{
    lemma_first_index(e.contracts, has_id(id));
    match e.contract(id) {
        None => {},
        Some(c) => {
            assert(c.id == id);
            assert(c.wf());
            if c.state == EscrowState::Created {
                lemma_replacement_follows_graph(e, EscrowContractView { state: EscrowState::Funded, ..c });
            }
            if c.state == EscrowState::Funded {
                lemma_replacement_follows_graph(e, EscrowContractView { state: EscrowState::InProgress, ..c });
            }
            if c.dispute_refusal(sig.signer_did).is_none() {
                lemma_replacement_follows_graph(e, EscrowContractView { state: EscrowState::Disputed, ..c });
            }
            if c.settlement_refusal(sig.intent, released).is_none() {
                lemma_replacement_follows_graph(e, EscrowContractView { state: settled_state(sig.intent), ..c });
            }
            if c.authorizes(sig.signer_did) {
                lemma_with_signature(c, sig);
                lemma_signature_keeps_wf(c, sig);
                lemma_replacement_follows_graph(e, c.with_signature(sig));
            }
        },
    }
}

/// The condition "is completed or refunded".
pub open spec fn settled() -> spec_fn(EscrowContractView) -> bool {
    |c: EscrowContractView| is_terminal(c.state)
}

/// The condition "has left the state `Created`".
pub open spec fn funded_once() -> spec_fn(EscrowContractView) -> bool {
    |c: EscrowContractView| c.state != EscrowState::Created
}

/// How many of `s` are in `state`.
pub open spec fn count_in(s: Seq<EscrowContractView>, state: EscrowState) -> nat {
    s.filter(in_state(state)).len()
}

/// Whether `after` holds the contracts of `before`, each in its place and
/// each in the state it was in or in one that a single transition leads to.
pub open spec fn stepped(before: Seq<EscrowContractView>, after: Seq<EscrowContractView>) -> bool {
    &&& after.len() == before.len()
    &&& forall|i: int|
        0 <= i < before.len() ==> (#[trigger] after[i]).id == before[i].id && (after[i].state == before[i].state
            || has_transition(before[i].state, after[i].state))
}

/// Whether `after` holds the contracts of `before`, each in its place and
/// each in a state that can be reached from the one it was in.
pub open spec fn moved_along(before: Seq<EscrowContractView>, after: Seq<EscrowContractView>) -> bool {
    &&& after.len() == before.len()
    &&& forall|i: int|
        0 <= i < before.len() ==> (#[trigger] after[i]).id == before[i].id && reachable(
            before[i].state,
            after[i].state,
        )
}

/// Every contract is in exactly one state: the counts by state add up to the
/// number of contracts, those of the two final states to the number of
/// settled contracts, and all but the count of `Created` to the number of
/// contracts that were funded once.
pub proof fn lemma_counts_add_up(s: Seq<EscrowContractView>)
    ensures
        count_in(s, EscrowState::Created) + count_in(s, EscrowState::Funded) + count_in(s, EscrowState::InProgress)
            + count_in(s, EscrowState::Completed) + count_in(s, EscrowState::Disputed) + count_in(
            s,
            EscrowState::Refunded,
        ) == s.len(),
        s.filter(settled()).len() == count_in(s, EscrowState::Completed) + count_in(s, EscrowState::Refunded),
        s.filter(funded_once()).len() + count_in(s, EscrowState::Created) == s.len(),
    decreases s.len(),
{
    reveal(Seq::filter);
    if s.len() > 0 {
        lemma_counts_add_up(s.drop_last());
    }
}

/// The counts that the manager reports add up: every contract is counted in
/// exactly one state.
pub proof fn lemma_stats_add_up(e: EscrowView)
    requires
        e.contracts.len() <= usize::MAX,
    ensures
        e.stats().total_contracts == e.stats().created + e.stats().funded + e.stats().in_progress
            + e.stats().completed + e.stats().disputed + e.stats().refunded,
{
    lemma_counts_add_up(e.contracts);
}

/// Every operation on a contract that the manager accepts leaves every
/// contract in its place, and in its state or one transition further.
pub proof fn lemma_operations_step(
    e: EscrowView,
    id: Seq<char>,
    sig: EscrowSignatureView,
    signature_valid: bool,
    released: bool,
)
    requires
        e.wf(),
    ensures
        stepped(e.contracts, e.moved(id, EscrowState::Created, EscrowState::Funded).contracts),
        stepped(e.contracts, e.moved(id, EscrowState::Funded, EscrowState::InProgress).contracts),
        stepped(e.contracts, e.add_signature(id, sig, signature_valid).contracts),
        stepped(e.contracts, e.raise_dispute(id, sig.signer_did).contracts),
        stepped(e.contracts, e.resolve_dispute(id, sig, signature_valid).contracts),
        stepped(e.contracts, e.settle(id, sig.intent, released).contracts),
{
    lemma_first_index(e.contracts, has_id(id));
    match e.contract(id) {
        None => {},
        Some(c) => {
            assert(c.id == id);
            let i = e.contract_index(id).unwrap();
            assert(c == e.contracts[i]);
            assert(e.with_contract(EscrowContractView { state: EscrowState::Funded, ..c }).contracts
                == e.contracts.update(i, EscrowContractView { state: EscrowState::Funded, ..c }));
            assert(e.with_contract(EscrowContractView { state: EscrowState::InProgress, ..c }).contracts
                == e.contracts.update(i, EscrowContractView { state: EscrowState::InProgress, ..c }));
            assert(e.with_contract(EscrowContractView { state: EscrowState::Disputed, ..c }).contracts
                == e.contracts.update(i, EscrowContractView { state: EscrowState::Disputed, ..c }));
            assert(e.with_contract(EscrowContractView { state: settled_state(sig.intent), ..c }).contracts
                == e.contracts.update(i, EscrowContractView { state: settled_state(sig.intent), ..c }));
            assert(e.with_contract(c.with_signature(sig)).contracts == e.contracts.update(i, c.with_signature(sig)));
        },
    }
}

/// One transition is a way of reaching, and what is reached in turn is
/// reached: contracts that step, or move along and move along again, have
/// moved along.
pub proof fn lemma_moved_along(
    first: Seq<EscrowContractView>,
    second: Seq<EscrowContractView>,
    third: Seq<EscrowContractView>,
)
    ensures
        moved_along(first, first),
        stepped(first, second) ==> moved_along(first, second),
        moved_along(first, second) && moved_along(second, third) ==> moved_along(first, third),
{
    if stepped(first, second) {
        assert forall|i: int| 0 <= i < first.len() implies (#[trigger] second[i]).id == first[i].id && reachable(
            first[i].state,
            second[i].state,
        ) by {
            lemma_reachable(first[i].state, second[i].state, second[i].state);
        }
    }
    if moved_along(first, second) && moved_along(second, third) {
        assert forall|i: int| 0 <= i < first.len() implies (#[trigger] third[i]).id == first[i].id && reachable(
            first[i].state,
            third[i].state,
        ) by {
            assert(second[i].id == first[i].id);
            lemma_reachable(first[i].state, second[i].state, third[i].state);
        }
    }
}

/// While contracts only move along the state machine, and none is created
/// or removed, the final states are never left and `Created` is never
/// entered: the counts of completed and of refunded contracts do not fall,
/// and the count of created contracts does not rise.
pub proof fn lemma_counts_move_along(before: Seq<EscrowContractView>, after: Seq<EscrowContractView>)
    requires
        moved_along(before, after),
    ensures
        count_in(after, EscrowState::Completed) >= count_in(before, EscrowState::Completed),
        count_in(after, EscrowState::Refunded) >= count_in(before, EscrowState::Refunded),
        count_in(after, EscrowState::Created) <= count_in(before, EscrowState::Created),
{
    assert forall|i: int| 0 <= i < before.len() implies (in_state(EscrowState::Completed)(#[trigger] before[i])
        ==> in_state(EscrowState::Completed)(after[i])) by {
        assert(after[i].id == before[i].id);
    }
    lemma_filter_len_pointwise(before, after, in_state(EscrowState::Completed), in_state(EscrowState::Completed));
    assert forall|i: int| 0 <= i < before.len() implies (in_state(EscrowState::Refunded)(#[trigger] before[i])
        ==> in_state(EscrowState::Refunded)(after[i])) by {
        assert(after[i].id == before[i].id);
    }
    lemma_filter_len_pointwise(before, after, in_state(EscrowState::Refunded), in_state(EscrowState::Refunded));
    assert forall|i: int| 0 <= i < after.len() implies (in_state(EscrowState::Created)(#[trigger] after[i])
        ==> in_state(EscrowState::Created)(before[i])) by {
        assert(after[i].id == before[i].id);
    }
    lemma_filter_len_pointwise(after, before, in_state(EscrowState::Created), in_state(EscrowState::Created));
}

/// One operation settles only contracts that had been funded: the settled
/// contracts afterwards are no more than those settled before and those
/// that were funded, in progress or disputed.
pub proof fn lemma_counts_step(before: Seq<EscrowContractView>, after: Seq<EscrowContractView>)
    requires
        stepped(before, after),
    ensures
        count_in(after, EscrowState::Completed) + count_in(after, EscrowState::Refunded) <= count_in(
            before,
            EscrowState::Completed,
        ) + count_in(before, EscrowState::Refunded) + count_in(before, EscrowState::Funded) + count_in(
            before,
            EscrowState::InProgress,
        ) + count_in(before, EscrowState::Disputed),
{
    assert forall|i: int| 0 <= i < after.len() implies (settled()(#[trigger] after[i]) ==> funded_once()(before[i])) by {
        assert(after[i].id == before[i].id);
    }
    lemma_filter_len_pointwise(after, before, settled(), funded_once());
    lemma_counts_add_up(before);
    lemma_counts_add_up(after);
}

/// Every recorded signature verifies against its signer's key over the text
/// that it covers: where this holds before an operation that accepts a
/// signature only if it verifies, it holds afterwards. A change of state
/// touches no signature.
pub proof fn lemma_signing_keeps_verified(e: EscrowView, id: Seq<char>, sig: EscrowSignatureView, signature_valid: bool)
    requires
        e.wf(),
        e.all_verified(),
        signature_valid ==> e.signature_verifies(id, sig),
    ensures
        e.add_signature(id, sig, signature_valid).all_verified(),
        e.resolve_dispute(id, sig, signature_valid).all_verified(),
        forall|from: EscrowState, to: EscrowState| (#[trigger] e.moved(id, from, to)).all_verified(),
        e.raise_dispute(id, sig.signer_did).all_verified(),
        forall|released: bool| (#[trigger] e.settle(id, sig.intent, released)).all_verified(),
{
    lemma_first_index(e.contracts, has_id(id));
    match e.contract(id) {
        None => {},
        Some(c) => {
            let k = e.contract_index(id).unwrap();
            assert(c == e.contracts[k]);
            assert(c.all_verified());
            assert(c.id == id);
            lemma_first_index(c.signatures, signed_by(sig.signer_did, sig.intent));
            if signature_valid {
                let signed = c.with_signature(sig);
                assert forall|i: int| 0 <= i < signed.signatures.len() implies signed.signature_verifies(
                    #[trigger] signed.signatures[i],
                ) by {
                    if signed.signatures[i] != sig {
                        assert(signed.signatures[i] == c.signatures[i]);
                        assert(c.signature_verifies(c.signatures[i]));
                    }
                }
                lemma_replacement_keeps_verified(e, signed);
            }
            assert forall|from: EscrowState, to: EscrowState| (#[trigger] e.moved(id, from, to)).all_verified() by {
                if c.state == from {
                    let m = EscrowContractView { state: to, ..c };
                    assert forall|i: int| 0 <= i < m.signatures.len() implies m.signature_verifies(
                        #[trigger] m.signatures[i],
                    ) by {
                        assert(c.signature_verifies(c.signatures[i]));
                    }
                    lemma_replacement_keeps_verified(e, m);
                }
            }
            assert(e.raise_dispute(id, sig.signer_did) == e || e.raise_dispute(id, sig.signer_did) == e.moved(
                id,
                c.state,
                EscrowState::Disputed,
            ));
            assert forall|released: bool| (#[trigger] e.settle(id, sig.intent, released)).all_verified() by {
                assert(e.settle(id, sig.intent, released) == e || e.settle(id, sig.intent, released) == e.moved(
                    id,
                    c.state,
                    settled_state(sig.intent),
                ));
            }
        },
    }
}

proof fn lemma_replacement_keeps_verified(e: EscrowView, c: EscrowContractView)
    requires
        e.all_verified(),
        e.contract(c.id).is_some(),
        c.all_verified(),
    ensures
        e.with_contract(c).all_verified(),
{
    lemma_first_index(e.contracts, has_id(c.id));
    let after = e.with_contract(c);
    let k = e.contract_index(c.id).unwrap();
    assert forall|i: int| 0 <= i < after.contracts.len() implies (#[trigger] after.contracts[i]).all_verified() by {
        if i != k {
            assert(after.contracts[i] == e.contracts[i]);
        }
    }
}

/// Reachability is what the transitions generate: every transition reaches
/// its target, what is reached from a reached state is reached, and every
/// state that is reached from another is reached through a transition. A
/// dispute on a funded contract reaches no state that the start of work
/// followed by a dispute would not reach.
pub proof fn lemma_reachable(a: EscrowState, b: EscrowState, c: EscrowState)
    ensures
        has_transition(a, b) ==> reachable(a, b),
        reachable(a, b) && reachable(b, c) ==> reachable(a, c),
        reachable(a, b) && a != b ==> exists|via: EscrowState| #[trigger]
            has_transition(a, via) && reachable(via, b) && !(a == EscrowState::Funded && via == EscrowState::Disputed),
{
    if reachable(a, b) && a != b {
        let via = match a {
            EscrowState::Created => EscrowState::Funded,
            EscrowState::Funded => if b == EscrowState::Refunded {
                EscrowState::Refunded
            } else {
                EscrowState::InProgress
            },
            EscrowState::InProgress => if b == EscrowState::Refunded {
                EscrowState::Disputed
            } else {
                b
            },
            _ => b,
        };
        assert(has_transition(a, via) && reachable(via, b));
    }
}

/// Every state that a contract is left in by an accepted operation can be
/// reached, along the state machine, from the state the operation found it
/// in.
pub proof fn lemma_steps_are_reachable(before: EscrowView, after: EscrowView, id: Seq<char>)
    requires
        follows_graph(before, after),
        before.contract(id).is_some(),
    ensures
        after.contract(id).is_some(),
        reachable(before.contract(id).unwrap().state, after.contract(id).unwrap().state),
{
    lemma_reachable(before.contract(id).unwrap().state, after.contract(id).unwrap().state, EscrowState::Created);
}

/// Nothing leads out of `Completed` or `Refunded`, and nothing leads into
/// `Created`.
pub proof fn lemma_terminal_states_are_final(from: EscrowState, to: EscrowState)
    ensures
        is_terminal(from) ==> !has_transition(from, to),
        to != EscrowState::Created || !has_transition(from, to),
{
}

/// Recording the signature of an authorized signer keeps a contract well
/// formed.
pub proof fn lemma_signature_keeps_wf(c: EscrowContractView, sig: EscrowSignatureView)
    requires
        c.wf(),
        c.authorizes(sig.signer_did),
    ensures
        c.with_signature(sig).wf(),
{
    lemma_first_index(c.signatures, signed_by(sig.signer_did, sig.intent));
    let after = c.with_signature(sig);
    assert(forall|d: Seq<char>| after.authorizes(d) == c.authorizes(d));
    match c.signature_index(sig.signer_did, sig.intent) {
        Some(k) => {
            assert(signed_by(sig.signer_did, sig.intent)(c.signatures[k]));
        },
        None => {
            assert(forall|j: int|
                0 <= j < c.signatures.len() ==> !signed_by(sig.signer_did, sig.intent)(#[trigger] c.signatures[j]));
        },
    }
}

/// Adding a signature is idempotent: adding the same signature of the same
/// signer for the same intent a second time changes nothing more, and the
/// second call returns what the first returned.
pub proof fn lemma_add_signature_idempotent(
    e: EscrowView,
    id: Seq<char>,
    sig: EscrowSignatureView,
    signature_valid: bool,
)
    requires
        e.wf(),
    ensures
        e.add_signature(id, sig, signature_valid).add_signature(id, sig, signature_valid) == e.add_signature(
            id,
            sig,
            signature_valid,
        ),
        e.add_signature(id, sig, signature_valid).add_signature_result(id, sig, signature_valid)
            == e.add_signature_result(id, sig, signature_valid),
{
    lemma_first_index(e.contracts, has_id(id));
    match e.contract(id) {
        None => {},
        Some(c) => {
            assert(c.id == id);
            if c.signature_refusal(sig.signer_did, signature_valid).is_none() {
                let once = c.with_signature(sig);
                lemma_signature_keeps_wf(c, sig);
                lemma_with_contract(e, once);
                lemma_with_signature_idempotent(c, sig);
                let after = e.with_contract(once);
                assert(forall|d: Seq<char>| once.authorizes(d) == c.authorizes(d));
                lemma_first_index(after.contracts, has_id(id));
                assert(after.contracts.update(after.contract_index(id).unwrap(), once) =~= after.contracts);
            }
        },
    }
}

/// Whether two states are the same.
pub fn same_state(a: EscrowState, b: EscrowState) -> (r: bool)
    ensures
        r == (a == b),
{
    match (a, b) {
        (EscrowState::Created, EscrowState::Created) => true,
        (EscrowState::Funded, EscrowState::Funded) => true,
        (EscrowState::InProgress, EscrowState::InProgress) => true,
        (EscrowState::Completed, EscrowState::Completed) => true,
        (EscrowState::Disputed, EscrowState::Disputed) => true,
        (EscrowState::Refunded, EscrowState::Refunded) => true,
        _ => false,
    }
}

} // verus!
