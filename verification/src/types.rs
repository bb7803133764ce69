//! The records that the components exchange, each with the mathematical
//! value it stands for.

use vstd::prelude::*;
use crate::text::same_text;

verus! {

/// The characters of each string of a list.
pub open spec fn texts(v: Seq<String>) -> Seq<Seq<char>> {
    v.map_values(|s: String| s@)
}

/// The bytes of an optional byte string.
pub open spec fn opt_bytes(v: Option<Vec<u8>>) -> Option<Seq<u8>> {
    match v {
        Some(b) => Some(b@),
        None => None,
    }
}

/// A copy of a list of strings.
pub fn clone_texts(v: &Vec<String>) -> (r: Vec<String>)
    ensures
        texts(r@) == texts(v@),
{
    let mut r: Vec<String> = Vec::new();
    let mut i: usize = 0;
    while i < v.len()
        invariant
            i <= v.len(),
            r.len() == i,
            forall|j: int| 0 <= j < i ==> r@[j]@ == v@[j]@,
        decreases v.len() - i,
    {
        r.push(v[i].clone());
        i = i + 1;
    }
    assert(texts(r@) =~= texts(v@));
    r
}

/// Identifier of a node.
#[derive(Debug, Clone, PartialEq, Eq, Hash)]
pub struct NodeId(pub String);

/// Identifier of an advertised service.
#[derive(Debug, Clone, PartialEq, Eq, Hash)]
pub struct ServiceId(pub String);

/// Identifier of a task.
#[derive(Debug, Clone, PartialEq, Eq, Hash)]
pub struct TaskId(pub String);

/// A decentralized identity record. Immutable once published.
#[derive(Debug, Clone, PartialEq, Eq)]
pub struct DID {
    pub id: String,
    pub public_key: Vec<u8>,
    pub endpoints: Vec<String>,
    pub created_at: u64,
}

/// The currencies that the node knows. `DUX` is the native one.
#[derive(Debug, Clone, Copy, PartialEq, Eq, Hash, Structural)]
pub enum Currency {
    BTC,
    ETH,
    USDC,
    LTC,
    XMR,
    DOGE,
    DUX,
}

impl Currency {
    /// The ticker symbol, in capitals.
    pub open spec fn spec_symbol(self) -> Seq<char> {
        match self {
            Currency::BTC => "BTC"@,
            Currency::ETH => "ETH"@,
            Currency::USDC => "USDC"@,
            Currency::LTC => "LTC"@,
            Currency::XMR => "XMR"@,
            Currency::DOGE => "DOGE"@,
            Currency::DUX => "DUX"@,
        }
    }

    /// The ticker symbol, in small letters.
    pub open spec fn spec_symbol_lowercase(self) -> Seq<char> {
        match self {
            Currency::BTC => "btc"@,
            Currency::ETH => "eth"@,
            Currency::USDC => "usdc"@,
            Currency::LTC => "ltc"@,
            Currency::XMR => "xmr"@,
            Currency::DOGE => "doge"@,
            Currency::DUX => "dux"@,
        }
    }

    /// Whether a community fund is kept for this currency: for every
    /// currency but the native one.
    pub open spec fn spec_has_fund(self) -> bool {
        self != Currency::DUX
    }

    /// The currency with the given capital symbol, if there is one.
    pub open spec fn spec_from_symbol(s: Seq<char>) -> Option<Currency> {
        if s == "BTC"@ {
            Some(Currency::BTC)
        } else if s == "ETH"@ {
            Some(Currency::ETH)
        } else if s == "USDC"@ {
            Some(Currency::USDC)
        } else if s == "LTC"@ {
            Some(Currency::LTC)
        } else if s == "XMR"@ {
            Some(Currency::XMR)
        } else if s == "DOGE"@ {
            Some(Currency::DOGE)
        } else if s == "DUX"@ {
            Some(Currency::DUX)
        } else {
            None
        }
    }

    /// The ticker symbol, in capitals.
    pub fn symbol(&self) -> (s: &'static str)
        ensures
            s@ == self.spec_symbol(),
    {
        match self {
            Currency::BTC => "BTC",
            Currency::ETH => "ETH",
            Currency::USDC => "USDC",
            Currency::LTC => "LTC",
            Currency::XMR => "XMR",
            Currency::DOGE => "DOGE",
            Currency::DUX => "DUX",
        }
    }

    /// The ticker symbol, in small letters.
    pub fn symbol_lowercase(&self) -> (s: &'static str)
        ensures
            s@ == self.spec_symbol_lowercase(),
    {
        match self {
            Currency::BTC => "btc",
            Currency::ETH => "eth",
            Currency::USDC => "usdc",
            Currency::LTC => "ltc",
            Currency::XMR => "xmr",
            Currency::DOGE => "doge",
            Currency::DUX => "dux",
        }
    }

    /// Whether a community fund is kept for this currency.
    #[verifier::when_used_as_spec(spec_has_fund)]
    pub fn has_fund(self) -> (r: bool)
        ensures
            r == self.spec_has_fund(),
    {
        match self {
            Currency::DUX => false,
            _ => true,
        }
    }

    /// The currency with the given capital symbol, if there is one.
    pub fn from_symbol(s: &str) -> (r: Option<Currency>)
        ensures
            r == Currency::spec_from_symbol(s@),
    {
        if same_text(s, "BTC") {
            Some(Currency::BTC)
        } else if same_text(s, "ETH") {
            Some(Currency::ETH)
        } else if same_text(s, "USDC") {
            Some(Currency::USDC)
        } else if same_text(s, "LTC") {
            Some(Currency::LTC)
        } else if same_text(s, "XMR") {
            Some(Currency::XMR)
        } else if same_text(s, "DOGE") {
            Some(Currency::DOGE)
        } else if same_text(s, "DUX") {
            Some(Currency::DUX)
        } else {
            None
        }
    }
}

/// Where an escrow contract stands.
#[derive(Debug, Clone, Copy, PartialEq, Eq, Structural)]
pub enum EscrowState {
    Created,
    Funded,
    InProgress,
    Completed,
    Disputed,
    Refunded,
}

/// What a signature on an escrow contract asks for.
#[derive(Debug, Clone, Copy, PartialEq, Eq, Structural)]
pub enum SignatureIntent {
    /// Pay the seller.
    Release,
    /// Pay the buyer back.
    Refund,
}

/// One signature collected on an escrow contract.
#[derive(Debug, PartialEq, Eq)]
pub struct EscrowSignature {
    pub signer_did: String,
    pub intent: SignatureIntent,
    pub signature: Vec<u8>,
}

/// What an [`EscrowSignature`] stands for.
pub struct EscrowSignatureView {
    pub signer_did: Seq<char>,
    pub intent: SignatureIntent,
    pub signature: Seq<u8>,
}

impl View for EscrowSignature {
    type V = EscrowSignatureView;

    open spec fn view(&self) -> EscrowSignatureView {
        EscrowSignatureView { signer_did: self.signer_did@, intent: self.intent, signature: self.signature@ }
    }
}

impl DeepView for EscrowSignature {
    type V = EscrowSignatureView;

    open spec fn deep_view(&self) -> EscrowSignatureView {
        self@
    }
}

impl Clone for EscrowSignature {
    fn clone(&self) -> (r: Self)
        ensures
            r@ == self@,
    {
        EscrowSignature { signer_did: self.signer_did.clone(), intent: self.intent, signature: self.signature.clone() }
    }
}

/// A multi-party escrow contract.
#[derive(Debug, PartialEq, Eq)]
pub struct EscrowContract {
    pub id: String,
    pub buyer_did: String,
    pub seller_did: String,
    pub arbiters: Vec<String>,
    pub amount: u64,
    pub state: EscrowState,
    pub multisig_address: String,
    pub signatures: Vec<EscrowSignature>,
    pub created_at: u64,
}

/// What an [`EscrowContract`] stands for.
pub struct EscrowContractView {
    pub id: Seq<char>,
    pub buyer_did: Seq<char>,
    pub seller_did: Seq<char>,
    pub arbiters: Seq<Seq<char>>,
    pub amount: u64,
    pub state: EscrowState,
    pub multisig_address: Seq<char>,
    pub signatures: Seq<EscrowSignatureView>,
    pub created_at: u64,
}

impl View for EscrowContract {
    type V = EscrowContractView;

    open spec fn view(&self) -> EscrowContractView {
        EscrowContractView {
            id: self.id@,
            buyer_did: self.buyer_did@,
            seller_did: self.seller_did@,
            arbiters: texts(self.arbiters@),
            amount: self.amount,
            state: self.state,
            multisig_address: self.multisig_address@,
            signatures: self.signatures.deep_view(),
            created_at: self.created_at,
        }
    }
}

impl DeepView for EscrowContract {
    type V = EscrowContractView;

    open spec fn deep_view(&self) -> EscrowContractView {
        self@
    }
}

/// A copy of a list of signatures.
pub fn clone_signatures(v: &Vec<EscrowSignature>) -> (r: Vec<EscrowSignature>)
    ensures
        r.deep_view() == v.deep_view(),
{
    let mut r: Vec<EscrowSignature> = Vec::new();
    let mut i: usize = 0;
    while i < v.len()
        invariant
            i <= v.len(),
            r.len() == i,
            forall|j: int| 0 <= j < i ==> r@[j]@ == v@[j]@,
        decreases v.len() - i,
    {
        r.push(v[i].clone());
        i = i + 1;
    }
    assert(r.deep_view() =~= v.deep_view());
    r
}

impl Clone for EscrowContract {
    fn clone(&self) -> (r: Self)
        ensures
            r@ == self@,
    {
        EscrowContract {
            id: self.id.clone(),
            buyer_did: self.buyer_did.clone(),
            seller_did: self.seller_did.clone(),
            arbiters: clone_texts(&self.arbiters),
            amount: self.amount,
            state: self.state,
            multisig_address: self.multisig_address.clone(),
            signatures: clone_signatures(&self.signatures),
            created_at: self.created_at,
        }
    }
}

/// What a task asks of its processor.
#[derive(Debug, Clone, Copy, PartialEq, Eq, Structural)]
pub struct TaskRequirements {
    pub cpu_cores: u32,
    pub memory_mb: u32,
    pub timeout_seconds: u32,
}

/// A unit of work bound to an escrow contract.
#[derive(Debug, PartialEq, Eq)]
pub struct Task {
    pub id: TaskId,
    pub escrow_id: String,
    pub service_id: ServiceId,
    pub payload: Vec<u8>,
    pub requirements: TaskRequirements,
    pub created_at: u64,
}

/// What a [`Task`] stands for.
pub struct TaskView {
    pub id: Seq<char>,
    pub escrow_id: Seq<char>,
    pub service_id: Seq<char>,
    pub payload: Seq<u8>,
    pub requirements: TaskRequirements,
    pub created_at: u64,
}

impl View for Task {
    type V = TaskView;

    open spec fn view(&self) -> TaskView {
        TaskView {
            id: self.id.0@,
            escrow_id: self.escrow_id@,
            service_id: self.service_id.0@,
            payload: self.payload@,
            requirements: self.requirements,
            created_at: self.created_at,
        }
    }
}

impl DeepView for Task {
    type V = TaskView;

    open spec fn deep_view(&self) -> TaskView {
        self@
    }
}

impl Clone for Task {
    fn clone(&self) -> (r: Self)
        ensures
            r@ == self@,
    {
        Task {
            id: TaskId(self.id.0.clone()),
            escrow_id: self.escrow_id.clone(),
            service_id: ServiceId(self.service_id.0.clone()),
            payload: self.payload.clone(),
            requirements: self.requirements,
            created_at: self.created_at,
        }
    }
}

/// What a processor hands back for a task.
#[derive(Debug, PartialEq, Eq)]
pub struct TaskResult {
    pub task_id: TaskId,
    pub processor_did: String,
    pub result: Vec<u8>,
    pub proof: Vec<u8>,
    pub completed_at: u64,
}

/// What a [`TaskResult`] stands for.
pub struct TaskResultView {
    pub task_id: Seq<char>,
    pub processor_did: Seq<char>,
    pub result: Seq<u8>,
    pub proof: Seq<u8>,
    pub completed_at: u64,
}

impl View for TaskResult {
    type V = TaskResultView;

    open spec fn view(&self) -> TaskResultView {
        TaskResultView {
            task_id: self.task_id.0@,
            processor_did: self.processor_did@,
            result: self.result@,
            proof: self.proof@,
            completed_at: self.completed_at,
        }
    }
}

impl DeepView for TaskResult {
    type V = TaskResultView;

    open spec fn deep_view(&self) -> TaskResultView {
        self@
    }
}

impl Clone for TaskResult {
    fn clone(&self) -> (r: Self)
        ensures
            r@ == self@,
    {
        TaskResult {
            task_id: TaskId(self.task_id.0.clone()),
            processor_did: self.processor_did.clone(),
            result: self.result.clone(),
            proof: self.proof.clone(),
            completed_at: self.completed_at,
        }
    }
}

/// What a direct message is about.
#[derive(Debug, Clone, Copy, PartialEq, Eq, Structural)]
pub enum MessageType {
    Text,
    File,
    ServiceRequest,
    TaskUpdate,
    EscrowUpdate,
    ReputationUpdate,
    System,
}

/// A signed direct message.
#[derive(Debug, PartialEq, Eq)]
pub struct Message {
    pub id: String,
    pub from_did: String,
    pub to_did: String,
    pub content: String,
    pub message_type: MessageType,
    pub timestamp: u64,
    pub signature: Vec<u8>,
    pub is_read: bool,
    pub reply_to: Option<String>,
}

/// What a [`Message`] stands for.
pub struct MessageView {
    pub id: Seq<char>,
    pub from_did: Seq<char>,
    pub to_did: Seq<char>,
    pub content: Seq<char>,
    pub message_type: MessageType,
    pub timestamp: u64,
    pub signature: Seq<u8>,
    pub is_read: bool,
    pub reply_to: Option<Seq<char>>,
}

/// The characters of an optional string.
pub open spec fn opt_text(s: Option<String>) -> Option<Seq<char>> {
    match s {
        Some(t) => Some(t@),
        None => None,
    }
}

/// A copy of an optional string.
pub fn clone_opt_text(s: &Option<String>) -> (r: Option<String>)
    ensures
        opt_text(r) == opt_text(*s),
{
    match s {
        Some(t) => Some(t.clone()),
        None => None,
    }
}

impl View for Message {
    type V = MessageView;

    open spec fn view(&self) -> MessageView {
        MessageView {
            id: self.id@,
            from_did: self.from_did@,
            to_did: self.to_did@,
            content: self.content@,
            message_type: self.message_type,
            timestamp: self.timestamp,
            signature: self.signature@,
            is_read: self.is_read,
            reply_to: opt_text(self.reply_to),
        }
    }
}

impl DeepView for Message {
    type V = MessageView;

    open spec fn deep_view(&self) -> MessageView {
        self@
    }
}

impl Clone for Message {
    fn clone(&self) -> (r: Self)
        ensures
            r@ == self@,
    {
        Message {
            id: self.id.clone(),
            from_did: self.from_did.clone(),
            to_did: self.to_did.clone(),
            content: self.content.clone(),
            message_type: self.message_type,
            timestamp: self.timestamp,
            signature: self.signature.clone(),
            is_read: self.is_read,
            reply_to: clone_opt_text(&self.reply_to),
        }
    }
}

/// What a caller hands in to send a message.
#[derive(Debug, Clone, PartialEq, Eq)]
pub struct MessageRequest {
    pub to_did: String,
    pub content: String,
    pub message_type: MessageType,
    pub reply_to: Option<String>,
}

/// What a caller gets back after sending a message.
#[derive(Debug, Clone, PartialEq, Eq)]
pub struct MessageResponse {
    pub message_id: String,
    pub success: bool,
    pub message: String,
}

/// The running summary of the exchange with one peer.
#[derive(Debug, PartialEq, Eq)]
pub struct Conversation {
    pub peer_did: String,
    pub last_message: Option<Message>,
    pub unread_count: usize,
    pub message_count: usize,
}

/// What a [`Conversation`] stands for.
pub struct ConversationView {
    pub peer_did: Seq<char>,
    pub last_message: Option<MessageView>,
    pub unread_count: usize,
    pub message_count: usize,
}

/// What an optional message stands for.
pub open spec fn opt_message(m: Option<Message>) -> Option<MessageView> {
    match m {
        Some(x) => Some(x@),
        None => None,
    }
}

impl View for Conversation {
    type V = ConversationView;

    open spec fn view(&self) -> ConversationView {
        ConversationView {
            peer_did: self.peer_did@,
            last_message: opt_message(self.last_message),
            unread_count: self.unread_count,
            message_count: self.message_count,
        }
    }
}

impl DeepView for Conversation {
    type V = ConversationView;

    open spec fn deep_view(&self) -> ConversationView {
        self@
    }
}

impl Clone for Conversation {
    fn clone(&self) -> (r: Self)
        ensures
            r@ == self@,
    {
        let last = match &self.last_message {
            Some(m) => Some(m.clone()),
            None => None,
        };
        Conversation {
            peer_did: self.peer_did.clone(),
            last_message: last,
            unread_count: self.unread_count,
            message_count: self.message_count,
        }
    }
}

/// Secret-holder key data registered for a service.
#[derive(Debug, Clone, PartialEq, Eq)]
pub struct AOIKey {
    pub service_id: ServiceId,
    pub key_data: String,
    pub created_at: u64,
}

/// The community fund of one currency.
#[derive(Debug, Clone, Copy, PartialEq, Eq, Structural)]
pub struct CommunityFund {
    pub currency: Currency,
    pub balance: u64,
    pub last_distribution: u64,
    pub total_distributed: u64,
    pub distribution_count: u64,
}

/// One line of the community fund report.
#[derive(Debug, Clone, PartialEq, Eq)]
pub struct CommunityFundBalance {
    pub currency: String,
    pub balance: u64,
    pub formatted_balance: String,
    pub last_distribution: u64,
    pub next_distribution: u64,
    pub total_distributed: u64,
    pub distribution_count: u64,
}

/// What a [`CommunityFundBalance`] stands for.
pub struct CommunityFundBalanceView {
    pub currency: Seq<char>,
    pub balance: u64,
    pub formatted_balance: Seq<char>,
    pub last_distribution: u64,
    pub next_distribution: u64,
    pub total_distributed: u64,
    pub distribution_count: u64,
}

impl View for CommunityFundBalance {
    type V = CommunityFundBalanceView;

    open spec fn view(&self) -> CommunityFundBalanceView {
        CommunityFundBalanceView {
            currency: self.currency@,
            balance: self.balance,
            formatted_balance: self.formatted_balance@,
            last_distribution: self.last_distribution,
            next_distribution: self.next_distribution,
            total_distributed: self.total_distributed,
            distribution_count: self.distribution_count,
        }
    }
}

impl DeepView for CommunityFundBalance {
    type V = CommunityFundBalanceView;

    open spec fn deep_view(&self) -> CommunityFundBalanceView {
        self@
    }
}

/// The outcome of one distribution of a community fund.
#[derive(Debug, Clone, PartialEq, Eq)]
pub struct CommunityFundDistribution {
    pub currency: Currency,
    pub amount_per_user: u64,
    pub total_users: usize,
    pub distribution_timestamp: u64,
    pub transaction_ids: Vec<String>,
}

} // verus!
