//! The command surface: what a request asks for, and the answer that goes
//! back for each outcome. Reading requests and sending answers is left to
//! the caller.

use vstd::prelude::*;
use crate::dht::{bytes_of, text_bytes};
use crate::error::CoreError;
use crate::outside::{base64_decode, base64_decoding, to_uppercase, uppercase_of};
use crate::text::{owned, push_text, same_text};
use crate::types::{opt_text, AOIKey, Currency, MessageResponse, MessageType, ServiceId, TaskId, TaskRequirements};

verus! {

/// Asks to register a service.
#[derive(Debug, Clone, PartialEq, Eq)]
pub struct RegisterServiceRequest {
    pub name: String,
    pub description: String,
    pub price: u64,
}

/// The answer to a [`RegisterServiceRequest`].
#[derive(Debug, Clone, PartialEq, Eq)]
pub struct RegisterServiceResponse {
    pub service_id: String,
    pub success: bool,
    pub message: String,
}

/// Asks for the services that match a query.
#[derive(Debug, Clone, PartialEq, Eq)]
pub struct FindServicesRequest {
    pub query: String,
}

/// Asks to submit a task.
#[derive(Debug, Clone, PartialEq, Eq)]
pub struct SubmitTaskRequest {
    pub service_id: String,
    pub payload: String,
    pub cpu_cores: u32,
    pub memory_mb: u32,
    pub timeout_seconds: u32,
}

/// The answer to a [`SubmitTaskRequest`].
#[derive(Debug, Clone, PartialEq, Eq)]
pub struct SubmitTaskResponse {
    pub task_id: String,
    pub success: bool,
    pub message: String,
}

/// Asks to create an escrow contract for a service.
#[derive(Debug, Clone, PartialEq, Eq)]
pub struct CreateEscrowRequest {
    pub service_id: String,
    pub seller_did: String,
    pub amount: u64,
}

/// The answer to a [`CreateEscrowRequest`].
#[derive(Debug, Clone, PartialEq, Eq)]
pub struct CreateEscrowResponse {
    pub escrow_id: String,
    pub success: bool,
    pub message: String,
}

/// Asks to register key data for a service.
#[derive(Debug, Clone, PartialEq, Eq)]
pub struct RegisterAOIKeyRequest {
    pub service_id: String,
    pub key_data: String,
}

/// The answer to a [`RegisterAOIKeyRequest`].
#[derive(Debug, Clone, PartialEq, Eq)]
pub struct RegisterAOIKeyResponse {
    pub success: bool,
    pub message: String,
}

/// Asks for the key data of a service.
#[derive(Debug, Clone, PartialEq, Eq)]
pub struct GetAOIKeyRequest {
    pub service_id: String,
}

/// The answer to a [`GetAOIKeyRequest`].
#[derive(Debug, Clone, PartialEq, Eq)]
pub struct GetAOIKeyResponse {
    pub key_data: Option<String>,
    pub success: bool,
    pub message: String,
}

/// The text of a failed command: what failed, a colon, and why.
pub open spec fn failure_text(what: Seq<char>, error: CoreError) -> Seq<char> {
    what + ": "@ + error.spec_message()
}

/// The currency that a wallet can pay in with the given capital symbol: any
/// but the native one.
pub open spec fn spec_payable_currency(symbol: Seq<char>) -> Option<Currency> {
    match Currency::spec_from_symbol(symbol) {
        Some(Currency::DUX) => None,
        other => other,
    }
}

/// The kind of message that a word names; a text message for any other
/// word.
pub open spec fn spec_message_type(word: Seq<char>) -> MessageType {
    if word == "file"@ {
        MessageType::File
    } else if word == "service_request"@ {
        MessageType::ServiceRequest
    } else if word == "task_update"@ {
        MessageType::TaskUpdate
    } else if word == "escrow_update"@ {
        MessageType::EscrowUpdate
    } else if word == "reputation_update"@ {
        MessageType::ReputationUpdate
    } else if word == "system"@ {
        MessageType::System
    } else {
        MessageType::Text
    }
}

/// The text of a failed command.
pub fn failure_message(what: &str, error: CoreError) -> (s: String)
    ensures
        s@ == failure_text(what@, error),
{
    let mut s = owned(what);
    push_text(&mut s, ": ");
    push_text(&mut s, error.message().as_str());
    s
}

/// The currency named by `text`, in capitals or not; `None` for any other
/// text.
pub fn parse_currency(text: &str) -> (r: Option<Currency>)
    ensures
        r == Currency::spec_from_symbol(uppercase_of(text@)),
{
    let upper = to_uppercase(text);
    Currency::from_symbol(upper.as_str())
}

/// The currency with the capital symbol `symbol` that a wallet can pay in;
/// `None` for the native currency and for any other text.
pub fn payable_currency(symbol: &str) -> (r: Option<Currency>)
    ensures
        r == spec_payable_currency(symbol@),
{
    match Currency::from_symbol(symbol) {
        Some(Currency::DUX) => None,
        other => other,
    }
}

/// The currency in which received funds are booked: the one with the
/// capital symbol `symbol` that a wallet can pay in, and USDC for any other
/// text.
pub fn received_currency(symbol: &str) -> (r: Currency)
    ensures
        r == match spec_payable_currency(symbol@) {
            Some(c) => c,
            None => Currency::USDC,
        },
{
    match payable_currency(symbol) {
        Some(c) => c,
        None => Currency::USDC,
    }
}

/// The kind of message that `word` names; a text message for any other
/// word.
pub fn message_type_from(word: &str) -> (r: MessageType)
    ensures
        r == spec_message_type(word@),
{
    if same_text(word, "file") {
        MessageType::File
    } else if same_text(word, "service_request") {
        MessageType::ServiceRequest
    } else if same_text(word, "task_update") {
        MessageType::TaskUpdate
    } else if same_text(word, "escrow_update") {
        MessageType::EscrowUpdate
    } else if same_text(word, "reputation_update") {
        MessageType::ReputationUpdate
    } else if same_text(word, "system") {
        MessageType::System
    } else {
        MessageType::Text
    }
}

/// The signature that `text` carries in base64; no bytes where `text` is
/// not valid base64.
pub fn decode_signature(text: &str) -> (r: Vec<u8>)
    ensures
        r@ == match base64_decoding(text@) {
            Some(bytes) => bytes,
            None => Seq::empty(),
        },
{
    match base64_decode(text) {
        Some(bytes) => bytes,
        None => Vec::new(),
    }
}

/// The parts of the task that `request` asks for: the service, the payload
/// as bytes, and the requirements.
pub fn task_from_request(request: &SubmitTaskRequest) -> (r: (ServiceId, Vec<u8>, TaskRequirements))
    ensures
        r.0.0@ == request.service_id@,
        r.1@ == text_bytes(request.payload@),
        r.2 == (TaskRequirements {
            cpu_cores: request.cpu_cores,
            memory_mb: request.memory_mb,
            timeout_seconds: request.timeout_seconds,
        }),
{
    (
        ServiceId(request.service_id.clone()),
        bytes_of(request.payload.as_str()),
        TaskRequirements {
            cpu_cores: request.cpu_cores,
            memory_mb: request.memory_mb,
            timeout_seconds: request.timeout_seconds,
        },
    )
}

/// The answer to a request to register a service.
pub fn register_service_response(outcome: Result<ServiceId, CoreError>) -> (r: RegisterServiceResponse)
    ensures
        match outcome {
            Ok(id) => r.service_id@ == id.0@ && r.success && r.message@ == "Service registered successfully"@,
            Err(e) => r.service_id@ == Seq::<char>::empty() && !r.success && r.message@ == failure_text(
                "Failed to register service"@,
                e,
            ),
        },
{
    match outcome {
        Ok(id) => RegisterServiceResponse {
            service_id: id.0,
            success: true,
            message: owned("Service registered successfully"),
        },
        Err(e) => RegisterServiceResponse {
            service_id: String::new(),
            success: false,
            message: failure_message("Failed to register service", e),
        },
    }
}

/// The answer to a request to submit a task.
pub fn submit_task_response(outcome: Result<TaskId, CoreError>) -> (r: SubmitTaskResponse)
    ensures
        match outcome {
            Ok(id) => r.task_id@ == id.0@ && r.success && r.message@ == "Task submitted successfully"@,
            Err(e) => r.task_id@ == Seq::<char>::empty() && !r.success && r.message@ == failure_text(
                "Failed to submit task"@,
                e,
            ),
        },
{
    match outcome {
        Ok(id) => SubmitTaskResponse { task_id: id.0, success: true, message: owned("Task submitted successfully") },
        Err(e) => SubmitTaskResponse {
            task_id: String::new(),
            success: false,
            message: failure_message("Failed to submit task", e),
        },
    }
}

/// The answer to a request to create an escrow contract.
pub fn create_escrow_response(outcome: Result<String, CoreError>) -> (r: CreateEscrowResponse)
    ensures
        match outcome {
            Ok(id) => r.escrow_id@ == id@ && r.success && r.message@ == "Escrow created successfully"@,
            Err(e) => r.escrow_id@ == Seq::<char>::empty() && !r.success && r.message@ == failure_text(
                "Failed to create escrow"@,
                e,
            ),
        },
{
    match outcome {
        Ok(id) => CreateEscrowResponse { escrow_id: id, success: true, message: owned("Escrow created successfully") },
        Err(e) => CreateEscrowResponse {
            escrow_id: String::new(),
            success: false,
            message: failure_message("Failed to create escrow", e),
        },
    }
}

/// The answer to a request to register key data.
pub fn register_aoi_key_response(outcome: Result<(), CoreError>) -> (r: RegisterAOIKeyResponse)
    ensures
        match outcome {
            Ok(()) => r.success && r.message@ == "AOI key registered successfully"@,
            Err(e) => !r.success && r.message@ == failure_text("Failed to register AOI key"@, e),
        },
{
    match outcome {
        Ok(()) => RegisterAOIKeyResponse { success: true, message: owned("AOI key registered successfully") },
        Err(e) => RegisterAOIKeyResponse { success: false, message: failure_message("Failed to register AOI key", e) },
    }
}

/// The answer to a request for key data.
pub fn get_aoi_key_response(key: Option<AOIKey>) -> (r: GetAOIKeyResponse)
    ensures
        match key {
            Some(k) => opt_text(r.key_data) == Some(k.key_data@) && r.success && r.message@ == "AOI key found"@,
            None => r.key_data.is_none() && !r.success && r.message@ == "AOI key not found"@,
        },
{
    match key {
        Some(k) => GetAOIKeyResponse { key_data: Some(k.key_data), success: true, message: owned("AOI key found") },
        None => GetAOIKeyResponse { key_data: None, success: false, message: owned("AOI key not found") },
    }
}

/// The answer to a request to send a message.
pub fn send_message_response(outcome: Result<MessageResponse, CoreError>) -> (r: MessageResponse)
    ensures
        match outcome {
            Ok(sent) => r == sent,
            Err(e) => r.message_id@ == Seq::<char>::empty() && !r.success && r.message@ == failure_text(
                "Failed to send message"@,
                e,
            ),
        },
{
    match outcome {
        Ok(sent) => sent,
        Err(e) => MessageResponse {
            message_id: String::new(),
            success: false,
            message: failure_message("Failed to send message", e),
        },
    }
}

} // verus!
