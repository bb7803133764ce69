//! What can go wrong, and the class each failure belongs to.

use vstd::prelude::*;
use crate::text::owned;

verus! {

/// How often an operation that failed for an external reason is tried
/// again.
pub const MAX_RETRIES: u32 = 5;

/// The six classes of failure.
#[derive(Clone, Copy, Debug, PartialEq, Eq, Structural)]
pub enum ErrorKind {
    /// A signature does not verify, or the signer may not do this.
    Auth,
    /// The transition asked for is not allowed in the current state.
    State,
    /// The thing named does not exist.
    NotFound,
    /// A condition that the operation needs does not hold.
    Precondition,
    /// A collaborator failed; the caller may try again.
    External,
    /// A stored or received payload is malformed.
    Serialization,
}

/// A failure of one of the core's operations.
#[derive(Clone, Copy, Debug, PartialEq, Eq, Structural)]
pub enum CoreError {
    /// The signature did not verify against the signer's key.
    BadSignature,
    /// The identity is not among those allowed to act here.
    NotAuthorized,
    /// The escrow contract is not in a state that allows the transition.
    IllegalTransition,
    /// A task may only be bound to an escrow that is funded.
    EscrowNotFunded,
    /// The task's escrow is neither funded nor in progress.
    EscrowNotActive,
    /// The task is not waiting to be accepted.
    TaskNotPending,
    /// The task is not being processed.
    TaskNotProcessing,
    /// No escrow contract has this identifier.
    EscrowNotFound,
    /// No task has this identifier.
    TaskNotFound,
    /// No community fund exists for this currency.
    FundNotFound,
    /// There is no active identity to distribute to.
    NoRecipients,
    /// The balance does not give every recipient at least one unit.
    InsufficientBalance,
    /// The distribution interval has not yet passed.
    NotDue,
    /// The amount does not fit in the balance.
    BalanceOverflow,
    /// The identifier is already taken.
    DuplicateId,
    /// No distribution transaction could be recorded.
    NothingRecorded,
    /// The wallet did not release the escrowed funds.
    ReleaseFailed,
    /// The payload is not in the expected form.
    Malformed,
}

impl CoreError {
    /// The class of this failure.
    pub open spec fn spec_kind(self) -> ErrorKind {
        match self {
            CoreError::BadSignature | CoreError::NotAuthorized => ErrorKind::Auth,
            CoreError::IllegalTransition
            | CoreError::EscrowNotFunded
            | CoreError::EscrowNotActive
            | CoreError::TaskNotPending
            | CoreError::TaskNotProcessing => ErrorKind::State,
            CoreError::EscrowNotFound | CoreError::TaskNotFound | CoreError::FundNotFound => ErrorKind::NotFound,
            CoreError::NoRecipients
            | CoreError::InsufficientBalance
            | CoreError::NotDue
            | CoreError::BalanceOverflow
            | CoreError::DuplicateId => ErrorKind::Precondition,
            CoreError::NothingRecorded | CoreError::ReleaseFailed => ErrorKind::External,
            CoreError::Malformed => ErrorKind::Serialization,
        }
    }

    /// The class of this failure.
    #[verifier::when_used_as_spec(spec_kind)]
    pub fn kind(self) -> (k: ErrorKind)
        ensures
            k == self.spec_kind(),
    {
        match self {
            CoreError::BadSignature | CoreError::NotAuthorized => ErrorKind::Auth,
            CoreError::IllegalTransition
            | CoreError::EscrowNotFunded
            | CoreError::EscrowNotActive
            | CoreError::TaskNotPending
            | CoreError::TaskNotProcessing => ErrorKind::State,
            CoreError::EscrowNotFound | CoreError::TaskNotFound | CoreError::FundNotFound => ErrorKind::NotFound,
            CoreError::NoRecipients
            | CoreError::InsufficientBalance
            | CoreError::NotDue
            | CoreError::BalanceOverflow
            | CoreError::DuplicateId => ErrorKind::Precondition,
            CoreError::NothingRecorded | CoreError::ReleaseFailed => ErrorKind::External,
            CoreError::Malformed => ErrorKind::Serialization,
        }
    }

    /// Whether the caller may simply try again: only external failures.
    pub fn is_retryable(self) -> (r: bool)
        ensures
            r == (self.spec_kind() == ErrorKind::External),
    {
        match self.kind() {
            ErrorKind::External => true,
            _ => false,
        }
    }

    /// How long to wait before the operation that failed is tried again,
    /// in seconds, after `attempts` attempts: one second after the first,
    /// and twice as long after each further one. `None` where the failure
    /// is not an external one, or the attempts are used up.
    pub open spec fn spec_retry_delay(self, attempts: u32) -> Option<u64> {
        if self.spec_kind() != ErrorKind::External || attempts == 0 || attempts > MAX_RETRIES {
            None
        } else if attempts == 1 {
            Some(1u64)
        } else if attempts == 2 {
            Some(2u64)
        } else if attempts == 3 {
            Some(4u64)
        } else if attempts == 4 {
            Some(8u64)
        } else {
            Some(16u64)
        }
    }

    /// How long to wait before the operation that failed is tried again,
    /// in seconds, after `attempts` attempts.
    pub fn retry_delay(self, attempts: u32) -> (r: Option<u64>)
        ensures
            r == self.spec_retry_delay(attempts),
            r is Some <==> self.spec_kind() == ErrorKind::External && 1 <= attempts <= MAX_RETRIES,
            attempts < MAX_RETRIES && r is Some && attempts >= 1 ==> self.spec_retry_delay((attempts + 1) as u32)
                == Some((2 * r.unwrap()) as u64),
    {
        if !self.is_retryable() || attempts == 0 || attempts > MAX_RETRIES {
            return None;
        }
        let mut delay: u64 = 1;
        let mut k: u32 = 1;
        while k < attempts
            invariant
                1 <= k <= attempts <= MAX_RETRIES,
                self.spec_retry_delay(k) == Some(delay),
                delay <= 16,
            decreases attempts - k,
        {
            delay = delay * 2;
            k = k + 1;
        }
        Some(delay)
    }

    /// The text shown to a user for this failure.
    pub open spec fn spec_message(self) -> Seq<char> {
        match self {
            CoreError::BadSignature => "signature does not verify"@,
            CoreError::NotAuthorized => "signer is not authorized"@,
            CoreError::IllegalTransition => "illegal state transition"@,
            CoreError::EscrowNotFunded => "escrow is not funded"@,
            CoreError::EscrowNotActive => "escrow is neither funded nor in progress"@,
            CoreError::TaskNotPending => "task is not pending"@,
            CoreError::TaskNotProcessing => "task is not being processed"@,
            CoreError::EscrowNotFound => "no such escrow"@,
            CoreError::TaskNotFound => "no such task"@,
            CoreError::FundNotFound => "no such community fund"@,
            CoreError::NoRecipients => "no-recipients"@,
            CoreError::InsufficientBalance => "insufficient-balance"@,
            CoreError::NotDue => "distribution not yet due"@,
            CoreError::BalanceOverflow => "balance would overflow"@,
            CoreError::DuplicateId => "identifier already in use"@,
            CoreError::NothingRecorded => "no distribution transaction could be recorded"@,
            CoreError::ReleaseFailed => "the escrowed funds could not be released"@,
            CoreError::Malformed => "malformed payload"@,
        }
    }

    /// The text shown to a user for this failure.
    pub fn message(self) -> (s: String)
        ensures
            s@ == self.spec_message(),
    {
        match self {
            CoreError::BadSignature => owned("signature does not verify"),
            CoreError::NotAuthorized => owned("signer is not authorized"),
            CoreError::IllegalTransition => owned("illegal state transition"),
            CoreError::EscrowNotFunded => owned("escrow is not funded"),
            CoreError::EscrowNotActive => owned("escrow is neither funded nor in progress"),
            CoreError::TaskNotPending => owned("task is not pending"),
            CoreError::TaskNotProcessing => owned("task is not being processed"),
            CoreError::EscrowNotFound => owned("no such escrow"),
            CoreError::TaskNotFound => owned("no such task"),
            CoreError::FundNotFound => owned("no such community fund"),
            CoreError::NoRecipients => owned("no-recipients"),
            CoreError::InsufficientBalance => owned("insufficient-balance"),
            CoreError::NotDue => owned("distribution not yet due"),
            CoreError::BalanceOverflow => owned("balance would overflow"),
            CoreError::DuplicateId => owned("identifier already in use"),
            CoreError::NothingRecorded => owned("no distribution transaction could be recorded"),
            CoreError::ReleaseFailed => owned("the escrowed funds could not be released"),
            CoreError::Malformed => owned("malformed payload"),
        }
    }
}

} // verus!
