//! Coordination core of a node in a peer-to-peer services marketplace.
//!
//! Participants identify themselves by keys, advertise services, submit
//! tasks against them, hold the payment in escrow until the work is done,
//! and attest to each other's reputation. A tax on every payment feeds a
//! community fund that is divided among the active participants.
//!
//! Every component keeps its state in memory, publishes it to the
//! replicated store, and states what each operation does over the
//! mathematical value that the state stands for. Time comes in as a
//! number of seconds; the operations that read the system clock say so.
//!
//! - [`identity`]: identifiers, keys, signing and verifying
//! - [`dht`]: the replicated store and the peer registry
//! - [`reputation`]: attestations and the window of recent scores
//! - [`escrow`]: the escrow state machine
//! - [`tasks`]: the task lifecycle
//! - [`community_fund`]: the tax, the funds and their distribution
//! - [`messaging`]: direct messages and conversations
//! - [`commands`]: requests and answers of the command surface
//! - [`simulation`]: what the events of a simulated network carry
//! - [`text`], [`json`], [`seqs`], [`types`], [`error`], [`clock`]: what the
//!   components share
//! - [`outside`]: the calls into code that is not verified here

pub mod text;
pub mod seqs;
pub mod outside;
pub mod clock;
pub mod error;
pub mod types;
pub mod json;
pub mod identity;
pub mod dht;
pub mod community_fund;
pub mod messaging;
pub mod escrow;
pub mod tasks;
pub mod reputation;
pub mod commands;
pub mod simulation;
