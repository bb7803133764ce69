//! The simulation that keeps a test network busy: which event comes next,
//! and what it carries, as drawn from random numbers. Running the events is
//! left to the caller.

use vstd::prelude::*;
use crate::dht::{bytes_of, text_bytes};
use crate::outside::random_u64;
use crate::text::{decimal, owned, push_decimal};
use crate::types::{Currency, ServiceId, TaskRequirements};

verus! {

/// What the simulation does next.
#[derive(Debug, Clone, Copy, PartialEq, Eq, Structural)]
pub enum SimulatedEvent {
    Transaction,
    ServiceRegistration,
    TaskSubmission,
    ReputationUpdate,
}

/// A service that the simulation registers.
#[derive(Debug, Clone, PartialEq, Eq)]
pub struct SimulatedService {
    pub name: String,
    pub description: String,
    pub price: u64,
}

/// The event that the draw `r` stands for.
pub open spec fn spec_event_for(r: u64) -> SimulatedEvent {
    if r % 4 == 0 {
        SimulatedEvent::Transaction
    } else if r % 4 == 1 {
        SimulatedEvent::ServiceRegistration
    } else if r % 4 == 2 {
        SimulatedEvent::TaskSubmission
    } else {
        SimulatedEvent::ReputationUpdate
    }
}

/// The currency of the transaction that the draw `r` stands for.
pub open spec fn spec_currency_for(r: u64) -> Currency {
    if r % 2 == 0 {
        Currency::BTC
    } else {
        Currency::ETH
    }
}

/// The amount of the transaction that the draw `r` stands for: from 10 up
/// to 1009 units.
pub open spec fn spec_amount_for(r: u64) -> u64 {
    (r % 1000 + 10) as u64
}

/// The identity `prefix` followed by the number that the draw `r` stands
/// for, which is below 2 to the 32.
pub open spec fn spec_did_for(prefix: Seq<char>, r: u64) -> Seq<char> {
    prefix + decimal((r % 0x1_0000_0000) as nat)
}

/// The name, description and price of the service that the draw `r` stands
/// for.
pub open spec fn spec_service_for(r: u64) -> (Seq<char>, Seq<char>, u64) {
    if r % 5 == 0 {
        ("AI Text Processing"@, "Advanced NLP services"@, 150)
    } else if r % 5 == 1 {
        ("Image Analysis"@, "Computer vision processing"@, 200)
    } else if r % 5 == 2 {
        ("Data Computation"@, "High-performance analytics"@, 100)
    } else if r % 5 == 3 {
        ("Blockchain Verification"@, "Smart contract validation"@, 300)
    } else {
        ("Machine Learning Training"@, "Neural network optimization"@, 250)
    }
}

/// The service and the payload of the task that the draw `r` stands for.
pub open spec fn spec_task_for(r: u64) -> (Seq<char>, Seq<char>) {
    if r % 4 == 0 {
        ("text-processing"@, "Analyze sentiment of customer reviews"@)
    } else if r % 4 == 1 {
        ("image-analysis"@, "Detect objects in surveillance footage"@)
    } else if r % 4 == 2 {
        ("data-computation"@, "Process financial market data"@)
    } else {
        ("ml-training"@, "Train recommendation system model"@)
    }
}

/// The kind of interaction that the draw `r` stands for.
pub open spec fn spec_interaction_for(r: u64) -> Seq<char> {
    if r % 3 == 0 {
        "service_provided"@
    } else if r % 3 == 1 {
        "task_completed"@
    } else {
        "escrow_finalized"@
    }
}

/// The requirements of every simulated task.
pub open spec fn simulated_requirements() -> TaskRequirements {
    TaskRequirements { cpu_cores: 2, memory_mb: 1024, timeout_seconds: 3600 }
}

/// The event that the draw `r` stands for.
pub fn event_for(r: u64) -> (e: SimulatedEvent)
    ensures
        e == spec_event_for(r),
{
    let k: u64 = r % 4;
    if k == 0 {
        SimulatedEvent::Transaction
    } else if k == 1 {
        SimulatedEvent::ServiceRegistration
    } else if k == 2 {
        SimulatedEvent::TaskSubmission
    } else {
        SimulatedEvent::ReputationUpdate
    }
}

/// A number drawn at random.
pub fn draw() -> u64 {
    random_u64()
}

/// The next event, drawn at random.
pub fn next_event() -> (e: SimulatedEvent)
    ensures
        exists|r: u64| e == spec_event_for(r),
{
    let r = random_u64();
    let e = event_for(r);
    assert(e == spec_event_for(r));
    e
}

/// The currency of the transaction that the draw `r` stands for.
pub fn currency_for(r: u64) -> (c: Currency)
    ensures
        c == spec_currency_for(r),
{
    if r % 2 == 0 {
        Currency::BTC
    } else {
        Currency::ETH
    }
}

/// The amount of the transaction that the draw `r` stands for.
pub fn amount_for(r: u64) -> (amount: u64)
    ensures
        amount == spec_amount_for(r),
        10 <= amount < 1010,
{
    r % 1000 + 10
}

/// The identity `prefix` followed by the number that the draw `r` stands
/// for.
pub fn did_for(prefix: &str, r: u64) -> (did: String)
    ensures
        did@ == spec_did_for(prefix@, r),
{
    let mut did = owned(prefix);
    push_decimal(&mut did, r % 0x1_0000_0000);
    did
}

/// The service that the draw `r` stands for.
pub fn service_for(r: u64) -> (s: SimulatedService)
    ensures
        (s.name@, s.description@, s.price) == spec_service_for(r),
{
    let k: u64 = r % 5;
    if k == 0 {
        SimulatedService { name: owned("AI Text Processing"), description: owned("Advanced NLP services"), price: 150 }
    } else if k == 1 {
        SimulatedService { name: owned("Image Analysis"), description: owned("Computer vision processing"), price: 200 }
    } else if k == 2 {
        SimulatedService { name: owned("Data Computation"), description: owned("High-performance analytics"), price: 100 }
    } else if k == 3 {
        SimulatedService {
            name: owned("Blockchain Verification"),
            description: owned("Smart contract validation"),
            price: 300,
        }
    } else {
        SimulatedService {
            name: owned("Machine Learning Training"),
            description: owned("Neural network optimization"),
            price: 250,
        }
    }
}

/// The service, the payload and the requirements of the task that the draw
/// `r` stands for.
pub fn task_for(r: u64) -> (t: (ServiceId, Vec<u8>, TaskRequirements))
    ensures
        t.0.0@ == spec_task_for(r).0,
        t.1@ == text_bytes(spec_task_for(r).1),
        t.2 == simulated_requirements(),
{
    let requirements = TaskRequirements { cpu_cores: 2, memory_mb: 1024, timeout_seconds: 3600 };
    let k: u64 = r % 4;
    if k == 0 {
        (ServiceId(owned("text-processing")), bytes_of("Analyze sentiment of customer reviews"), requirements)
    } else if k == 1 {
        (ServiceId(owned("image-analysis")), bytes_of("Detect objects in surveillance footage"), requirements)
    } else if k == 2 {
        (ServiceId(owned("data-computation")), bytes_of("Process financial market data"), requirements)
    } else {
        (ServiceId(owned("ml-training")), bytes_of("Train recommendation system model"), requirements)
    }
}

/// The kind of interaction that the draw `r` stands for.
pub fn interaction_for(r: u64) -> (s: &'static str)
    ensures
        s@ == spec_interaction_for(r),
{
    let k: u64 = r % 3;
    if k == 0 {
        "service_provided"
    } else if k == 1 {
        "task_completed"
    } else {
        "escrow_finalized"
    }
}

} // verus!
