use duxnet::dht::Dht;
use duxnet::error::{CoreError, ErrorKind};
use duxnet::escrow::EscrowManager;
use duxnet::tasks::{task_key, task_text, TaskManager, TaskPhase, TaskStats};
use duxnet::types::{EscrowState, NodeId, ServiceId, SignatureIntent, TaskId, TaskRequirements, TaskResult};

const B: &str = "did:duxnet:buyer";
const S: &str = "did:duxnet:seller";
const R: &str = "did:duxnet:arbiter";

fn requirements(timeout_seconds: u32) -> TaskRequirements {
    TaskRequirements { cpu_cores: 2, memory_mb: 1024, timeout_seconds }
}

fn store() -> Dht {
    Dht::new(NodeId("did:duxnet:local".to_string()))
}

fn funded_escrow() -> (EscrowManager, Dht) {
    let mut dht = store();
    let mut e = EscrowManager::new();
    e.create_with(&mut dht, "e1".to_string(), B.to_string(), S.to_string(), vec![R.to_string()], 100, "addr".to_string(), 0)
        .unwrap();
    e.fund(&mut dht, "e1", 5).unwrap();
    (e, dht)
}

fn submit(t: &mut TaskManager, e: &EscrowManager, dht: &mut Dht, id: &str, timeout: u32) -> Result<TaskId, CoreError> {
    t.submit_with(
        e,
        dht,
        TaskId(id.to_string()),
        "e1".to_string(),
        ServiceId("text-processing".to_string()),
        b"payload".to_vec(),
        requirements(timeout),
        10,
    )
}

fn result_of(id: &str, processor: &str) -> TaskResult {
    TaskResult {
        task_id: TaskId(id.to_string()),
        processor_did: processor.to_string(),
        result: b"done".to_vec(),
        proof: b"proof".to_vec(),
        completed_at: 99,
    }
}

#[test]
fn a_task_needs_a_funded_escrow() {
    let mut dht = store();
    let mut e = EscrowManager::new();
    let mut t = TaskManager::new();
    assert_eq!(submit(&mut t, &e, &mut dht, "t1", 60), Err(CoreError::EscrowNotFound));
    e.create_with(&mut dht, "e1".to_string(), B.to_string(), S.to_string(), vec![], 100, "addr".to_string(), 0).unwrap();
    assert_eq!(submit(&mut t, &e, &mut dht, "t1", 60), Err(CoreError::EscrowNotFunded));
    assert_eq!(CoreError::EscrowNotFunded.kind(), ErrorKind::State);
    e.fund(&mut dht, "e1", 5).unwrap();
    assert_eq!(submit(&mut t, &e, &mut dht, "t1", 60), Ok(TaskId("t1".to_string())));
    assert_eq!(submit(&mut t, &e, &mut dht, "t1", 60), Err(CoreError::DuplicateId));
    e.start_work(&mut dht, "e1", 6).unwrap();
    assert_eq!(submit(&mut t, &e, &mut dht, "t2", 60), Err(CoreError::EscrowNotFunded));
    assert_eq!(t.get_stats(), TaskStats { pending_count: 1, processing_count: 0, completed_count: 0, total_tasks: 1 });
    let record = t.get("t1").unwrap();
    assert_eq!(record.phase, TaskPhase::Pending);
    assert_eq!(record.task.escrow_id, "e1");
    assert_eq!(record.task.service_id, ServiceId("text-processing".to_string()));
    assert_eq!(record.task.payload, b"payload".to_vec());
    assert_eq!(record.task.requirements, requirements(60));
    assert_eq!(record.task.created_at, 10);
    assert_eq!(record.processor_did, None);
    assert_eq!(record.retries, 0);
    assert_eq!(t.get("t2"), None);
}

#[test]
fn submit_draws_a_fresh_identifier() {
    let (e, mut dht) = funded_escrow();
    let mut t = TaskManager::new();
    let a = t.submit(&e, &mut dht, "e1".to_string(), ServiceId("s".to_string()), vec![1], requirements(5)).unwrap();
    let b = t.submit(&e, &mut dht, "e1".to_string(), ServiceId("s".to_string()), vec![2], requirements(5)).unwrap();
    assert_ne!(a, b);
    assert_eq!(t.get(&a.0).unwrap().task.payload, vec![1]);
    assert_eq!(t.get_stats().pending_count, 2);
    assert_eq!(
        t.submit(&e, &mut dht, "nope".to_string(), ServiceId("s".to_string()), vec![], requirements(5)),
        Err(CoreError::EscrowNotFound)
    );
}

#[test]
fn task_lifecycle_with_escrow_release() {
    let (mut e, mut dht) = funded_escrow();
    let mut t = TaskManager::new();
    submit(&mut t, &e, &mut dht, "t1", 60).unwrap();

    assert_eq!(t.accept_at(&mut e, &mut dht, "t1", S, 20), Ok(()));
    assert_eq!(e.state_of("e1"), Some(EscrowState::InProgress));
    let record = t.get("t1").unwrap();
    assert_eq!(record.phase, TaskPhase::Processing);
    assert_eq!(record.processor_did, Some(S.to_string()));
    assert_eq!(record.started_at, 20);

    assert_eq!(t.complete_with(&mut e, &mut dht, result_of("t1", S), vec![1], true, 50), Ok(None));
    let record = t.get("t1").unwrap();
    assert_eq!(record.phase, TaskPhase::Completed);
    assert_eq!(record.result, Some(result_of("t1", S)));
    assert!(e.has_signature("e1", S, SignatureIntent::Release));
    assert_eq!(e.state_of("e1"), Some(EscrowState::InProgress));

    assert_eq!(e.add_signature_with(&mut dht, "e1", B, vec![2], SignatureIntent::Release, true, 7), Ok(Some(SignatureIntent::Release)));
    assert_eq!(e.settle(&mut dht, "e1", SignatureIntent::Release, true, 10), Ok(EscrowState::Completed));
    assert!(!e.has_signature("e1", R, SignatureIntent::Release));
    assert_eq!(t.get_stats(), TaskStats { pending_count: 0, processing_count: 0, completed_count: 1, total_tasks: 1 });
}

#[test]
fn completion_after_the_buyer_signed_makes_the_release_due() {
    let (mut e, mut dht) = funded_escrow();
    let mut t = TaskManager::new();
    submit(&mut t, &e, &mut dht, "t1", 60).unwrap();
    t.accept_at(&mut e, &mut dht, "t1", S, 20).unwrap();
    e.add_signature_with(&mut dht, "e1", B, vec![2], SignatureIntent::Release, true, 7).unwrap();
    assert_eq!(t.complete_with(&mut e, &mut dht, result_of("t1", S), vec![1], true, 50), Ok(Some(SignatureIntent::Release)));
}

#[test]
fn only_pending_tasks_are_accepted() {
    let (mut e, mut dht) = funded_escrow();
    let mut t = TaskManager::new();
    submit(&mut t, &e, &mut dht, "t1", 60).unwrap();
    assert_eq!(t.accept_at(&mut e, &mut dht, "missing", S, 20), Err(CoreError::TaskNotFound));
    assert_eq!(CoreError::TaskNotFound.kind(), ErrorKind::NotFound);
    t.accept_at(&mut e, &mut dht, "t1", S, 20).unwrap();
    assert_eq!(t.accept_at(&mut e, &mut dht, "t1", "did:duxnet:other", 21), Err(CoreError::TaskNotPending));
    assert_eq!(t.get("t1").unwrap().processor_did, Some(S.to_string()));
}

#[test]
fn tasks_stand_still_while_the_escrow_is_disputed() {
    let (mut e, mut dht) = funded_escrow();
    let mut t = TaskManager::new();
    submit(&mut t, &e, &mut dht, "t1", 60).unwrap();
    submit(&mut t, &e, &mut dht, "t2", 60).unwrap();
    t.accept_at(&mut e, &mut dht, "t1", S, 20).unwrap();
    e.raise_dispute(&mut dht, "e1", B, 8).unwrap();
    assert_eq!(t.accept_at(&mut e, &mut dht, "t2", S, 21), Err(CoreError::EscrowNotActive));
    assert_eq!(t.complete_with(&mut e, &mut dht, result_of("t1", S), vec![1], true, 50), Err(CoreError::EscrowNotActive));
    assert_eq!(t.get("t1").unwrap().phase, TaskPhase::Processing);
    assert_eq!(t.get("t2").unwrap().phase, TaskPhase::Pending);
    assert!(!e.has_signature("e1", S, SignatureIntent::Release));
}

#[test]
fn a_result_is_taken_only_from_the_accepted_processor() {
    let (mut e, mut dht) = funded_escrow();
    let mut t = TaskManager::new();
    submit(&mut t, &e, &mut dht, "t1", 60).unwrap();
    assert_eq!(t.complete_with(&mut e, &mut dht, result_of("missing", S), vec![1], true, 50), Err(CoreError::TaskNotFound));
    assert_eq!(t.complete_with(&mut e, &mut dht, result_of("t1", S), vec![1], true, 50), Err(CoreError::TaskNotProcessing));
    t.accept_at(&mut e, &mut dht, "t1", S, 20).unwrap();
    assert_eq!(t.complete_with(&mut e, &mut dht, result_of("t1", B), vec![1], true, 50), Err(CoreError::NotAuthorized));
    assert_eq!(t.complete_with(&mut e, &mut dht, result_of("t1", S), vec![1], false, 50), Err(CoreError::BadSignature));
    assert_eq!(t.get("t1").unwrap().phase, TaskPhase::Processing);
    assert!(e.get("e1").unwrap().signatures.is_empty());
    assert_eq!(t.complete_with(&mut e, &mut dht, result_of("t1", S), vec![1], true, 50), Ok(None));
    assert_eq!(t.complete_with(&mut e, &mut dht, result_of("t1", S), vec![1], true, 50), Err(CoreError::TaskNotProcessing));
}

#[test]
fn a_processor_that_is_no_party_cannot_complete() {
    let (mut e, mut dht) = funded_escrow();
    let mut t = TaskManager::new();
    submit(&mut t, &e, &mut dht, "t1", 60).unwrap();
    t.accept_at(&mut e, &mut dht, "t1", "did:duxnet:stranger", 20).unwrap();
    assert_eq!(
        t.complete_with(&mut e, &mut dht, result_of("t1", "did:duxnet:stranger"), vec![1], true, 50),
        Err(CoreError::NotAuthorized)
    );
    assert_eq!(t.get("t1").unwrap().phase, TaskPhase::Processing);
}

#[test]
fn timed_out_tasks_are_queued_again_and_fail_at_last() {
    let (mut e, mut dht) = funded_escrow();
    let mut t = TaskManager::new();
    submit(&mut t, &e, &mut dht, "slow", 30).unwrap();
    submit(&mut t, &e, &mut dht, "fast", 1_000).unwrap();
    t.accept_at(&mut e, &mut dht, "slow", S, 100).unwrap();
    t.accept_at(&mut e, &mut dht, "fast", S, 100).unwrap();
    assert_eq!(t.sweep_timeouts(129), 0);
    assert_eq!(t.sweep_timeouts(130), 1);
    let slow = t.get("slow").unwrap();
    assert_eq!(slow.phase, TaskPhase::Pending);
    assert_eq!(slow.retries, 1);
    assert_eq!(slow.processor_did, None);
    assert_eq!(t.get("fast").unwrap().phase, TaskPhase::Processing);
    assert_eq!(t.sweep_timeouts(500), 0);

    t.accept_at(&mut e, &mut dht, "slow", S, 200).unwrap();
    assert_eq!(t.sweep_timeouts(230), 1);
    assert_eq!(t.get("slow").unwrap().retries, 2);
    t.accept_at(&mut e, &mut dht, "slow", S, 300).unwrap();
    assert_eq!(t.sweep_timeouts(330), 1);
    let slow = t.get("slow").unwrap();
    assert_eq!(slow.phase, TaskPhase::Failed);
    assert_eq!(slow.retries, 2);
    assert_eq!(t.accept_at(&mut e, &mut dht, "slow", S, 400), Err(CoreError::TaskNotPending));
    assert_eq!(t.get_stats(), TaskStats { pending_count: 0, processing_count: 1, completed_count: 0, total_tasks: 2 });
}

#[test]
fn a_budget_of_zero_fails_at_the_first_timeout() {
    let (mut e, mut dht) = funded_escrow();
    let mut t = TaskManager::with_retry_budget(0);
    submit(&mut t, &e, &mut dht, "t1", 0).unwrap();
    t.accept_at(&mut e, &mut dht, "t1", S, 100).unwrap();
    assert_eq!(t.sweep_timeouts(100), 1);
    assert_eq!(t.get("t1").unwrap().phase, TaskPhase::Failed);
}

#[test]
fn accept_stamps_the_clock() {
    let (mut e, mut dht) = funded_escrow();
    let mut t = TaskManager::new();
    submit(&mut t, &e, &mut dht, "t1", 60).unwrap();
    t.accept(&mut e, &mut dht, "t1", S).unwrap();
    assert!(t.get("t1").unwrap().started_at > 1_577_836_800);
    assert_eq!(task_key("t1"), "task:t1");
}

#[test]
fn a_submitted_task_is_announced() {
    let (mut e, mut dht) = funded_escrow();
    let mut t = TaskManager::new();
    submit(&mut t, &e, &mut dht, "t1", 60).unwrap();
    let text = String::from_utf8(dht.get("task:t1", 10).unwrap()).unwrap();
    assert_eq!(
        text,
        "{\"id\":\"t1\",\"escrow_id\":\"e1\",\"service_id\":\"text-processing\",\
\"payload\":[112,97,121,108,111,97,100],\
\"requirements\":{\"cpu_cores\":2,\"memory_mb\":1024,\"timeout_seconds\":60},\"created_at\":10}"
    );
    assert_eq!(text, task_text(&t.get("t1").unwrap().task));
    assert_eq!(submit(&mut t, &e, &mut dht, "t1", 60), Err(CoreError::DuplicateId));
    assert_eq!(dht.list_by_prefix("task:", 10).len(), 1);

    t.accept_at(&mut e, &mut dht, "t1", S, 20).unwrap();
    let contract = String::from_utf8(dht.get("escrow:e1", 20).unwrap()).unwrap();
    assert!(contract.contains("\"state\":\"InProgress\""));
    t.complete_with(&mut e, &mut dht, result_of("t1", S), vec![4], true, 30).unwrap();
    let contract = String::from_utf8(dht.get("escrow:e1", 30).unwrap()).unwrap();
    assert!(contract.contains("{\"signer_did\":\"did:duxnet:seller\",\"intent\":\"release\",\"signature\":[4]}"));
}

#[test]
fn an_announced_task_is_taken_over_as_pending() {
    let (e, mut dht) = funded_escrow();
    let mut t = TaskManager::new();
    submit(&mut t, &e, &mut dht, "t1", 60).unwrap();
    let task = t.get("t1").unwrap().task;
    let mut fresh = TaskManager::new();
    assert_eq!(fresh.restore(task.clone()), Ok(()));
    assert_eq!(fresh.get("t1").unwrap().phase, TaskPhase::Pending);
    assert_eq!(fresh.get("t1").unwrap().task, task);
    assert_eq!(fresh.restore(task), Err(CoreError::DuplicateId));
    assert_eq!(fresh.get_stats().total_tasks, 1);
}
