//! The task lifecycle: a task is submitted against a funded escrow, accepted
//! by a processor, and completed with a result; a task whose processor does
//! not answer in time goes back to the queue, or fails once its retries are
//! used up.

use vstd::prelude::*;
use crate::clock::get_current_timestamp;
use crate::dht::{bytes_of, elapsed_seconds, seconds_between, text_bytes, Dht, DhtView};
use crate::error::CoreError;
use crate::escrow::{follows_graph, lemma_operations_follow_graph, lemma_signature_keeps_wf, lemma_signing_keeps_verified, lemma_with_contract, lemma_with_signature, EscrowManager, EscrowView};
use crate::json::{json_bytes, push_json_bytes, push_json_number, push_json_string};
use crate::outside::{json_string_text, random_uuid};
use crate::seqs::{first_index, lemma_filter_empty, lemma_filter_step, lemma_first_index, lemma_first_index_is, lemma_first_index_none};
use crate::text::{decimal, joined, owned, push_text, same_text};
use crate::types::{EscrowSignatureView, EscrowState, ServiceId, SignatureIntent, Task, TaskId, TaskRequirements, TaskResult, TaskResultView, TaskView};

verus! {

/// How often a task that timed out is queued again unless told otherwise.
pub const DEFAULT_RETRY_BUDGET: u32 = 2;

/// Where a task stands.
#[derive(Debug, Clone, Copy, PartialEq, Eq, Structural)]
pub enum TaskPhase {
    /// Waiting for a processor.
    Pending,
    /// Accepted by a processor.
    Processing,
    /// Done, with a result.
    Completed,
    /// Given up after too many timeouts.
    Failed,
}

/// A task with what has happened to it.
#[derive(Debug, PartialEq, Eq)]
pub struct TaskRecord {
    pub task: Task,
    pub phase: TaskPhase,
    /// The processor that accepted the task, while it is processed and
    /// after it is completed.
    pub processor_did: Option<String>,
    /// When the task was last accepted.
    pub started_at: u64,
    /// How often the task has timed out.
    pub retries: u32,
    /// The result, once the task is completed.
    pub result: Option<TaskResult>,
}

/// What a [`TaskRecord`] stands for.
pub struct TaskRecordView {
    pub task: TaskView,
    pub phase: TaskPhase,
    pub processor_did: Option<Seq<char>>,
    pub started_at: u64,
    pub retries: u32,
    pub result: Option<TaskResultView>,
}

impl View for TaskRecord {
    type V = TaskRecordView;

    open spec fn view(&self) -> TaskRecordView {
        TaskRecordView {
            task: self.task@,
            phase: self.phase,
            processor_did: match self.processor_did {
                Some(d) => Some(d@),
                None => None,
            },
            started_at: self.started_at,
            retries: self.retries,
            result: match self.result {
                Some(r) => Some(r@),
                None => None,
            },
        }
    }
}

impl DeepView for TaskRecord {
    type V = TaskRecordView;

    open spec fn deep_view(&self) -> TaskRecordView {
        self@
    }
}

impl Clone for TaskRecord {
    fn clone(&self) -> (r: Self)
        ensures
            r@ == self@,
    {
        TaskRecord {
            task: self.task.clone(),
            phase: self.phase,
            processor_did: match &self.processor_did {
                Some(d) => Some(d.clone()),
                None => None,
            },
            started_at: self.started_at,
            retries: self.retries,
            result: match &self.result {
                Some(r) => Some(r.clone()),
                None => None,
            },
        }
    }
}

/// Counts over all tasks.
#[derive(Debug, Clone, Copy, PartialEq, Eq, Structural)]
pub struct TaskStats {
    pub pending_count: usize,
    pub processing_count: usize,
    pub completed_count: usize,
    /// All tasks ever submitted, the failed ones too.
    pub total_tasks: usize,
}

/// How long an announced task is kept: 24 hours.
pub const TASK_TTL_SECONDS: u64 = 86400;

/// The JSON text of a task, as it is announced: an object with the task's
/// fields in the order of their declaration.
pub open spec fn task_json(t: TaskView) -> Seq<char> {
    "{\"id\":"@ + json_string_text(t.id) + ",\"escrow_id\":"@ + json_string_text(t.escrow_id) + ",\"service_id\":"@
        + json_string_text(t.service_id) + ",\"payload\":"@ + json_bytes(t.payload)
        + ",\"requirements\":{\"cpu_cores\":"@ + decimal(t.requirements.cpu_cores as nat) + ",\"memory_mb\":"@
        + decimal(t.requirements.memory_mb as nat) + ",\"timeout_seconds\":"@ + decimal(
        t.requirements.timeout_seconds as nat,
    ) + "},\"created_at\":"@ + decimal(t.created_at as nat) + "}"@
}

/// The key under which the task `task_id` is announced.
pub open spec fn announcement_key(task_id: Seq<char>) -> Seq<char> {
    "task:"@ + task_id
}

/// The condition "is the task `id`".
pub open spec fn has_id(id: Seq<char>) -> spec_fn(TaskRecordView) -> bool {
    |r: TaskRecordView| r.task.id == id
}

/// The condition "is in `phase`".
pub open spec fn in_phase(phase: TaskPhase) -> spec_fn(TaskRecordView) -> bool {
    |r: TaskRecordView| r.phase == phase
}

/// The condition "is processed and has not answered in time at `now`".
pub open spec fn timed_out(now: u64) -> spec_fn(TaskRecordView) -> bool {
    |r: TaskRecordView| r.is_timed_out(now)
}

/// Whether tasks may move while their escrow is in `state`: while it is
/// funded or in progress.
pub open spec fn is_active(state: EscrowState) -> bool {
    state == EscrowState::Funded || state == EscrowState::InProgress
}

impl TaskRecordView {
    /// Whether the task is processed and has not answered in time at `now`.
    pub open spec fn is_timed_out(self, now: u64) -> bool {
        self.phase == TaskPhase::Processing && seconds_between(self.started_at, now)
            >= self.task.requirements.timeout_seconds
    }

    /// The record after the sweep at `now`: a task that timed out is queued
    /// again while it has retries left, and fails otherwise.
    pub open spec fn swept(self, retry_budget: u32, now: u64) -> TaskRecordView {
        if !self.is_timed_out(now) {
            self
        } else if self.retries < retry_budget {
            TaskRecordView {
                phase: TaskPhase::Pending,
                processor_did: None,
                retries: (self.retries + 1) as u32,
                ..self
            }
        } else {
            TaskRecordView { phase: TaskPhase::Failed, ..self }
        }
    }
}

/// The task that is made of the given parts.
pub open spec fn new_task(
    id: Seq<char>,
    escrow_id: Seq<char>,
    service_id: Seq<char>,
    payload: Seq<u8>,
    requirements: TaskRequirements,
    now: u64,
) -> TaskView {
    TaskView { id, escrow_id, service_id, payload, requirements, created_at: now }
}

/// A task as it is submitted: pending, never accepted.
pub open spec fn submitted(task: TaskView) -> TaskRecordView {
    TaskRecordView { task, phase: TaskPhase::Pending, processor_did: None, started_at: 0, retries: 0, result: None }
}

/// What a [`TaskManager`] stands for: its tasks in the order of their
/// submission.
pub struct TasksView {
    pub tasks: Seq<TaskRecordView>,
    pub retry_budget: u32,
}

impl TasksView {
    /// No identifier is used twice; a task that is processed or completed
    /// has a processor, and a completed one has the result that its
    /// processor handed in.
    pub open spec fn wf(self) -> bool {
        &&& forall|i: int, j: int| 0 <= i < j < self.tasks.len() ==> self.tasks[i].task.id != self.tasks[j].task.id
        &&& forall|i: int|
            0 <= i < self.tasks.len() ==> {
                let r = #[trigger] self.tasks[i];
                &&& (r.phase == TaskPhase::Processing || r.phase == TaskPhase::Completed) ==> r.processor_did.is_some()
                &&& r.phase == TaskPhase::Completed ==> r.result.is_some() && r.result.unwrap().processor_did
                    == r.processor_did.unwrap() && r.result.unwrap().task_id == r.task.id
            }
    }

    /// Where the task `id` is kept, if there is one.
    pub open spec fn task_index(self, id: Seq<char>) -> Option<int> {
        first_index(self.tasks, has_id(id))
    }

    /// The record of the task `id`, if there is one.
    pub open spec fn record(self, id: Seq<char>) -> Option<TaskRecordView> {
        match self.task_index(id) {
            Some(i) => Some(self.tasks[i]),
            None => None,
        }
    }

    /// The tasks with `r` in the place of the record of its task.
    pub open spec fn with_record(self, r: TaskRecordView) -> TasksView {
        match self.task_index(r.task.id) {
            Some(i) => TasksView { tasks: self.tasks.update(i, r), ..self },
            None => self,
        }
    }

    /// Why the submission of `task` is refused, if it is: its escrow must
    /// exist and be funded, and its identifier must be free.
    pub open spec fn submit_refusal(self, escrow: EscrowView, task: TaskView) -> Option<CoreError> {
        match escrow.contract(task.escrow_id) {
            None => Some(CoreError::EscrowNotFound),
            Some(c) => if c.state != EscrowState::Funded {
                Some(CoreError::EscrowNotFunded)
            } else if self.record(task.id).is_some() {
                Some(CoreError::DuplicateId)
            } else {
                None
            },
        }
    }

    /// The tasks after `task` is submitted. Nothing changes where the
    /// submission is refused.
    pub open spec fn submit(self, escrow: EscrowView, task: TaskView) -> TasksView {
        if self.submit_refusal(escrow, task).is_none() {
            TasksView { tasks: self.tasks.push(submitted(task)), ..self }
        } else {
            self
        }
    }

    /// The store after `task` is submitted at `now`: the task is announced
    /// under its key, unless the submission is refused.
    pub open spec fn submit_record(self, escrow: EscrowView, dht: DhtView, task: TaskView, now: u64) -> DhtView {
        if self.submit_refusal(escrow, task).is_none() {
            dht.store(announcement_key(task.id), text_bytes(task_json(task)), TASK_TTL_SECONDS, now)
        } else {
            dht
        }
    }

    /// Why the task `id` cannot be accepted, if it cannot: it must be
    /// pending, and its escrow funded or in progress.
    pub open spec fn accept_refusal(self, escrow: EscrowView, id: Seq<char>) -> Option<CoreError> {
        match self.record(id) {
            None => Some(CoreError::TaskNotFound),
            Some(r) => if r.phase != TaskPhase::Pending {
                Some(CoreError::TaskNotPending)
            } else {
                match escrow.contract(r.task.escrow_id) {
                    None => Some(CoreError::EscrowNotFound),
                    Some(c) => if !is_active(c.state) {
                        Some(CoreError::EscrowNotActive)
                    } else {
                        None
                    },
                }
            },
        }
    }

    /// The tasks after `processor` accepts the task `id` at `now`.
    pub open spec fn accept(self, escrow: EscrowView, id: Seq<char>, processor: Seq<char>, now: u64) -> TasksView {
        match self.record(id) {
            Some(r) => if self.accept_refusal(escrow, id).is_none() {
                self.with_record(
                    TaskRecordView { phase: TaskPhase::Processing, processor_did: Some(processor), started_at: now, ..r },
                )
            } else {
                self
            },
            None => self,
        }
    }

    /// The escrow contracts after the task `id` is accepted: work on its
    /// contract has begun.
    pub open spec fn accept_escrow(self, escrow: EscrowView, id: Seq<char>) -> EscrowView {
        match self.record(id) {
            Some(r) => if self.accept_refusal(escrow, id).is_none() {
                escrow.moved(r.task.escrow_id, EscrowState::Funded, EscrowState::InProgress)
            } else {
                escrow
            },
            None => escrow,
        }
    }

    /// The store after the task `id` is accepted at `now`: the task's
    /// contract is published where work on it has just begun.
    pub open spec fn accept_record(self, escrow: EscrowView, dht: DhtView, id: Seq<char>, now: u64) -> DhtView {
        match self.record(id) {
            Some(r) => if self.accept_refusal(escrow, id).is_none() && escrow.contract(r.task.escrow_id).unwrap().state
                == EscrowState::Funded {
                self.accept_escrow(escrow, id).publish(dht, r.task.escrow_id, now)
            } else {
                dht
            },
            None => dht,
        }
    }

    /// The signature for the release of the escrow that a processor hands in
    /// with its result.
    pub open spec fn release_signature(result: TaskResultView, signature: Seq<u8>) -> EscrowSignatureView {
        EscrowSignatureView { signer_did: result.processor_did, intent: SignatureIntent::Release, signature }
    }

    /// Why `result` is refused, if it is: its task must be processed by the
    /// processor that hands it in, the task's escrow must be funded or in
    /// progress, and the processor's signature for the release must be
    /// accepted by the escrow.
    pub open spec fn complete_refusal(
        self,
        escrow: EscrowView,
        result: TaskResultView,
        signature: Seq<u8>,
        signature_valid: bool,
    ) -> Option<CoreError> {
        match self.record(result.task_id) {
            None => Some(CoreError::TaskNotFound),
            Some(r) => if r.phase != TaskPhase::Processing {
                Some(CoreError::TaskNotProcessing)
            } else if r.processor_did != Some(result.processor_did) {
                Some(CoreError::NotAuthorized)
            } else {
                match escrow.contract(r.task.escrow_id) {
                    None => Some(CoreError::EscrowNotFound),
                    Some(c) => if !is_active(c.state) {
                        Some(CoreError::EscrowNotActive)
                    } else {
                        c.signature_refusal(result.processor_did, signature_valid)
                    },
                }
            },
        }
    }

    /// The tasks after `result` is handed in.
    pub open spec fn complete(
        self,
        escrow: EscrowView,
        result: TaskResultView,
        signature: Seq<u8>,
        signature_valid: bool,
    ) -> TasksView {
        match self.record(result.task_id) {
            Some(r) => if self.complete_refusal(escrow, result, signature, signature_valid).is_none() {
                self.with_record(TaskRecordView { phase: TaskPhase::Completed, result: Some(result), ..r })
            } else {
                self
            },
            None => self,
        }
    }

    /// The escrow contracts after `result` is handed in: the processor's
    /// signature for the release is recorded on the task's contract.
    pub open spec fn complete_escrow(
        self,
        escrow: EscrowView,
        result: TaskResultView,
        signature: Seq<u8>,
        signature_valid: bool,
    ) -> EscrowView {
        match self.record(result.task_id) {
            Some(r) => if self.complete_refusal(escrow, result, signature, signature_valid).is_none() {
                escrow.add_signature(
                    r.task.escrow_id,
                    TasksView::release_signature(result, signature),
                    signature_valid,
                )
            } else {
                escrow
            },
            None => escrow,
        }
    }

    /// The store after `result` is handed in at `now`: the task's contract
    /// is published with the processor's signature.
    pub open spec fn complete_record(
        self,
        escrow: EscrowView,
        dht: DhtView,
        result: TaskResultView,
        signature: Seq<u8>,
        signature_valid: bool,
        now: u64,
    ) -> DhtView {
        match self.record(result.task_id) {
            Some(r) => if self.complete_refusal(escrow, result, signature, signature_valid).is_none() {
                self.complete_escrow(escrow, result, signature, signature_valid).publish(dht, r.task.escrow_id, now)
            } else {
                dht
            },
            None => dht,
        }
    }

    /// Whether the signature that comes with `result` is a valid signature
    /// of the processor for the release of the task's escrow; not where
    /// there is no such task or contract.
    pub open spec fn release_verifies(self, escrow: EscrowView, result: TaskResultView, signature: Seq<u8>) -> bool {
        match self.record(result.task_id) {
            Some(r) => escrow.signature_verifies(r.task.escrow_id, TasksView::release_signature(result, signature)),
            None => false,
        }
    }

    /// The tasks after the sweep at `now`.
    pub open spec fn sweep(self, now: u64) -> TasksView {
        TasksView { tasks: self.tasks.map_values(|r: TaskRecordView| r.swept(self.retry_budget, now)), ..self }
    }

    /// The counts over all tasks.
    pub open spec fn stats(self) -> TaskStats {
        TaskStats {
            pending_count: self.tasks.filter(in_phase(TaskPhase::Pending)).len() as usize,
            processing_count: self.tasks.filter(in_phase(TaskPhase::Processing)).len() as usize,
            completed_count: self.tasks.filter(in_phase(TaskPhase::Completed)).len() as usize,
            total_tasks: self.tasks.len() as usize,
        }
    }

    /// Whether every completed task is bound to a contract that exists and
    /// holds a signature for the release by the task's processor.
    pub open spec fn completed_are_signed(self, escrow: EscrowView) -> bool {
        forall|i: int|
            0 <= i < self.tasks.len() && (#[trigger] self.tasks[i]).phase == TaskPhase::Completed ==> {
                &&& escrow.contract(self.tasks[i].task.escrow_id).is_some()
                &&& self.tasks[i].processor_did.is_some()
                &&& escrow.contract(self.tasks[i].task.escrow_id).unwrap().signature_index(
                    self.tasks[i].processor_did.unwrap(),
                    SignatureIntent::Release,
                ).is_some()
            }
    }
}

/// Whether two phases are the same.
pub fn same_phase(a: TaskPhase, b: TaskPhase) -> (r: bool)
    ensures
        r == (a == b),
{
    match (a, b) {
        (TaskPhase::Pending, TaskPhase::Pending) => true,
        (TaskPhase::Processing, TaskPhase::Processing) => true,
        (TaskPhase::Completed, TaskPhase::Completed) => true,
        (TaskPhase::Failed, TaskPhase::Failed) => true,
        _ => false,
    }
}

/// The key under which the task `task_id` is announced.
pub fn task_key(task_id: &str) -> (key: String)
    ensures
        key@ == announcement_key(task_id@),
{
    joined("task:", task_id)
}

/// The JSON text of `task`, as it is announced.
pub fn task_text(task: &Task) -> (s: String)
    ensures
        s@ == task_json(task@),
{
    let mut s = owned("{\"id\":");
    push_json_string(&mut s, task.id.0.as_str());
    push_text(&mut s, ",\"escrow_id\":");
    push_json_string(&mut s, task.escrow_id.as_str());
    push_text(&mut s, ",\"service_id\":");
    push_json_string(&mut s, task.service_id.0.as_str());
    push_text(&mut s, ",\"payload\":");
    push_json_bytes(&mut s, &task.payload);
    push_text(&mut s, ",\"requirements\":{\"cpu_cores\":");
    push_json_number(&mut s, task.requirements.cpu_cores as u64);
    push_text(&mut s, ",\"memory_mb\":");
    push_json_number(&mut s, task.requirements.memory_mb as u64);
    push_text(&mut s, ",\"timeout_seconds\":");
    push_json_number(&mut s, task.requirements.timeout_seconds as u64);
    push_text(&mut s, "},\"created_at\":");
    push_json_number(&mut s, task.created_at);
    push_text(&mut s, "}");
    s
}

/// The keeper of the tasks of one node.
pub struct TaskManager {
    tasks: Vec<TaskRecord>,
    retry_budget: u32,
}

impl View for TaskManager {
    type V = TasksView;

    closed spec fn view(&self) -> TasksView {
        TasksView { tasks: self.tasks.deep_view(), retry_budget: self.retry_budget }
    }
}

impl TaskManager {
    /// Whether the manager keeps its invariant.
    pub open spec fn wf(&self) -> bool {
        self@.wf()
    }

    /// A manager without tasks and with the default retry budget.
    pub fn new() -> (m: TaskManager)
        ensures
            m.wf(),
            m@ == (TasksView { tasks: Seq::empty(), retry_budget: DEFAULT_RETRY_BUDGET }),
    {
        TaskManager::with_retry_budget(DEFAULT_RETRY_BUDGET)
    }

    /// A manager without tasks that queues a timed-out task again at most
    /// `retry_budget` times.
    pub fn with_retry_budget(retry_budget: u32) -> (m: TaskManager)
        ensures
            m.wf(),
            m@ == (TasksView { tasks: Seq::empty(), retry_budget }),
    {
        let m = TaskManager { tasks: Vec::new(), retry_budget };
        assert(m.tasks.deep_view() =~= Seq::empty());
        m
    }

    fn find(&self, id: &str) -> (r: Option<usize>)
        ensures
            match r {
                Some(i) => self@.task_index(id@) == Some(i as int) && i < self.tasks.len(),
                None => self@.task_index(id@).is_none(),
            },
    {
        let mut i: usize = 0;
        while i < self.tasks.len()
            invariant
                i <= self.tasks.len(),
                forall|j: int| 0 <= j < i ==> !has_id(id@)(#[trigger] self@.tasks[j]),
            decreases self.tasks.len() - i,
        {
            if same_text(self.tasks[i].task.id.0.as_str(), id) {
                proof {
                    lemma_first_index_is(self@.tasks, has_id(id@), i as int);
                }
                return Some(i);
            }
            i = i + 1;
        }
        proof {
            lemma_first_index_none(self@.tasks, has_id(id@));
        }
        None
    }

    fn replace(&mut self, i: usize, r: TaskRecord)
        requires
            old(self).wf(),
            i < old(self)@.tasks.len(),
            old(self)@.task_index(r@.task.id) == Some(i as int),
            (r@.phase == TaskPhase::Processing || r@.phase == TaskPhase::Completed) ==> r@.processor_did.is_some(),
            r@.phase == TaskPhase::Completed ==> r@.result.is_some() && r@.result.unwrap().processor_did
                == r@.processor_did.unwrap() && r@.result.unwrap().task_id == r@.task.id,
        ensures
            final(self).wf(),
            final(self)@ == old(self)@.with_record(r@),
    {
        proof {
            lemma_first_index(self@.tasks, has_id(r@.task.id));
        }
        let ghost before = self.tasks.deep_view();
        let ghost added = r@;
        self.tasks[i] = r;
        assert(self.tasks.deep_view() =~= before.update(i as int, added));
        assert(has_id(added.task.id)(before[i as int]));
        assert(forall|a: int, b: int|
            0 <= a < b < self@.tasks.len() ==> self@.tasks[a].task.id != self@.tasks[b].task.id);
    }

    /// Submits a task with the given identifier at `now`, bound to the
    /// contract `escrow_id`, and announces it. Returns the identifier.
    ///
    /// Fails, and changes nothing, where the contract does not exist or is
    /// not funded, or where the identifier is taken.
    pub fn submit_with(
        &mut self,
        escrow: &EscrowManager,
        dht: &mut Dht,
        id: TaskId,
        escrow_id: String,
        service_id: ServiceId,
        payload: Vec<u8>,
        requirements: TaskRequirements,
        now: u64,
    ) -> (r: Result<TaskId, CoreError>)
        requires
            old(self).wf(),
            old(dht).wf(),
        ensures
            final(self).wf(),
            final(dht).wf(),
            final(self)@ == old(self)@.submit(
                escrow@,
                new_task(id.0@, escrow_id@, service_id.0@, payload@, requirements, now),
            ),
            final(dht)@ == old(self)@.submit_record(
                escrow@,
                old(dht)@,
                new_task(id.0@, escrow_id@, service_id.0@, payload@, requirements, now),
                now,
            ),
            match r {
                Ok(task_id) => task_id.0@ == id.0@ && old(self)@.submit_refusal(
                    escrow@,
                    new_task(id.0@, escrow_id@, service_id.0@, payload@, requirements, now),
                ).is_none(),
                Err(e) => old(self)@.submit_refusal(
                    escrow@,
                    new_task(id.0@, escrow_id@, service_id.0@, payload@, requirements, now),
                ) == Some(e),
            },
    {
        proof {
            lemma_first_index(self@.tasks, has_id(id.0@));
        }
        match escrow.state_of(escrow_id.as_str()) {
            None => {
                return Err(CoreError::EscrowNotFound);
            },
            Some(EscrowState::Funded) => {},
            Some(_) => {
                return Err(CoreError::EscrowNotFunded);
            },
        }
        if self.find(id.0.as_str()).is_some() {
            return Err(CoreError::DuplicateId);
        }
        let task_id = TaskId(id.0.clone());
        let key = task_key(id.0.as_str());
        let record = TaskRecord {
            task: Task { id, escrow_id, service_id, payload, requirements, created_at: now },
            phase: TaskPhase::Pending,
            processor_did: None,
            started_at: 0,
            retries: 0,
            result: None,
        };
        let ghost before = self.tasks.deep_view();
        let ghost added = record@;
        assert(forall|j: int| 0 <= j < before.len() ==> !has_id(added.task.id)(#[trigger] before[j]));
        let text = task_text(&record.task);
        self.tasks.push(record);
        assert(self.tasks.deep_view() =~= before.push(added));
        assert(forall|a: int, b: int|
            0 <= a < b < self@.tasks.len() ==> self@.tasks[a].task.id != self@.tasks[b].task.id);
        dht.store(key, bytes_of(text.as_str()), TASK_TTL_SECONDS, now);
        Ok(task_id)
    }

    /// Takes over a task as it was announced, as a pending task, where its
    /// identifier is free. Fails, and changes nothing, otherwise.
    pub fn restore(&mut self, task: Task) -> (r: Result<(), CoreError>)
        requires
            old(self).wf(),
        ensures
            final(self).wf(),
            match r {
                Ok(()) => old(self)@.record(task@.id).is_none() && final(self)@ == (TasksView {
                    tasks: old(self)@.tasks.push(submitted(task@)),
                    ..old(self)@
                }),
                Err(e) => e == CoreError::DuplicateId && old(self)@.record(task@.id).is_some() && final(self)@ == old(self)@,
            },
    {
        proof {
            lemma_first_index(self@.tasks, has_id(task@.id));
        }
        if self.find(task.id.0.as_str()).is_some() {
            return Err(CoreError::DuplicateId);
        }
        let record = TaskRecord {
            task,
            phase: TaskPhase::Pending,
            processor_did: None,
            started_at: 0,
            retries: 0,
            result: None,
        };
        let ghost before = self.tasks.deep_view();
        let ghost added = record@;
        assert(forall|j: int| 0 <= j < before.len() ==> !has_id(added.task.id)(#[trigger] before[j]));
        self.tasks.push(record);
        assert(self.tasks.deep_view() =~= before.push(added));
        assert(forall|a: int, b: int|
            0 <= a < b < self@.tasks.len() ==> self@.tasks[a].task.id != self@.tasks[b].task.id);
        Ok(())
    }

    /// Submits a task with a fresh random identifier at the time of the
    /// system clock, bound to the contract `escrow_id`. Returns the
    /// identifier.
    pub fn submit(
        &mut self,
        escrow: &EscrowManager,
        dht: &mut Dht,
        escrow_id: String,
        service_id: ServiceId,
        payload: Vec<u8>,
        requirements: TaskRequirements,
    ) -> (r: Result<TaskId, CoreError>)
        requires
            old(self).wf(),
            old(dht).wf(),
        ensures
            final(self).wf(),
            final(dht).wf(),
            exists|id: Seq<char>, now: u64|
                {
                    let task = #[trigger] new_task(id, escrow_id@, service_id.0@, payload@, requirements, now);
                    &&& id.len() == 36
                    &&& final(self)@ == old(self)@.submit(escrow@, task)
                    &&& final(dht)@ == old(self)@.submit_record(escrow@, old(dht)@, task, now)
                    &&& match r {
                        Ok(task_id) => task_id.0@ == id && old(self)@.submit_refusal(escrow@, task).is_none(),
                        Err(e) => old(self)@.submit_refusal(escrow@, task) == Some(e),
                    }
                },
    {
        let id = TaskId(random_uuid());
        let now = get_current_timestamp();
        let ghost task = new_task(id.0@, escrow_id@, service_id.0@, payload@, requirements, now);
        let r = self.submit_with(escrow, dht, id, escrow_id, service_id, payload, requirements, now);
        assert(self@ == old(self)@.submit(escrow@, task));
        r
    }

    /// Hands the pending task `task_id` to `processor_did` at `now`, and
    /// marks its contract as in progress.
    ///
    /// Fails, and changes nothing, where there is no such task, it is not
    /// pending, or its contract is neither funded nor in progress.
    pub fn accept_at(
        &mut self,
        escrow: &mut EscrowManager,
        dht: &mut Dht,
        task_id: &str,
        processor_did: &str,
        now: u64,
    ) -> (r: Result<(), CoreError>)
        requires
            old(self).wf(),
            old(escrow).wf(),
            old(dht).wf(),
        ensures
            final(self).wf(),
            final(escrow).wf(),
            final(dht).wf(),
            final(dht)@ == old(self)@.accept_record(old(escrow)@, old(dht)@, task_id@, now),
            final(self)@ == old(self)@.accept(old(escrow)@, task_id@, processor_did@, now),
            final(escrow)@ == old(self)@.accept_escrow(old(escrow)@, task_id@),
            match r {
                Ok(()) => old(self)@.accept_refusal(old(escrow)@, task_id@).is_none(),
                Err(e) => old(self)@.accept_refusal(old(escrow)@, task_id@) == Some(e),
            },
    {
        proof {
            lemma_first_index(self@.tasks, has_id(task_id@));
        }
        let i = match self.find(task_id) {
            Some(i) => i,
            None => {
                return Err(CoreError::TaskNotFound);
            },
        };
        if !same_phase(self.tasks[i].phase, TaskPhase::Pending) {
            return Err(CoreError::TaskNotPending);
        }
        let state = match escrow.state_of(self.tasks[i].task.escrow_id.as_str()) {
            Some(s) => s,
            None => {
                return Err(CoreError::EscrowNotFound);
            },
        };
        match state {
            EscrowState::Funded => {
                let started = escrow.start_work(dht, self.tasks[i].task.escrow_id.as_str(), now);
                assert(started is Ok);
            },
            EscrowState::InProgress => {},
            _ => {
                return Err(CoreError::EscrowNotActive);
            },
        }
        let mut record = self.tasks[i].clone();
        record.phase = TaskPhase::Processing;
        record.processor_did = Some(owned(processor_did));
        record.started_at = now;
        self.replace(i, record);
        Ok(())
    }

    /// Hands the pending task `task_id` to `processor_did` at the time of
    /// the system clock.
    pub fn accept(&mut self, escrow: &mut EscrowManager, dht: &mut Dht, task_id: &str, processor_did: &str) -> (r: Result<
        (),
        CoreError,
    >)
        requires
            old(self).wf(),
            old(escrow).wf(),
            old(dht).wf(),
        ensures
            final(self).wf(),
            final(escrow).wf(),
            final(dht).wf(),
            exists|now: u64|
                {
                    &&& final(self)@ == old(self)@.accept(old(escrow)@, task_id@, processor_did@, now)
                    &&& final(dht)@ == old(self)@.accept_record(old(escrow)@, old(dht)@, task_id@, now)
                },
            final(escrow)@ == old(self)@.accept_escrow(old(escrow)@, task_id@),
            match r {
                Ok(()) => old(self)@.accept_refusal(old(escrow)@, task_id@).is_none(),
                Err(e) => old(self)@.accept_refusal(old(escrow)@, task_id@) == Some(e),
            },
    {
        let now = get_current_timestamp();
        self.accept_at(escrow, dht, task_id, processor_did, now)
    }

    /// Takes the result of a processed task from its processor at `now`,
    /// together with the processor's signature for the release of the task's
    /// escrow: the signature is verified against the key that the
    /// processor's identifier names and recorded on the contract, the
    /// contract is published, and the task is completed. Returns the
    /// settlement of the contract that is now due, if one is.
    ///
    /// Fails, and changes nothing, where there is no such task, it is not
    /// processed, the result comes from another than its processor, its
    /// contract is neither funded nor in progress, or the contract refuses
    /// the signature.
    pub fn complete(
        &mut self,
        escrow: &mut EscrowManager,
        dht: &mut Dht,
        task_result: TaskResult,
        signature: Vec<u8>,
        now: u64,
    ) -> (r: Result<Option<SignatureIntent>, CoreError>)
        requires
            old(self).wf(),
            old(escrow).wf(),
            old(dht).wf(),
        ensures
            final(self).wf(),
            final(escrow).wf(),
            final(dht).wf(),
            ({
                let valid = old(self)@.release_verifies(old(escrow)@, task_result@, signature@);
                &&& final(self)@ == old(self)@.complete(old(escrow)@, task_result@, signature@, valid)
                &&& final(escrow)@ == old(self)@.complete_escrow(old(escrow)@, task_result@, signature@, valid)
                &&& final(dht)@ == old(self)@.complete_record(
                    old(escrow)@,
                    old(dht)@,
                    task_result@,
                    signature@,
                    valid,
                    now,
                )
                &&& match r {
                    Ok(due) => old(self)@.complete_refusal(old(escrow)@, task_result@, signature@, valid).is_none()
                        && Ok::<Option<SignatureIntent>, CoreError>(due) == old(escrow)@.add_signature_result(
                        old(self)@.record(task_result@.task_id).unwrap().task.escrow_id,
                        TasksView::release_signature(task_result@, signature@),
                        valid,
                    ),
                    Err(e) => old(self)@.complete_refusal(old(escrow)@, task_result@, signature@, valid) == Some(e),
                }
            }),
            old(escrow)@.all_verified() ==> final(escrow)@.all_verified(),
    {
        proof {
            lemma_first_index(self@.tasks, has_id(task_result@.task_id));
        }
        let valid = match self.find(task_result.task_id.0.as_str()) {
            Some(i) => escrow.signature_verifies(
                self.tasks[i].task.escrow_id.as_str(),
                task_result.processor_did.as_str(),
                &signature,
                SignatureIntent::Release,
            ),
            None => false,
        };
        proof {
            if escrow@.all_verified() && self@.record(task_result@.task_id).is_some() {
                lemma_signing_keeps_verified(
                    escrow@,
                    self@.record(task_result@.task_id).unwrap().task.escrow_id,
                    TasksView::release_signature(task_result@, signature@),
                    valid,
                );
            }
        }
        self.complete_with(escrow, dht, task_result, signature, valid, now)
    }

    /// Takes the result of a processed task from its processor at `now`,
    /// together with the processor's signature for the release of the task's
    /// escrow: the signature is recorded on the contract, the contract is
    /// published, and the task is completed.
    /// `signature_valid` says whether the signature verified. Returns the
    /// settlement of the contract that is now due, if one is.
    ///
    /// Fails, and changes nothing, where there is no such task, it is not
    /// processed, the result comes from another than its processor, its
    /// contract is neither funded nor in progress, or the contract refuses
    /// the signature.
    pub fn complete_with(
        &mut self,
        escrow: &mut EscrowManager,
        dht: &mut Dht,
        task_result: TaskResult,
        signature: Vec<u8>,
        signature_valid: bool,
        now: u64,
    ) -> (r: Result<Option<SignatureIntent>, CoreError>)
        requires
            old(self).wf(),
            old(escrow).wf(),
            old(dht).wf(),
        ensures
            final(self).wf(),
            final(escrow).wf(),
            final(dht).wf(),
            final(dht)@ == old(self)@.complete_record(
                old(escrow)@,
                old(dht)@,
                task_result@,
                signature@,
                signature_valid,
                now,
            ),
            final(self)@ == old(self)@.complete(old(escrow)@, task_result@, signature@, signature_valid),
            final(escrow)@ == old(self)@.complete_escrow(old(escrow)@, task_result@, signature@, signature_valid),
            match r {
                Ok(due) => old(self)@.complete_refusal(old(escrow)@, task_result@, signature@, signature_valid).is_none()
                    && Ok::<Option<SignatureIntent>, CoreError>(due) == old(escrow)@.add_signature_result(
                    old(self)@.record(task_result@.task_id).unwrap().task.escrow_id,
                    TasksView::release_signature(task_result@, signature@),
                    signature_valid,
                ),
                Err(e) => old(self)@.complete_refusal(old(escrow)@, task_result@, signature@, signature_valid) == Some(e),
            },
    {
        proof {
            lemma_first_index(self@.tasks, has_id(task_result@.task_id));
        }
        let i = match self.find(task_result.task_id.0.as_str()) {
            Some(i) => i,
            None => {
                return Err(CoreError::TaskNotFound);
            },
        };
        if !same_phase(self.tasks[i].phase, TaskPhase::Processing) {
            return Err(CoreError::TaskNotProcessing);
        }
        let accepted_by = match &self.tasks[i].processor_did {
            Some(d) => same_text(d.as_str(), task_result.processor_did.as_str()),
            None => false,
        };
        if !accepted_by {
            return Err(CoreError::NotAuthorized);
        }
        let escrow_id = self.tasks[i].task.escrow_id.clone();
        match escrow.state_of(escrow_id.as_str()) {
            None => {
                return Err(CoreError::EscrowNotFound);
            },
            Some(EscrowState::Funded) => {},
            Some(EscrowState::InProgress) => {},
            Some(_) => {
                return Err(CoreError::EscrowNotActive);
            },
        }
        let due = match escrow.add_signature_with(
            dht,
            escrow_id.as_str(),
            task_result.processor_did.as_str(),
            signature,
            SignatureIntent::Release,
            signature_valid,
            now,
        ) {
            Ok(due) => due,
            Err(e) => {
                return Err(e);
            },
        };
        let mut record = self.tasks[i].clone();
        record.phase = TaskPhase::Completed;
        record.result = Some(task_result);
        self.replace(i, record);
        Ok(due)
    }

    /// Looks after the tasks whose processor has not answered within the
    /// task's timeout at `now`: each is queued again, with one retry more,
    /// while it has retries left, and fails otherwise. Returns how many
    /// tasks had timed out.
    pub fn sweep_timeouts(&mut self, now: u64) -> (timed_out_count: usize)
        requires
            old(self).wf(),
        ensures
            final(self).wf(),
            final(self)@ == old(self)@.sweep(now),
            timed_out_count == old(self)@.tasks.filter(timed_out(now)).len(),
    {
        let ghost before = self.tasks.deep_view();
        let ghost budget = self.retry_budget;
        let mut count: usize = 0;
        let mut i: usize = 0;
        proof {
            lemma_filter_empty(before.take(0), timed_out(now));
        }
        while i < self.tasks.len()
            invariant
                i <= self.tasks.len(),
                self.tasks.len() == before.len(),
                self.retry_budget == budget,
                budget == old(self).retry_budget,
                before == old(self).tasks.deep_view(),
                old(self).wf(),
                count <= i,
                count == before.take(i as int).filter(timed_out(now)).len(),
                forall|j: int| 0 <= j < i ==> self.tasks.deep_view()[j] == before[j].swept(budget, now),
                forall|j: int| i <= j < before.len() ==> self.tasks.deep_view()[j] == before[j],
            decreases self.tasks.len() - i,
        {
            proof {
                lemma_filter_step(before, timed_out(now), i as int);
                assert(self.tasks.deep_view()[i as int] == before[i as int]);
            }
            let r = &self.tasks[i];
            if same_phase(r.phase, TaskPhase::Processing) && elapsed_seconds(r.started_at, now)
                >= r.task.requirements.timeout_seconds as u64 {
                count = count + 1;
                let ghost current = self.tasks.deep_view();
                if r.retries < self.retry_budget {
                    let retries = r.retries + 1;
                    self.tasks[i].phase = TaskPhase::Pending;
                    self.tasks[i].processor_did = None;
                    self.tasks[i].retries = retries;
                } else {
                    self.tasks[i].phase = TaskPhase::Failed;
                }
                assert(self.tasks.deep_view() =~= current.update(i as int, before[i as int].swept(budget, now)));
            }
            i = i + 1;
        }
        proof {
            assert(before.take(before.len() as int) =~= before);
            let after = self.tasks.deep_view();
            assert(after =~= old(self)@.sweep(now).tasks);
            assert forall|a: int, b: int| 0 <= a < b < after.len() implies after[a].task.id != after[b].task.id by {
                assert(after[a].task == before[a].task);
                assert(after[b].task == before[b].task);
            }
            assert forall|k: int| 0 <= k < after.len() implies {
                let r = #[trigger] after[k];
                &&& (r.phase == TaskPhase::Processing || r.phase == TaskPhase::Completed) ==> r.processor_did.is_some()
                &&& r.phase == TaskPhase::Completed ==> r.result.is_some() && r.result.unwrap().processor_did
                    == r.processor_did.unwrap() && r.result.unwrap().task_id == r.task.id
            } by {
                assert(after[k] == before[k].swept(budget, now));
                let r0 = before[k];
                assert((r0.phase == TaskPhase::Processing || r0.phase == TaskPhase::Completed)
                    ==> r0.processor_did.is_some());
            }
        }
        count
    }

    /// A copy of the record of the task `task_id`, if there is one.
    pub fn get(&self, task_id: &str) -> (r: Option<TaskRecord>)
        ensures
            match r {
                Some(record) => self@.record(task_id@) == Some(record@),
                None => self@.record(task_id@).is_none(),
            },
    {
        match self.find(task_id) {
            Some(i) => Some(self.tasks[i].clone()),
            None => None,
        }
    }

    fn count_in_phase(&self, phase: TaskPhase) -> (n: usize)
        ensures
            n == self@.tasks.filter(in_phase(phase)).len(),
    {
        let mut n: usize = 0;
        let mut i: usize = 0;
        proof {
            lemma_filter_empty(self@.tasks.take(0), in_phase(phase));
        }
        while i < self.tasks.len()
            invariant
                i <= self.tasks.len(),
                n <= i,
                n == self@.tasks.take(i as int).filter(in_phase(phase)).len(),
            decreases self.tasks.len() - i,
        {
            proof {
                lemma_filter_step(self@.tasks, in_phase(phase), i as int);
            }
            if same_phase(self.tasks[i].phase, phase) {
                n = n + 1;
            }
            i = i + 1;
        }
        assert(self@.tasks.take(self.tasks.len() as int) =~= self@.tasks);
        n
    }

    /// The counts over all tasks.
    pub fn get_stats(&self) -> (r: TaskStats)
        ensures
            r == self@.stats(),
    {
        TaskStats {
            pending_count: self.count_in_phase(TaskPhase::Pending),
            processing_count: self.count_in_phase(TaskPhase::Processing),
            completed_count: self.count_in_phase(TaskPhase::Completed),
            total_tasks: self.tasks.len(),
        }
    }
}

/// A task that is bound to a contract which is not funded is refused as an
/// illegal transition, and nothing is stored or announced.
pub proof fn lemma_submission_needs_funded_escrow(t: TasksView, escrow: EscrowView, dht: DhtView, task: TaskView, now: u64)
    requires
        escrow.contract(task.escrow_id).is_some(),
        escrow.contract(task.escrow_id).unwrap().state != EscrowState::Funded,
    ensures
        t.submit_refusal(escrow, task) == Some(CoreError::EscrowNotFunded),
        CoreError::EscrowNotFunded.spec_kind() == crate::error::ErrorKind::State,
        t.submit(escrow, task) == t,
        t.submit_record(escrow, dht, task, now) == dht,
{
}

/// Replacing the record of a task changes no other record.
proof fn lemma_with_record(t: TasksView, r: TaskRecordView)
    requires
        t.record(r.task.id).is_some(),
    ensures
        t.with_record(r).tasks.len() == t.tasks.len(),
        t.with_record(r).tasks[t.task_index(r.task.id).unwrap()] == r,
        forall|j: int|
            0 <= j < t.tasks.len() && j != t.task_index(r.task.id).unwrap() ==> #[trigger] t.with_record(r).tasks[j]
                == t.tasks[j],
{
    lemma_first_index(t.tasks, has_id(r.task.id));
}

/// Completed tasks stay signed for while the escrow contracts only move
/// along their state machine: no step of it removes a contract or a
/// signature.
pub proof fn lemma_signed_survives_escrow_step(t: TasksView, before: EscrowView, after: EscrowView)
    requires
        t.completed_are_signed(before),
        follows_graph(before, after),
    ensures
        t.completed_are_signed(after),
{
    assert forall|i: int| 0 <= i < t.tasks.len() && (#[trigger] t.tasks[i]).phase == TaskPhase::Completed implies {
        &&& after.contract(t.tasks[i].task.escrow_id).is_some()
        &&& t.tasks[i].processor_did.is_some()
        &&& after.contract(t.tasks[i].task.escrow_id).unwrap().signature_index(
            t.tasks[i].processor_did.unwrap(),
            SignatureIntent::Release,
        ).is_some()
    } by {
        let id = t.tasks[i].task.escrow_id;
        assert(before.contract(id).is_some());
    }
}

/// Every completed task is bound to a contract that holds a signature for
/// the release by the task's processor: where this holds before a task is
/// submitted, accepted or completed, or before a sweep, it holds afterwards.
pub proof fn lemma_completed_stay_signed(
    t: TasksView,
    escrow: EscrowView,
    task: TaskView,
    id: Seq<char>,
    processor: Seq<char>,
    result: TaskResultView,
    signature: Seq<u8>,
    signature_valid: bool,
    now: u64,
)
    requires
        t.wf(),
        escrow.wf(),
        t.completed_are_signed(escrow),
    ensures
        t.submit(escrow, task).completed_are_signed(escrow),
        t.accept(escrow, id, processor, now).completed_are_signed(t.accept_escrow(escrow, id)),
        t.complete(escrow, result, signature, signature_valid).completed_are_signed(
            t.complete_escrow(escrow, result, signature, signature_valid),
        ),
        t.sweep(now).completed_are_signed(escrow),
{
    // Submission adds a pending task.
    let after_submit = t.submit(escrow, task);
    assert forall|i: int|
        0 <= i < after_submit.tasks.len() && (#[trigger] after_submit.tasks[i]).phase
            == TaskPhase::Completed implies {
        &&& escrow.contract(after_submit.tasks[i].task.escrow_id).is_some()
        &&& after_submit.tasks[i].processor_did.is_some()
        &&& escrow.contract(after_submit.tasks[i].task.escrow_id).unwrap().signature_index(
            after_submit.tasks[i].processor_did.unwrap(),
            SignatureIntent::Release,
        ).is_some()
    } by {
        if i < t.tasks.len() {
            assert(after_submit.tasks[i] == t.tasks[i]);
        }
    }

    // The sweep touches processed tasks only.
    let after_sweep = t.sweep(now);
    assert forall|i: int|
        0 <= i < after_sweep.tasks.len() && (#[trigger] after_sweep.tasks[i]).phase == TaskPhase::Completed implies {
        &&& escrow.contract(after_sweep.tasks[i].task.escrow_id).is_some()
        &&& after_sweep.tasks[i].processor_did.is_some()
        &&& escrow.contract(after_sweep.tasks[i].task.escrow_id).unwrap().signature_index(
            after_sweep.tasks[i].processor_did.unwrap(),
            SignatureIntent::Release,
        ).is_some()
    } by {
        assert(after_sweep.tasks[i] == t.tasks[i].swept(t.retry_budget, now));
        assert(t.tasks[i].phase == TaskPhase::Completed);
    }

    // Acceptance turns a pending task into a processed one.
    let sig = TasksView::release_signature(result, signature);
    let after_accept = t.accept(escrow, id, processor, now);
    let escrow_accept = t.accept_escrow(escrow, id);
    lemma_first_index(t.tasks, has_id(id));
    if t.record(id).is_some() && t.accept_refusal(escrow, id).is_none() {
        let r = t.record(id).unwrap();
        lemma_operations_follow_graph(escrow, r.task.escrow_id, sig, signature_valid, true);
        lemma_signed_survives_escrow_step(t, escrow, escrow_accept);
        let updated = TaskRecordView { phase: TaskPhase::Processing, processor_did: Some(processor), started_at: now, ..r };
        lemma_with_record(t, updated);
        assert forall|i: int|
            0 <= i < after_accept.tasks.len() && (#[trigger] after_accept.tasks[i]).phase
                == TaskPhase::Completed implies {
            &&& escrow_accept.contract(after_accept.tasks[i].task.escrow_id).is_some()
            &&& after_accept.tasks[i].processor_did.is_some()
            &&& escrow_accept.contract(after_accept.tasks[i].task.escrow_id).unwrap().signature_index(
                after_accept.tasks[i].processor_did.unwrap(),
                SignatureIntent::Release,
            ).is_some()
        } by {
            assert(after_accept.tasks[i] == t.tasks[i]);
        }
    }

    // Completion records the processor's signature first.
    let after_complete = t.complete(escrow, result, signature, signature_valid);
    let escrow_complete = t.complete_escrow(escrow, result, signature, signature_valid);
    lemma_first_index(t.tasks, has_id(result.task_id));
    if t.record(result.task_id).is_some() && t.complete_refusal(escrow, result, signature, signature_valid).is_none() {
        let r = t.record(result.task_id).unwrap();
        let k = t.task_index(result.task_id).unwrap();
        let c = escrow.contract(r.task.escrow_id).unwrap();
        lemma_first_index(escrow.contracts, crate::escrow::has_id(r.task.escrow_id));
        lemma_operations_follow_graph(escrow, r.task.escrow_id, sig, signature_valid, true);
        lemma_signed_survives_escrow_step(t, escrow, escrow_complete);
        lemma_with_signature(c, sig);
        lemma_signature_keeps_wf(c, sig);
        lemma_with_contract(escrow, c.with_signature(sig));
        let updated = TaskRecordView { phase: TaskPhase::Completed, result: Some(result), ..r };
        lemma_with_record(t, updated);
        assert forall|i: int|
            0 <= i < after_complete.tasks.len() && (#[trigger] after_complete.tasks[i]).phase
                == TaskPhase::Completed implies {
            &&& escrow_complete.contract(after_complete.tasks[i].task.escrow_id).is_some()
            &&& after_complete.tasks[i].processor_did.is_some()
            &&& escrow_complete.contract(after_complete.tasks[i].task.escrow_id).unwrap().signature_index(
                after_complete.tasks[i].processor_did.unwrap(),
                SignatureIntent::Release,
            ).is_some()
        } by {
            if i != k {
                assert(after_complete.tasks[i] == t.tasks[i]);
            }
        }
    }
}

} // verus!
