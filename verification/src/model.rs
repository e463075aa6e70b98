//! The upload queue as a mathematical state machine.
//!
//! [`QueueView`] is the value of a queue, and the functions on it say what
//! each request does to that value. The executable queue is specified by
//! them.

use vstd::prelude::*;
use crate::manifest::ManifestView;
use crate::operation::OperationKind;
use crate::operation::OperationView;
use crate::task::Outcome;
use crate::task::TaskView;

verus! {

/// Where a queue is in its life.
#[derive(Clone, Copy, Debug, PartialEq, Eq, Structural)]
pub enum QueueState {
    /// Created, and not yet told the durable manifest.
    Uninitialized,
    /// Accepting and scheduling work.
    Initialized,
    /// Shutdown was asked for while tasks were in flight.
    ShuttingDown,
    /// Terminal: nothing is pending and nothing is in flight.
    Shutdown,
}

/// The mathematical value of an upload queue.
pub ghost struct QueueView {
    pub state: QueueState,
    /// The operations that wait to be dispatched, the next one first.
    pub pending: Seq<OperationView>,
    /// For each pending operation, the time at which it was enqueued.
    pub enqueued_at: Seq<u64>,
    /// The latest time that the queue was told.
    pub clock: u64,
    /// The tasks in flight, in the order of their ids.
    pub inprogress: Seq<TaskView>,
    /// The id that the next task gets.
    pub next_task_id: u64,
    /// The last snapshot known to be durable; none before the queue is
    /// initialized.
    pub manifest: Option<ManifestView>,
    /// The task that made `manifest` durable, if a task did.
    pub manifest_task_id: Option<u64>,
    /// Whether a manifest upload has failed for good.
    pub manifest_halted: bool,
    pub concurrency_limit: usize,
}

/// What can be asked of a queue.
pub ghost enum Request {
    Initialize { manifest: ManifestView, start_task_id: u64 },
    Enqueue { op: OperationView },
    EnqueueExpedited { op: OperationView },
    PromoteNext,
    ReportCompletion { task_id: u64, outcome: Outcome },
    Shutdown,
    AdvanceClock { now: u64 },
}

/// The earliest of `times`, which is not empty.
pub open spec fn earliest(times: Seq<u64>) -> u64
    recommends
        times.len() > 0,
    decreases times.len(),
{
    if times.len() <= 1 {
        times[0]
    } else if times.last() < earliest(times.drop_last()) {
        times.last()
    } else {
        earliest(times.drop_last())
    }
}

/// The earliest of some times is one of them and after none of them.
pub proof fn lemma_earliest(times: Seq<u64>)
    requires
        times.len() > 0,
    ensures
        times.contains(earliest(times)),
        forall|i: int| 0 <= i < times.len() ==> earliest(times) <= #[trigger] times[i],
    decreases times.len(),
{
    if times.len() <= 1 {
        assert(times[0] == earliest(times));
    } else {
        let front = times.drop_last();
        lemma_earliest(front);
        let found = choose|i: int| 0 <= i < front.len() && front[i] == earliest(front);
        assert(times[found] == earliest(front));
        assert(times[times.len() - 1] == times.last());
        assert forall|i: int| 0 <= i < times.len() implies earliest(times) <= #[trigger] times[i] by {
            if i < front.len() {
                assert(front[i] == times[i]);
            }
        }
    }
}

/// How many operations at the front of `ops` are of kind `kind` and blocked
/// by none of `tasks`.
pub open spec fn ready_run(tasks: Seq<TaskView>, kind: OperationKind, ops: Seq<OperationView>) -> nat
    decreases ops.len(),
{
    if ops.len() > 0 && ops[0].kind() == kind && !blocked_by_any(tasks, ops[0]) {
        1 + ready_run(tasks, kind, ops.drop_first())
    } else {
        0
    }
}

/// Whether one of `tasks` holds an operation that conflicts with `op`.
pub open spec fn blocked_by_any(tasks: Seq<TaskView>, op: OperationView) -> bool {
    exists|i: int| 0 <= i < tasks.len() && (#[trigger] tasks[i]).blocks(op)
}

/// The retry counter after one more failed attempt.
pub open spec fn next_retries(retries: u32) -> u32 {
    if retries < u32::MAX {
        (retries + 1) as u32
    } else {
        retries
    }
}

impl QueueView {
    /// The queue as it is created.
    pub open spec fn created(concurrency_limit: usize) -> QueueView {
        QueueView {
            state: QueueState::Uninitialized,
            pending: Seq::empty(),
            enqueued_at: Seq::empty(),
            clock: 0,
            inprogress: Seq::empty(),
            next_task_id: 0,
            manifest: None,
            manifest_task_id: None,
            manifest_halted: false,
            concurrency_limit,
        }
    }

    /// Whether no two tasks in flight hold operations that conflict.
    pub open spec fn conflict_free(self) -> bool {
        forall|i: int, j: int|
            0 <= i < j < self.inprogress.len() ==> !(#[trigger] self.inprogress[i]).conflicts_with(
                #[trigger] self.inprogress[j],
            )
    }

    /// What holds of every queue: no more tasks are in flight than the limit
    /// allows, no two of them conflict, their ids ascend and lie below the
    /// next id to be given out, every pending operation has the time of its
    /// enqueuing, and the state agrees with what is pending and in flight.
    pub open spec fn wf(self) -> bool {
        &&& self.conflict_free()
        &&& self.enqueued_at.len() == self.pending.len()
        &&& forall|i: int|
            0 <= i < self.enqueued_at.len() ==> (#[trigger] self.enqueued_at[i]) <= self.clock
        &&& self.inprogress.len() <= self.concurrency_limit
        &&& forall|i: int, j: int|
            0 <= i < j < self.inprogress.len() ==> (#[trigger] self.inprogress[i]).id < (
            #[trigger] self.inprogress[j]).id
        &&& forall|i: int|
            0 <= i < self.inprogress.len() ==> (#[trigger] self.inprogress[i]).id
                < self.next_task_id
        &&& (self.manifest_task_id matches Some(id) ==> id < self.next_task_id)
        &&& (self.state == QueueState::Uninitialized ==> self.pending.len() == 0
            && self.inprogress.len() == 0 && self.manifest_task_id.is_none()
            && !self.manifest_halted)
        &&& (self.state == QueueState::Uninitialized <==> self.manifest.is_none())
        &&& (self.state == QueueState::ShuttingDown ==> self.pending.len() == 0
            && self.inprogress.len() > 0)
        &&& (self.state == QueueState::Shutdown ==> self.pending.len() == 0
            && self.inprogress.len() == 0)
    }

    /// Whether a task with the id `id` is in flight.
    pub open spec fn has_task(self, id: u64) -> bool {
        exists|i: int| 0 <= i < self.inprogress.len() && (#[trigger] self.inprogress[i]).id == id
    }

    /// The place of the task `id` among the tasks in flight.
    pub open spec fn index_of(self, id: u64) -> int {
        choose|i: int| 0 <= i < self.inprogress.len() && (#[trigger] self.inprogress[i]).id == id
    }

    /// The task in flight with the id `id`.
    pub open spec fn task(self, id: u64) -> TaskView
        recommends
            self.has_task(id),
    {
        self.inprogress[self.index_of(id)]
    }

    /// Whether no task in flight holds an operation that conflicts with `op`.
    pub open spec fn ready(self, op: OperationView) -> bool {
        !blocked_by_any(self.inprogress, op)
    }

    /// The queue after it was asked to start from `manifest` and
    /// `start_task_id`: only a queue that was never initialized changes.
    pub open spec fn after_initialize(self, manifest: ManifestView, start_task_id: u64) -> QueueView {
        if self.state == QueueState::Uninitialized {
            QueueView {
                state: QueueState::Initialized,
                next_task_id: start_task_id,
                manifest: Some(manifest),
                ..self
            }
        } else {
            self
        }
    }

    /// The queue after it was asked to take `op` at the tail: only an
    /// initialized queue takes it.
    pub open spec fn after_enqueue(self, op: OperationView) -> QueueView {
        if self.state == QueueState::Initialized {
            QueueView {
                pending: self.pending.push(op),
                enqueued_at: self.enqueued_at.push(self.clock),
                ..self
            }
        } else {
            self
        }
    }

    /// The queue after it was asked to take `op` at the head: only an
    /// initialized queue takes it.
    pub open spec fn after_enqueue_front(self, op: OperationView) -> QueueView {
        if self.state == QueueState::Initialized {
            QueueView {
                pending: seq![op] + self.pending,
                enqueued_at: seq![self.clock] + self.enqueued_at,
                ..self
            }
        } else {
            self
        }
    }

    /// Whether the head of the pending queue can be dispatched now: the queue
    /// is initialized, something is pending, the limit leaves room, and the
    /// head conflicts with nothing in flight.
    pub open spec fn can_promote(self) -> bool {
        &&& self.state == QueueState::Initialized
        &&& self.pending.len() > 0
        &&& self.inprogress.len() < self.concurrency_limit
        &&& self.ready(self.pending[0])
    }

    /// How many operations behind the head are folded into its task: uploads
    /// of layers are dispatched alone; behind a deletion or a manifest upload,
    /// the operations of the same kind that follow it directly and are ready.
    pub open spec fn coalesced_count(self) -> nat
        recommends
            self.pending.len() > 0,
    {
        if self.pending[0].kind() == OperationKind::UploadLayer {
            0
        } else {
            ready_run(self.inprogress, self.pending[0].kind(), self.pending.drop_first())
        }
    }

    /// The task that a promotion makes.
    pub open spec fn promoted_task(self) -> TaskView
        recommends
            self.can_promote(),
    {
        TaskView {
            id: self.next_task_id,
            retries: 0,
            primary_op: self.pending[0],
            coalesced_ops: self.pending.subrange(1, 1 + self.coalesced_count() as int),
        }
    }

    /// The queue after it was asked to dispatch its head: where the head can
    /// be dispatched, it and the operations folded into it have left the
    /// pending queue and their task is in flight; otherwise nothing changed.
    pub open spec fn after_promotion(self) -> QueueView
        recommends
            self.next_task_id < u64::MAX,
    {
        if self.can_promote() {
            QueueView {
                pending: self.pending.subrange(
                    1 + self.coalesced_count() as int,
                    self.pending.len() as int,
                ),
                enqueued_at: self.enqueued_at.subrange(
                    1 + self.coalesced_count() as int,
                    self.enqueued_at.len() as int,
                ),
                inprogress: self.inprogress.push(self.promoted_task()),
                next_task_id: (self.next_task_id + 1) as u64,
                ..self
            }
        } else {
            self
        }
    }

    /// Whether the success of `task` replaces the manifest: the task uploads
    /// manifests, none of these uploads has failed for good, and the task is
    /// newer than the one that made the current manifest durable.
    pub open spec fn advances_manifest(self, task: TaskView) -> bool {
        &&& task.primary_op is UploadMetadata
        &&& !self.manifest_halted
        &&& (self.manifest_task_id matches Some(id) ==> id < task.id)
    }

    /// The state once the task at `index` has left the tasks in flight.
    pub open spec fn state_without(self, index: int) -> QueueState {
        if self.state == QueueState::ShuttingDown && self.inprogress.len() == 1 {
            QueueState::Shutdown
        } else {
            self.state
        }
    }

    /// The queue after the outcome of the task `id` was reported.
    pub open spec fn after_completion(self, id: u64, outcome: Outcome) -> QueueView {
        if self.state == QueueState::Uninitialized || !self.has_task(id) {
            self
        } else {
            let index = self.index_of(id);
            let task = self.inprogress[index];
            match outcome {
                Outcome::TransientFailure => QueueView {
                    inprogress: self.inprogress.update(
                        index,
                        TaskView { retries: next_retries(task.retries), ..task },
                    ),
                    ..self
                },
                Outcome::Success => {
                    if self.advances_manifest(task) {
                        QueueView {
                            state: self.state_without(index),
                            inprogress: self.inprogress.remove(index),
                            manifest: task.final_snapshot(),
                            manifest_task_id: Some(task.id),
                            ..self
                        }
                    } else {
                        QueueView {
                            state: self.state_without(index),
                            inprogress: self.inprogress.remove(index),
                            ..self
                        }
                    }
                },
                Outcome::FatalFailure => QueueView {
                    state: self.state_without(index),
                    inprogress: self.inprogress.remove(index),
                    manifest_halted: self.manifest_halted || task.primary_op is UploadMetadata,
                    ..self
                },
            }
        }
    }

    /// The queue after `request`.
    pub open spec fn after(self, request: Request) -> QueueView {
        match request {
            Request::Initialize { manifest, start_task_id } => self.after_initialize(
                manifest,
                start_task_id,
            ),
            Request::Enqueue { op } => self.after_enqueue(op),
            Request::EnqueueExpedited { op } => self.after_enqueue_front(op),
            Request::PromoteNext => self.after_promotion(),
            Request::ReportCompletion { task_id, outcome } => self.after_completion(
                task_id,
                outcome,
            ),
            Request::Shutdown => self.after_shutdown(),
            Request::AdvanceClock { now } => self.after_clock(now),
        }
    }

    /// The queue after it was told that the time is `now`: its clock never
    /// goes back.
    pub open spec fn after_clock(self, now: u64) -> QueueView {
        QueueView {
            clock: if now > self.clock {
                now
            } else {
                self.clock
            },
            ..self
        }
    }

    /// For how long the pending operation that was enqueued first has
    /// waited, by the queue's clock; none where nothing is pending.
    pub open spec fn oldest_pending_age(self) -> Option<u64> {
        if self.enqueued_at.len() == 0 {
            None
        } else {
            Some((self.clock - earliest(self.enqueued_at)) as u64)
        }
    }

    /// The queue after shutdown was asked for.
    pub open spec fn after_shutdown(self) -> QueueView {
        match self.state {
            QueueState::Uninitialized => self,
            QueueState::Initialized => QueueView {
                state: if self.inprogress.len() == 0 {
                    QueueState::Shutdown
                } else {
                    QueueState::ShuttingDown
                },
                pending: Seq::empty(),
                enqueued_at: Seq::empty(),
                ..self
            },
            QueueState::ShuttingDown => self,
            QueueState::Shutdown => self,
        }
    }
}

/// The run counted by [`ready_run`] lies within `ops`, each operation in it
/// is of the kind and ready, and the operation behind it, if there is one,
/// is not.
pub proof fn lemma_ready_run(tasks: Seq<TaskView>, kind: OperationKind, ops: Seq<OperationView>)
    ensures
        ready_run(tasks, kind, ops) <= ops.len(),
        forall|i: int|
            0 <= i < ready_run(tasks, kind, ops) ==> (#[trigger] ops[i]).kind() == kind
                && !blocked_by_any(tasks, ops[i]),
        ready_run(tasks, kind, ops) < ops.len() ==> {
            let next = ops[ready_run(tasks, kind, ops) as int];
            next.kind() != kind || blocked_by_any(tasks, next)
        },
    decreases ops.len(),
{
    if ops.len() > 0 && ops[0].kind() == kind && !blocked_by_any(tasks, ops[0]) {
        let rest = ops.drop_first();
        lemma_ready_run(tasks, kind, rest);
        assert forall|i: int| 0 <= i < ready_run(tasks, kind, ops) implies (#[trigger] ops[i]).kind()
            == kind && !blocked_by_any(tasks, ops[i]) by {
            if i > 0 {
                assert(ops[i] == rest[i - 1]);
            }
        }
        if ready_run(tasks, kind, ops) < ops.len() {
            assert(ops[ready_run(tasks, kind, ops) as int] == rest[ready_run(tasks, kind, rest) as int]);
        }
    }
}

/// In a well-formed queue a task in flight is found at one place only.
pub proof fn lemma_index_of(q: QueueView, id: u64)
    requires
        q.wf(),
        q.has_task(id),
    ensures
        0 <= q.index_of(id) < q.inprogress.len(),
        q.inprogress[q.index_of(id)].id == id,
        forall|i: int|
            0 <= i < q.inprogress.len() && (#[trigger] q.inprogress[i]).id == id ==> i
                == q.index_of(id),
{
    let found = q.index_of(id);
    assert forall|i: int| 0 <= i < q.inprogress.len() && (#[trigger] q.inprogress[i]).id
        == id implies i == found by {
        if i < found {
            assert(q.inprogress[i].id < q.inprogress[found].id);
        }
        if found < i {
            assert(q.inprogress[found].id < q.inprogress[i].id);
        }
    }
}

/// A promotion keeps the queue well formed.
pub proof fn lemma_promotion_wf(q: QueueView)
    requires
        q.wf(),
        q.next_task_id < u64::MAX,
    ensures
        q.after_promotion().wf(),
        q.can_promote() ==> q.coalesced_count() < q.pending.len(),
{
    if q.can_promote() {
        lemma_ready_run(q.inprogress, q.pending[0].kind(), q.pending.drop_first());
        let after = q.after_promotion();
        assert forall|i: int, j: int| 0 <= i < j < after.inprogress.len() implies (
        #[trigger] after.inprogress[i]).id < (#[trigger] after.inprogress[j]).id by {
            if j < q.inprogress.len() {
                assert(q.inprogress[i].id < q.inprogress[j].id);
            } else {
                assert(q.inprogress[i].id < q.next_task_id);
            }
        }
        assert forall|i: int| 0 <= i < after.inprogress.len() implies (
        #[trigger] after.inprogress[i]).id < after.next_task_id by {
            if i < q.inprogress.len() {
                assert(q.inprogress[i].id < q.next_task_id);
            }
        }
    }
}

/// Reporting an outcome keeps the queue well formed.
pub proof fn lemma_completion_wf(q: QueueView, id: u64, outcome: Outcome)
    requires
        q.wf(),
    ensures
        q.after_completion(id, outcome).wf(),
{
    if q.state != QueueState::Uninitialized && q.has_task(id) {
        lemma_index_of(q, id);
        let index = q.index_of(id);
        let after = q.after_completion(id, outcome);
        if q.inprogress[index].primary_op is UploadMetadata {
            crate::task::lemma_last_snapshot_found(q.inprogress[index].ops(), 0);
        }
        match outcome {
            Outcome::TransientFailure => {
                assert forall|i: int, j: int| 0 <= i < j < after.inprogress.len() implies (
                #[trigger] after.inprogress[i]).id < (#[trigger] after.inprogress[j]).id by {
                    assert(q.inprogress[i].id < q.inprogress[j].id);
                }
                assert forall|i: int| 0 <= i < after.inprogress.len() implies (
                #[trigger] after.inprogress[i]).id < after.next_task_id by {
                    assert(q.inprogress[i].id < q.next_task_id);
                }
            },
            _ => {
                assert(after.inprogress == q.inprogress.remove(index));
                assert forall|i: int, j: int| 0 <= i < j < after.inprogress.len() implies (
                #[trigger] after.inprogress[i]).id < (#[trigger] after.inprogress[j]).id by {
                    let from_i = if i < index { i } else { i + 1 };
                    let from_j = if j < index { j } else { j + 1 };
                    assert(after.inprogress[i] == q.inprogress[from_i]);
                    assert(after.inprogress[j] == q.inprogress[from_j]);
                    assert(q.inprogress[from_i].id < q.inprogress[from_j].id);
                }
                assert forall|i: int| 0 <= i < after.inprogress.len() implies (
                #[trigger] after.inprogress[i]).id < after.next_task_id by {
                    let from_i = if i < index { i } else { i + 1 };
                    assert(after.inprogress[i] == q.inprogress[from_i]);
                    assert(q.inprogress[from_i].id < q.next_task_id);
                }
                assert(q.inprogress[index].id < q.next_task_id);
            },
        }
    }
}

/// Every operation of a promoted task, the primary one and the folded
/// ones, conflicts with no task that was in flight at the promotion.
pub proof fn lemma_promoted_task_ready(q: QueueView)
    requires
        q.can_promote(),
    ensures
        forall|i: int|
            0 <= i < q.promoted_task().ops().len() ==> q.ready(#[trigger] q.promoted_task().ops()[i]),
        forall|i: int|
            0 <= i < q.promoted_task().ops().len() ==> (#[trigger] q.promoted_task().ops()[i])
                == q.pending[i],
        forall|i: int|
            0 <= i < q.promoted_task().ops().len() ==> (#[trigger] q.promoted_task().ops()[i]).kind()
                == q.pending[0].kind(),
        q.promoted_task().ops() == q.pending.subrange(0, 1 + q.coalesced_count() as int),
        1 + q.coalesced_count() <= q.pending.len(),
{
    let rest = q.pending.drop_first();
    let kind = q.pending[0].kind();
    lemma_ready_run(q.inprogress, kind, rest);
    let ops = q.promoted_task().ops();
    assert(ops =~= q.pending.subrange(0, 1 + q.coalesced_count() as int));
    assert forall|i: int| 0 <= i < ops.len() implies q.ready(#[trigger] ops[i]) && ops[i].kind()
        == kind by {
        if i > 0 {
            assert(ops[i] == rest[i - 1]);
        }
    }
}

} // verus!
