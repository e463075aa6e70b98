//! The upload queue: pending operations, tasks in flight, and the manifest
//! that is known to be durable.

use std::collections::VecDeque;
use vstd::prelude::*;
use crate::manifest::ManifestSnapshot;
use crate::model::QueueState;
use crate::model::QueueView;
use crate::model::blocked_by_any;
use crate::model::next_retries;
use crate::model::ready_run;
use crate::operation::Operation;
use crate::operation::OperationKind;
use crate::task::Outcome;
use crate::task::Task;
use crate::task::TaskView;
use crate::task::operation_views;

verus! {

/// Why a request was not carried out.
#[derive(Clone, Copy, Debug, PartialEq, Eq, Structural)]
pub enum QueueError {
    /// The queue has not been initialized, or no longer schedules work.
    NotInitialized,
    /// The queue was initialized before.
    AlreadyInitialized,
    /// Shutdown has been asked for.
    NotAcceptingWork,
    /// The attempt failed and the task stays in flight for another one.
    TransientFailure,
    /// The task failed for good and has left the queue.
    FatalFailure,
    /// More tasks would be in flight than the limit allows. The queue never
    /// returns it: it dispatches nothing beyond the limit.
    CapacityExceeded,
    /// No task in flight has the id that was reported.
    UnknownTask,
}

/// The views of a sequence of tasks, in order.
pub open spec fn task_views(tasks: Seq<Task>) -> Seq<TaskView> {
    tasks.map_values(|task: Task| task@)
}

/// Tells whether one of `tasks` holds an operation that conflicts with `op`.
pub fn blocked_by_tasks(tasks: &Vec<Task>, op: &Operation) -> (blocked: bool)
    ensures
        blocked == blocked_by_any(task_views(tasks@), op@),
{
    let mut i: usize = 0;
    while i < tasks.len()
        invariant
            i <= tasks.len(),
            forall|j: int| 0 <= j < i ==> !(#[trigger] task_views(tasks@)[j]).blocks(op@),
        decreases tasks.len() - i,
    {
        if tasks[i].blocks(op) {
            assert(task_views(tasks@)[i as int].blocks(op@));
            return true;
        }
        i += 1;
    }
    false
}

/// Where among `tasks`, whose ids ascend, the task `id` stands.
pub fn position_of(tasks: &Vec<Task>, id: u64) -> (position: Option<usize>)
    ensures
        match position {
            Some(i) => i < tasks@.len() && tasks@[i as int].id == id,
            None => forall|j: int| 0 <= j < tasks@.len() ==> (#[trigger] tasks@[j]).id != id,
        },
{
    let mut i: usize = 0;
    while i < tasks.len()
        invariant
            i <= tasks.len(),
            forall|j: int| 0 <= j < i ==> (#[trigger] tasks@[j]).id != id,
        decreases tasks.len() - i,
    {
        if tasks[i].id == id {
            return Some(i);
        }
        i += 1;
    }
    None
}

/// Tells whether the first of `pending` is of kind `kind` and conflicts with
/// none of `tasks`.
fn head_folds(pending: &VecDeque<Operation>, tasks: &Vec<Task>, kind: OperationKind) -> (folds: bool)
    ensures
        folds == (pending@.len() > 0 && pending@[0]@.kind() == kind && !blocked_by_any(
            task_views(tasks@),
            pending@[0]@,
        )),
{
    if pending.len() == 0 {
        return false;
    }
    if pending[0].kind() != kind {
        return false;
    }
    !blocked_by_tasks(tasks, &pending[0])
}

/// The scheduling queue of one timeline.
#[derive(Debug)]
pub struct UploadQueue {
    state: QueueState,
    pending: VecDeque<Operation>,
    enqueued_at: VecDeque<u64>,
    clock: u64,
    inprogress: Vec<Task>,
    next_task_id: u64,
    manifest: Option<ManifestSnapshot>,
    manifest_task_id: Option<u64>,
    manifest_halted: bool,
    concurrency_limit: usize,
}

impl View for UploadQueue {
    type V = QueueView;

    closed spec fn view(&self) -> QueueView {
        QueueView {
            state: self.state,
            pending: operation_views(self.pending@),
            enqueued_at: self.enqueued_at@,
            clock: self.clock,
            inprogress: task_views(self.inprogress@),
            next_task_id: self.next_task_id,
            manifest: match self.manifest {
                Some(snapshot) => Some(snapshot@),
                None => None,
            },
            manifest_task_id: self.manifest_task_id,
            manifest_halted: self.manifest_halted,
            concurrency_limit: self.concurrency_limit,
        }
    }
}

impl UploadQueue {
    /// A queue that lets at most `concurrency_limit` tasks be in flight. It
    /// takes no work before it is initialized.
    pub fn new(concurrency_limit: usize) -> (queue: UploadQueue)
        ensures
            queue@ == QueueView::created(concurrency_limit),
            queue@.wf(),
    {
        let queue = UploadQueue {
            state: QueueState::Uninitialized,
            pending: VecDeque::new(),
            enqueued_at: VecDeque::new(),
            clock: 0,
            inprogress: Vec::new(),
            next_task_id: 0,
            manifest: None,
            manifest_task_id: None,
            manifest_halted: false,
            concurrency_limit,
        };
        assert(queue@.pending =~= Seq::empty());
        assert(queue@.inprogress =~= Seq::empty());
        queue
    }

    /// Starts the queue from the last durable snapshot and the first task id
    /// to give out. Only the first call is accepted; a later one changes
    /// nothing.
    pub fn initialize(&mut self, snapshot: ManifestSnapshot, start_task_id: u64) -> (result: Result<
        (),
        QueueError,
    >)
        requires
            old(self)@.wf(),
        ensures
            final(self)@.wf(),
            final(self)@ == old(self)@.after_initialize(snapshot@, start_task_id),
            old(self)@.state == QueueState::Uninitialized ==> result.is_ok(),
            old(self)@.state != QueueState::Uninitialized ==> result == Err::<(), QueueError>(
                QueueError::AlreadyInitialized,
            ) && final(self)@ == old(self)@,
    {
        match self.state {
            QueueState::Uninitialized => {
                self.state = QueueState::Initialized;
                self.next_task_id = start_task_id;
                self.manifest = Some(snapshot);
                Ok(())
            },
            _ => Err(QueueError::AlreadyInitialized),
        }
    }

    /// Adds `op` behind the operations that are pending.
    pub fn enqueue(&mut self, op: Operation) -> (result: Result<(), QueueError>)
        requires
            old(self)@.wf(),
        ensures
            final(self)@.wf(),
            final(self)@ == old(self)@.after_enqueue(op@),
            old(self)@.state == QueueState::Initialized ==> result.is_ok(),
            old(self)@.state == QueueState::Uninitialized ==> result == Err::<(), QueueError>(
                QueueError::NotInitialized,
            ),
            old(self)@.state == QueueState::ShuttingDown || old(self)@.state
                == QueueState::Shutdown ==> result == Err::<(), QueueError>(
                QueueError::NotAcceptingWork,
            ),
    {
        match self.state {
            QueueState::Uninitialized => Err(QueueError::NotInitialized),
            QueueState::Initialized => {
                let ghost before = operation_views(self.pending@);
                self.pending.push_back(op);
                self.enqueued_at.push_back(self.clock);
                assert(operation_views(self.pending@) =~= before.push(op@));
                Ok(())
            },
            _ => Err(QueueError::NotAcceptingWork),
        }
    }

    /// Adds `op` before the operations that are pending, so that it is
    /// considered first.
    pub fn enqueue_expedited(&mut self, op: Operation) -> (result: Result<(), QueueError>)
        requires
            old(self)@.wf(),
        ensures
            final(self)@.wf(),
            final(self)@ == old(self)@.after_enqueue_front(op@),
            old(self)@.state == QueueState::Initialized ==> result.is_ok(),
            old(self)@.state == QueueState::Uninitialized ==> result == Err::<(), QueueError>(
                QueueError::NotInitialized,
            ),
            old(self)@.state == QueueState::ShuttingDown || old(self)@.state
                == QueueState::Shutdown ==> result == Err::<(), QueueError>(
                QueueError::NotAcceptingWork,
            ),
    {
        match self.state {
            QueueState::Uninitialized => Err(QueueError::NotInitialized),
            QueueState::Initialized => {
                let ghost before = operation_views(self.pending@);
                self.pending.push_front(op);
                self.enqueued_at.push_front(self.clock);
                assert(operation_views(self.pending@) =~= seq![op@] + before);
                Ok(())
            },
            _ => Err(QueueError::NotAcceptingWork),
        }
    }

    /// Dispatches the operation at the head of the pending queue, if it is
    /// ready: it leaves the queue, together with the operations folded into
    /// it, as a new task in flight, and a copy of the task is handed out.
    ///
    /// Nothing is dispatched, and nothing changes, where nothing is pending,
    /// where the limit is reached, or where the head conflicts with a task in
    /// flight: an operation behind a blocked head is not considered.
    pub fn promote_next(&mut self) -> (result: Result<Option<Task>, QueueError>)
        requires
            old(self)@.wf(),
            old(self)@.next_task_id < u64::MAX,
        ensures
            final(self)@.wf(),
            final(self)@ == old(self)@.after_promotion(),
            final(self)@.inprogress.len() <= final(self)@.concurrency_limit,
            old(self)@.state != QueueState::Initialized ==> (result matches Err(
                QueueError::NotInitialized,
            )),
            old(self)@.state == QueueState::Initialized && !old(self)@.can_promote() ==> (
            result matches Ok(None)),
            old(self)@.can_promote() ==> (result matches Ok(Some(task)) && task@ == old(
                self,
            )@.promoted_task()),
            result matches Ok(Some(task)) ==> forall|i: int|
                0 <= i < task@.ops().len() ==> old(self)@.ready(#[trigger] task@.ops()[i]),
    {
        let ghost before = self@;
        match self.state {
            QueueState::Initialized => {},
            _ => {
                return Err(QueueError::NotInitialized);
            },
        }
        if self.inprogress.len() >= self.concurrency_limit || self.pending.len() == 0 {
            return Ok(None);
        }
        if blocked_by_tasks(&self.inprogress, &self.pending[0]) {
            return Ok(None);
        }
        assert(before.can_promote());
        let primary = self.pending.pop_front().unwrap();
        let _ = self.enqueued_at.pop_front();
        let kind = primary.kind();
        let ghost rest = before.pending.drop_first();
        let ghost times = before.enqueued_at.drop_first();
        assert(operation_views(self.pending@) =~= rest);
        assert(self.enqueued_at@ =~= times);
        let mut coalesced: Vec<Operation> = Vec::new();
        match kind {
            OperationKind::UploadLayer => {},
            _ => {
                let mut more = head_folds(&self.pending, &self.inprogress, kind);
                assert(rest.subrange(0, 0) =~= operation_views(coalesced@));
                assert(rest.subrange(0, rest.len() as int) =~= rest);
                assert(times.subrange(0, times.len() as int) =~= times);
                while more
                    invariant
                        coalesced@.len() + self.pending@.len() == rest.len(),
                        operation_views(coalesced@) == rest.subrange(0, coalesced@.len() as int),
                        operation_views(self.pending@) == rest.subrange(
                            coalesced@.len() as int,
                            rest.len() as int,
                        ),
                        times.len() == rest.len(),
                        self.enqueued_at@ == times.subrange(
                            coalesced@.len() as int,
                            times.len() as int,
                        ),
                        self.clock == before.clock,
                        ready_run(before.inprogress, kind, rest) == coalesced@.len() + ready_run(
                            before.inprogress,
                            kind,
                            operation_views(self.pending@),
                        ),
                        more == (self.pending@.len() > 0 && self.pending@[0]@.kind() == kind
                            && !blocked_by_any(before.inprogress, self.pending@[0]@)),
                        task_views(self.inprogress@) == before.inprogress,
                        self.state == before.state,
                        self.next_task_id == before.next_task_id,
                        self.manifest == old(self).manifest,
                        self.manifest_task_id == before.manifest_task_id,
                        self.manifest_halted == before.manifest_halted,
                        self.concurrency_limit == before.concurrency_limit,
                    decreases self.pending@.len(),
                {
                    let ghost waiting = operation_views(self.pending@);
                    let ghost folded = operation_views(coalesced@);
                    let next = self.pending.pop_front().unwrap();
                    let _ = self.enqueued_at.pop_front();
                    coalesced.push(next);
                    proof {
                        assert(self.enqueued_at@ =~= times.subrange(
                            coalesced@.len() as int,
                            times.len() as int,
                        ));
                        assert(operation_views(self.pending@) =~= waiting.drop_first());
                        assert(operation_views(coalesced@) =~= folded.push(waiting[0]));
                        assert(operation_views(coalesced@) =~= rest.subrange(
                            0,
                            coalesced@.len() as int,
                        ));
                        assert(operation_views(self.pending@) =~= rest.subrange(
                            coalesced@.len() as int,
                            rest.len() as int,
                        ));
                    }
                    more = head_folds(&self.pending, &self.inprogress, kind);
                }
            },
        }
        assert(coalesced@.len() == before.coalesced_count());
        let task = Task {
            id: self.next_task_id,
            retries: 0,
            primary_op: primary,
            coalesced_ops: coalesced,
        };
        let handed = task.clone();
        let ghost flying = task_views(self.inprogress@);
        self.inprogress.push(task);
        self.next_task_id = self.next_task_id + 1;
        proof {
            assert(task_views(self.inprogress@) =~= flying.push(handed@));
            assert(handed@.coalesced_ops =~= before.pending.subrange(
                1,
                1 + before.coalesced_count() as int,
            ));
            assert(operation_views(self.pending@) =~= before.pending.subrange(
                1 + before.coalesced_count() as int,
                before.pending.len() as int,
            ));
            assert(self.enqueued_at@ =~= before.enqueued_at.subrange(
                1 + before.coalesced_count() as int,
                before.enqueued_at.len() as int,
            ));
            crate::model::lemma_promotion_wf(before);
            crate::model::lemma_promoted_task_ready(before);
            assert(self@ == before.after_promotion());
        }
        Ok(Some(handed))
    }

    /// Takes in how an attempt at the task `task_id` ended.
    ///
    /// After a success the task leaves the queue and is handed back; where
    /// it uploaded manifests and is newer than the task behind the current
    /// manifest, its last snapshot becomes the current manifest. After a
    /// transient failure the task stays in flight with one more retry
    /// counted. After a fatal failure the task leaves the queue, and where it
    /// uploaded manifests the manifest is never replaced again. A queue that
    /// is shutting down is shut down once its last task has left.
    pub fn report_completion(&mut self, task_id: u64, outcome: Outcome) -> (result: Result<
        Task,
        QueueError,
    >)
        requires
            old(self)@.wf(),
        ensures
            final(self)@.wf(),
            final(self)@ == old(self)@.after_completion(task_id, outcome),
            old(self)@.state == QueueState::Uninitialized ==> (result matches Err(
                QueueError::NotInitialized,
            )),
            old(self)@.state != QueueState::Uninitialized && !old(self)@.has_task(task_id) ==> (
            result matches Err(QueueError::UnknownTask)),
            old(self)@.state != QueueState::Uninitialized && old(self)@.has_task(task_id)
                ==> match outcome {
                Outcome::Success => (result matches Ok(task) && task@ == old(self)@.task(task_id)),
                Outcome::TransientFailure => (result matches Err(QueueError::TransientFailure)),
                Outcome::FatalFailure => (result matches Err(QueueError::FatalFailure)),
            },
    {
        let ghost before = self@;
        proof {
            crate::model::lemma_completion_wf(before, task_id, outcome);
        }
        match self.state {
            QueueState::Uninitialized => {
                return Err(QueueError::NotInitialized);
            },
            _ => {},
        }
        let index = match position_of(&self.inprogress, task_id) {
            Some(index) => index,
            None => {
                assert forall|j: int| 0 <= j < before.inprogress.len() implies (
                #[trigger] before.inprogress[j]).id != task_id by {
                    assert(self.inprogress@[j].id != task_id);
                }
                return Err(QueueError::UnknownTask);
            },
        };
        proof {
            assert(before.inprogress[index as int].id == task_id);
            crate::model::lemma_index_of(before, task_id);
            assert(before.index_of(task_id) == index);
        }
        let ghost flying = self.inprogress@;
        let mut task = self.inprogress.remove(index);
        assert(task@ == before.task(task_id));
        match outcome {
            Outcome::TransientFailure => {
                if task.retries < u32::MAX {
                    task.retries = task.retries + 1;
                }
                self.inprogress.insert(index, task);
                assert(task_views(self.inprogress@) =~= before.inprogress.update(
                    index as int,
                    TaskView {
                        retries: next_retries(before.inprogress[index as int].retries),
                        ..before.inprogress[index as int]
                    },
                ));
                Err(QueueError::TransientFailure)
            },
            Outcome::Success => {
                assert(task_views(self.inprogress@) =~= before.inprogress.remove(index as int));
                self.leave_if_drained();
                let newer = match self.manifest_task_id {
                    Some(id) => id < task.id,
                    None => true,
                };
                if newer && !self.manifest_halted {
                    match task.final_snapshot() {
                        Some(snapshot) => {
                            match &task.primary_op {
                                Operation::UploadMetadata { .. } => {
                                    self.manifest = Some(snapshot.clone());
                                    self.manifest_task_id = Some(task.id);
                                },
                                _ => {},
                            }
                        },
                        None => {
                            proof {
                                if task@.primary_op is UploadMetadata {
                                    crate::task::lemma_last_snapshot_found(task@.ops(), 0);
                                }
                            }
                        },
                    }
                }
                Ok(task)
            },
            Outcome::FatalFailure => {
                assert(task_views(self.inprogress@) =~= before.inprogress.remove(index as int));
                self.leave_if_drained();
                match &task.primary_op {
                    Operation::UploadMetadata { .. } => {
                        self.manifest_halted = true;
                    },
                    _ => {},
                }
                Err(QueueError::FatalFailure)
            },
        }
    }

    /// Ends the shutdown once nothing is in flight any more.
    fn leave_if_drained(&mut self)
        ensures
            final(self).state == (if old(self).state == QueueState::ShuttingDown && old(
                self,
            ).inprogress@.len() == 0 {
                QueueState::Shutdown
            } else {
                old(self).state
            }),
            final(self).pending == old(self).pending,
            final(self).enqueued_at == old(self).enqueued_at,
            final(self).clock == old(self).clock,
            final(self).inprogress == old(self).inprogress,
            final(self).next_task_id == old(self).next_task_id,
            final(self).manifest == old(self).manifest,
            final(self).manifest_task_id == old(self).manifest_task_id,
            final(self).manifest_halted == old(self).manifest_halted,
            final(self).concurrency_limit == old(self).concurrency_limit,
    {
        match self.state {
            QueueState::ShuttingDown => {
                if self.inprogress.len() == 0 {
                    self.state = QueueState::Shutdown;
                }
            },
            _ => {},
        }
    }

    /// Asks the queue to stop: what is pending is dropped, no new work is
    /// taken, and the tasks in flight are waited for. Asking again changes
    /// nothing. A queue that was never initialized has nothing to stop.
    pub fn shutdown(&mut self) -> (result: Result<(), QueueError>)
        requires
            old(self)@.wf(),
        ensures
            final(self)@.wf(),
            final(self)@ == old(self)@.after_shutdown(),
            old(self)@.state == QueueState::Uninitialized ==> result == Err::<(), QueueError>(
                QueueError::NotInitialized,
            ),
            old(self)@.state != QueueState::Uninitialized ==> result.is_ok(),
    {
        match self.state {
            QueueState::Uninitialized => Err(QueueError::NotInitialized),
            QueueState::Initialized => {
                self.pending.clear();
                self.enqueued_at.clear();
                assert(operation_views(self.pending@) =~= Seq::empty());
                if self.inprogress.len() == 0 {
                    self.state = QueueState::Shutdown;
                } else {
                    self.state = QueueState::ShuttingDown;
                }
                Ok(())
            },
            _ => Ok(()),
        }
    }

    /// Tells the queue that the time is `now`, in the caller's unit. A time
    /// before the latest one that it was told changes nothing.
    pub fn advance_clock(&mut self, now: u64)
        requires
            old(self)@.wf(),
        ensures
            final(self)@.wf(),
            final(self)@ == old(self)@.after_clock(now),
    {
        if now > self.clock {
            self.clock = now;
        }
    }

    /// For how long the pending operation that was enqueued first has
    /// waited, by the time that the queue was told; none where nothing is
    /// pending.
    pub fn oldest_pending_age(&self) -> (age: Option<u64>)
        requires
            self@.wf(),
        ensures
            age == self@.oldest_pending_age(),
    {
        if self.enqueued_at.len() == 0 {
            return None;
        }
        let mut oldest = self.enqueued_at[0];
        let mut i: usize = 1;
        assert(self.enqueued_at@.subrange(0, 1).len() == 1);
        while i < self.enqueued_at.len()
            invariant
                1 <= i <= self.enqueued_at.len(),
                oldest == crate::model::earliest(self.enqueued_at@.subrange(0, i as int)),
            decreases self.enqueued_at.len() - i,
        {
            proof {
                let prefix = self.enqueued_at@.subrange(0, i + 1);
                assert(prefix.drop_last() =~= self.enqueued_at@.subrange(0, i as int));
                assert(prefix.last() == self.enqueued_at@[i as int]);
            }
            if self.enqueued_at[i] < oldest {
                oldest = self.enqueued_at[i];
            }
            i += 1;
        }
        proof {
            assert(self.enqueued_at@.subrange(0, i as int) =~= self.enqueued_at@);
            crate::model::lemma_earliest(self.enqueued_at@);
        }
        Some(self.clock - oldest)
    }

    pub fn state(&self) -> (state: QueueState)
        ensures
            state == self@.state,
    {
        self.state
    }

    /// How many operations wait to be dispatched.
    pub fn pending_len(&self) -> (depth: usize)
        ensures
            depth == self@.pending.len(),
    {
        self.pending.len()
    }

    /// How many tasks are in flight.
    pub fn inprogress_len(&self) -> (count: usize)
        ensures
            count == self@.inprogress.len(),
    {
        self.inprogress.len()
    }

    pub fn concurrency_limit(&self) -> (limit: usize)
        ensures
            limit == self@.concurrency_limit,
    {
        self.concurrency_limit
    }

    /// Tells whether the limit leaves room for one more task.
    pub fn has_capacity(&self) -> (room: bool)
        ensures
            room == (self@.inprogress.len() < self@.concurrency_limit),
    {
        self.inprogress.len() < self.concurrency_limit
    }

    /// The id that the next task gets.
    pub fn next_task_id(&self) -> (id: u64)
        ensures
            id == self@.next_task_id,
    {
        self.next_task_id
    }

    /// The last snapshot known to be durable; none before the queue is
    /// initialized.
    pub fn current_manifest(&self) -> (manifest: Option<&ManifestSnapshot>)
        ensures
            manifest.is_some() == self@.manifest.is_some(),
            manifest matches Some(snapshot) ==> Some(snapshot@) == self@.manifest,
    {
        self.manifest.as_ref()
    }

    /// Tells whether a manifest upload has failed for good.
    pub fn manifest_halted(&self) -> (halted: bool)
        ensures
            halted == self@.manifest_halted,
    {
        self.manifest_halted
    }

    /// Tells whether `op` conflicts with no task in flight.
    pub fn is_ready(&self, op: &Operation) -> (ready: bool)
        ensures
            ready == self@.ready(op@),
    {
        !blocked_by_tasks(&self.inprogress, op)
    }

    /// How many attempts at the task `task_id` have failed; none where no
    /// such task is in flight.
    pub fn retries_of(&self, task_id: u64) -> (retries: Option<u32>)
        requires
            self@.wf(),
        ensures
            retries == (if self@.has_task(task_id) {
                Some(self@.task(task_id).retries)
            } else {
                None
            }),
    {
        match position_of(&self.inprogress, task_id) {
            Some(index) => {
                proof {
                    assert(self@.inprogress[index as int].id == task_id);
                    crate::model::lemma_index_of(self@, task_id);
                }
                Some(self.inprogress[index].retries)
            },
            None => {
                assert forall|j: int| 0 <= j < self@.inprogress.len() implies (
                #[trigger] self@.inprogress[j]).id != task_id by {
                    assert(self.inprogress@[j].id != task_id);
                }
                None
            },
        }
    }
}

} // verus!
