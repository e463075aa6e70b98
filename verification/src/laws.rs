//! What holds of the queue whatever is asked of it, and in what sense its
//! scheduling changes nothing about the outcome.

use vstd::prelude::*;
use crate::model::QueueState;
use crate::model::QueueView;
use crate::model::Request;
use crate::model::lemma_completion_wf;
use crate::model::lemma_index_of;
use crate::model::lemma_promoted_task_ready;
use crate::model::lemma_promotion_wf;
use crate::operation::conflicts;
use crate::remote::RemoteView;
use crate::remote::lemma_apply_all_concat;
use crate::remote::lemma_apply_all_manifest;
use crate::task::Outcome;
use crate::task::lemma_last_snapshot_absent;
use crate::task::lemma_last_snapshot_found;

verus! {

/// Whether `request` can be asked of `q`: a promotion needs an id to give
/// out.
pub open spec fn admissible(q: QueueView, request: Request) -> bool {
    request is PromoteNext ==> q.next_task_id < u64::MAX
}

/// Every request leaves a well-formed queue well formed. In particular no
/// more tasks are ever in flight than the limit allows, and no two tasks in
/// flight ever hold operations that conflict.
pub proof fn lemma_requests_keep_wf(q: QueueView, request: Request)
    requires
        q.wf(),
        admissible(q, request),
    ensures
        q.after(request).wf(),
        q.after(request).inprogress.len() <= q.after(request).concurrency_limit,
        q.after(request).concurrency_limit == q.concurrency_limit,
        q.after(request).conflict_free(),
{
    match request {
        Request::PromoteNext => {
            lemma_promotion_wf(q);
        },
        Request::ReportCompletion { task_id, outcome } => {
            lemma_completion_wf(q, task_id, outcome);
        },
        _ => {},
    }
}

/// A task that is in flight before and after a request is the same task
/// after it, but for its retry counter, which has not gone down.
pub proof fn lemma_retries_never_decrease(q: QueueView, request: Request, id: u64)
    requires
        q.wf(),
        admissible(q, request),
        q.has_task(id),
        q.after(request).has_task(id),
    ensures
        q.after(request).task(id).retries >= q.task(id).retries,
        q.after(request).task(id).primary_op == q.task(id).primary_op,
        q.after(request).task(id).coalesced_ops == q.task(id).coalesced_ops,
{
    let after = q.after(request);
    lemma_requests_keep_wf(q, request);
    lemma_index_of(q, id);
    lemma_index_of(after, id);
    let was = q.index_of(id);
    let now = after.index_of(id);
    match request {
        Request::PromoteNext => {
            if q.can_promote() {
                assert(after.inprogress[was] == q.inprogress[was]);
            }
        },
        Request::ReportCompletion { task_id, outcome } => {
            if q.state != QueueState::Uninitialized && q.has_task(task_id) {
                lemma_index_of(q, task_id);
                let reported = q.index_of(task_id);
                match outcome {
                    Outcome::TransientFailure => {
                        assert(after.inprogress[was].id == id);
                    },
                    _ => {
                        assert(after.inprogress == q.inprogress.remove(reported));
                        let from = if now < reported {
                            now
                        } else {
                            now + 1
                        };
                        assert(after.inprogress[now] == q.inprogress[from]);
                        assert(q.inprogress[from].id == id);
                    },
                }
            }
        },
        _ => {},
    }
}

/// Ids are given out in ascending order and never twice: a task that a
/// request puts in flight has the id that was next, and the next id has gone
/// up by one.
pub proof fn lemma_ids_are_fresh(q: QueueView, request: Request, id: u64)
    requires
        q.wf(),
        admissible(q, request),
        !q.has_task(id),
        q.after(request).has_task(id),
    ensures
        request is PromoteNext,
        id == q.next_task_id,
        q.after(request).next_task_id == q.next_task_id + 1,
        forall|i: int| 0 <= i < q.inprogress.len() ==> (#[trigger] q.inprogress[i]).id < id,
{
    let after = q.after(request);
    lemma_requests_keep_wf(q, request);
    lemma_index_of(after, id);
    let now = after.index_of(id);
    match request {
        Request::PromoteNext => {
            if q.can_promote() {
                if now < q.inprogress.len() {
                    assert(q.inprogress[now].id == id);
                }
            }
        },
        Request::ReportCompletion { task_id, outcome } => {
            if q.state != QueueState::Uninitialized && q.has_task(task_id) {
                lemma_index_of(q, task_id);
                let reported = q.index_of(task_id);
                match outcome {
                    Outcome::TransientFailure => {
                        assert(q.inprogress[now].id == id);
                    },
                    _ => {
                        let from = if now < reported {
                            now
                        } else {
                            now + 1
                        };
                        assert(after.inprogress[now] == q.inprogress[from]);
                        assert(q.inprogress[from].id == id);
                    },
                }
            }
        },
        _ => {},
    }
}

/// The next id to give out goes down on no request to a queue that has been
/// initialized.
pub proof fn lemma_next_task_id_ascends(q: QueueView, request: Request)
    requires
        q.wf(),
        admissible(q, request),
        q.state != QueueState::Uninitialized,
    ensures
        q.after(request).next_task_id >= q.next_task_id,
{
}

/// The manifest is replaced only by the snapshot of a task that is newer
/// than the one behind the manifest so far: it never goes back to an older
/// one, whatever the order in which tasks complete.
pub proof fn lemma_manifest_never_regresses(q: QueueView, request: Request)
    requires
        q.wf(),
        admissible(q, request),
        q.state != QueueState::Uninitialized,
    ensures
        q.after(request).manifest != q.manifest || q.after(request).manifest_task_id
            != q.manifest_task_id ==> {
            &&& request matches Request::ReportCompletion { task_id, outcome: Outcome::Success }
            &&& q.has_task(task_id)
            &&& q.task(task_id).primary_op is UploadMetadata
            &&& !q.manifest_halted
            &&& q.after(request).manifest_task_id == Some(task_id)
            &&& q.after(request).manifest == q.task(task_id).final_snapshot()
            &&& (q.manifest_task_id matches Some(older) ==> older < task_id)
        },
        q.after(request).manifest.is_some(),
{
    match request {
        Request::ReportCompletion { task_id, outcome } => {
            if q.has_task(task_id) {
                lemma_index_of(q, task_id);
                if q.task(task_id).primary_op is UploadMetadata {
                    lemma_last_snapshot_found(q.task(task_id).ops(), 0);
                }
            }
        },
        _ => {},
    }
}

/// Once a manifest upload has failed for good, no request replaces the
/// manifest.
pub proof fn lemma_halted_manifest_stays(q: QueueView, request: Request)
    requires
        q.wf(),
        admissible(q, request),
        q.manifest_halted,
    ensures
        q.after(request).manifest == q.manifest,
        q.after(request).manifest_halted,
{
}

/// How far a state is along the life of a queue.
pub open spec fn state_rank(state: QueueState) -> nat {
    match state {
        QueueState::Uninitialized => 0,
        QueueState::Initialized => 1,
        QueueState::ShuttingDown => 2,
        QueueState::Shutdown => 3,
    }
}

/// The state of a queue only moves forward. Once shutdown has been asked
/// for, nothing is pending and no task is put in flight; once the queue is
/// shut down, it stays so.
pub proof fn lemma_states_only_advance(q: QueueView, request: Request)
    requires
        q.wf(),
        admissible(q, request),
    ensures
        state_rank(q.after(request).state) >= state_rank(q.state),
        state_rank(q.state) >= 2 ==> q.after(request).pending.len() == 0 && q.after(
            request,
        ).inprogress.len() <= q.inprogress.len(),
        q.after(request).state == QueueState::Shutdown ==> q.after(request).inprogress.len() == 0,
{
    lemma_requests_keep_wf(q, request);
}

/// Asking for shutdown twice leaves the queue as asking once does.
pub proof fn lemma_shutdown_idempotent(q: QueueView)
    ensures
        q.after_shutdown().after_shutdown() == q.after_shutdown(),
{
}

/// Asking an initialized queue to initialize changes nothing.
pub proof fn lemma_second_initialize_changes_nothing(
    q: QueueView,
    first: Request,
    second: Request,
)
    requires
        first is Initialize,
        second is Initialize,
    ensures
        q.after(first).after(second) == q.after(first),
{
}

/// A promotion dispatches nothing that conflicts with a task in flight, and
/// nothing but the head of the pending queue and what follows it directly.
pub proof fn lemma_promotion_respects_conflicts(q: QueueView)
    requires
        q.wf(),
        q.can_promote(),
    ensures
        forall|i: int, j: int|
            0 <= i < q.promoted_task().ops().len() && 0 <= j < q.inprogress.len()
                ==> !(#[trigger] q.inprogress[j]).blocks(#[trigger] q.promoted_task().ops()[i]),
        q.promoted_task().ops() + q.after_promotion().pending == q.pending,
{
    lemma_promoted_task_ready(q);
    assert(q.promoted_task().ops() + q.after_promotion().pending =~= q.pending);
}

/// Two tasks in flight leave the same remote objects in whichever order
/// they take effect: the order in which tasks complete does not matter to
/// what is stored.
pub proof fn lemma_tasks_in_flight_commute(q: QueueView, i: int, j: int, remote: RemoteView)
    requires
        q.wf(),
        0 <= i < j < q.inprogress.len(),
    ensures
        remote.apply_all(q.inprogress[i].ops() + q.inprogress[j].ops()).objects
            == remote.apply_all(q.inprogress[j].ops() + q.inprogress[i].ops()).objects,
{
    let first = q.inprogress[i];
    let second = q.inprogress[j];
    assert(!first.conflicts_with(second));
    assert forall|a: int, b: int|
        0 <= a < first.ops().len() && 0 <= b < second.ops().len() implies !conflicts(
        #[trigger] first.ops()[a],
        #[trigger] second.ops()[b],
    ) by {
        if conflicts(first.ops()[a], second.ops()[b]) {
            crate::operation::lemma_conflicts_symmetric(first.ops()[a], second.ops()[b]);
            assert(first.blocks(second.ops()[b]));
        }
    }
    crate::remote::lemma_apply_all_commutes(remote, first.ops(), second.ops());
}

/// The queue and the remote state once the pending operations have been
/// dispatched one task at a time, each task having taken effect and been
/// reported as a success before the next is dispatched.
pub open spec fn drained(q: QueueView, remote: RemoteView) -> (QueueView, RemoteView)
    decreases q.pending.len(),
{
    if q.can_promote() && q.after_promotion().pending.len() < q.pending.len() {
        let task = q.promoted_task();
        drained(
            q.after_promotion().after_completion(task.id, Outcome::Success),
            remote.apply_all(task.ops()),
        )
    } else {
        (q, remote)
    }
}

/// Draining a queue with nothing in flight gives the manifest and the
/// remote objects that the pending operations give when they take effect
/// one by one in the order in which they were enqueued.
///
/// This is stated of a queue that can dispatch at all: it is initialized,
/// its limit is not zero, no manifest upload has failed for good, and it has
/// an id for every pending operation.
pub proof fn lemma_drain_is_sequential(q: QueueView, remote: RemoteView)
    requires
        q.wf(),
        q.state == QueueState::Initialized,
        q.inprogress.len() == 0,
        q.concurrency_limit > 0,
        !q.manifest_halted,
        q.next_task_id + q.pending.len() <= u64::MAX,
        remote.manifest == q.manifest,
    ensures
        drained(q, remote).0.pending.len() == 0,
        drained(q, remote).0.inprogress.len() == 0,
        drained(q, remote).0.manifest == remote.apply_all(q.pending).manifest,
        drained(q, remote).1 == remote.apply_all(q.pending),
    decreases q.pending.len(),
{
    if q.pending.len() > 0 {
        assert(q.can_promote());
        lemma_promoted_task_ready(q);
        lemma_promotion_wf(q);
        let task = q.promoted_task();
        let dispatched = q.after_promotion();
        assert(dispatched.inprogress[0] == task);
        assert(dispatched.has_task(task.id));
        lemma_index_of(dispatched, task.id);
        lemma_completion_wf(dispatched, task.id, Outcome::Success);
        let next = dispatched.after_completion(task.id, Outcome::Success);
        let applied = remote.apply_all(task.ops());
        lemma_apply_all_manifest(remote, task.ops());
        if task.primary_op is UploadMetadata {
            lemma_last_snapshot_found(task.ops(), 0);
        } else {
            assert forall|i: int| 0 <= i < task.ops().len() implies !((#[trigger] task.ops()[i])
                is UploadMetadata) by {
                assert(task.ops()[i].kind() == q.pending[0].kind());
            }
            lemma_last_snapshot_absent(task.ops());
        }
        assert(next.inprogress =~= Seq::empty());
        assert(next.manifest == applied.manifest);
        lemma_drain_is_sequential(next, applied);
        assert(task.ops() + next.pending =~= q.pending);
        lemma_apply_all_concat(remote, task.ops(), next.pending);
    } else {
        assert(q.pending =~= Seq::empty());
    }
}

} // verus!
