use upload_queue::layer::LayerMetadata;
use upload_queue::layer::LayerRef;
use upload_queue::layer::ShardIndex;
use upload_queue::manifest::ManifestSnapshot;
use upload_queue::manifest::TimelineMetadata;
use upload_queue::model::QueueState;
use upload_queue::operation::Operation;
use upload_queue::operation::OperationKind;
use upload_queue::queue::QueueError;
use upload_queue::queue::UploadQueue;
use upload_queue::task::Outcome;

fn meta(file_size: u64) -> LayerMetadata {
    LayerMetadata::new(ShardIndex::unsharded(), 7, file_size)
}

fn snapshot(lsn: u64, names: &[&str]) -> ManifestSnapshot {
    let mut snapshot = ManifestSnapshot::empty(TimelineMetadata::new(lsn, 0, 17));
    for name in names {
        snapshot.insert(name, meta(10));
    }
    snapshot
}

fn upload(name: &str) -> Operation {
    Operation::UploadLayer { name: name.to_string(), metadata: meta(10) }
}

fn delete(names: &[&str]) -> Operation {
    Operation::Delete { layers: names.iter().map(|name| LayerRef::new(name, meta(10))).collect() }
}

fn index(lsn: u64, names: &[&str]) -> Operation {
    Operation::UploadMetadata { snapshot: snapshot(lsn, names) }
}

fn started(limit: usize) -> UploadQueue {
    let mut queue = UploadQueue::new(limit);
    assert_eq!(queue.initialize(snapshot(1, &["base"]), 100), Ok(()));
    queue
}

#[test]
fn new_queue_takes_no_work() {
    let mut queue = UploadQueue::new(3);
    assert_eq!(queue.state(), QueueState::Uninitialized);
    assert_eq!(queue.concurrency_limit(), 3);
    assert!(queue.current_manifest().is_none());
    assert_eq!(queue.enqueue(upload("a")), Err(QueueError::NotInitialized));
    assert_eq!(queue.enqueue_expedited(upload("a")), Err(QueueError::NotInitialized));
    assert!(matches!(queue.promote_next(), Err(QueueError::NotInitialized)));
    assert!(matches!(
        queue.report_completion(0, Outcome::Success),
        Err(QueueError::NotInitialized)
    ));
    assert_eq!(queue.shutdown(), Err(QueueError::NotInitialized));
    assert_eq!(queue.state(), QueueState::Uninitialized);
    assert_eq!(queue.pending_len(), 0);
}

#[test]
fn initialize_sets_manifest_and_first_id() {
    let mut queue = started(2);
    assert_eq!(queue.state(), QueueState::Initialized);
    assert_eq!(queue.next_task_id(), 100);
    let manifest = queue.current_manifest().unwrap();
    assert!(manifest.references(&"base".to_string()));
    assert_eq!(manifest.timeline, TimelineMetadata::new(1, 0, 17));
    assert_eq!(queue.enqueue(upload("a")), Ok(()));
    let task = queue.promote_next().unwrap().unwrap();
    assert_eq!(task.id, 100);
    assert_eq!(task.retries, 0);
    assert_eq!(queue.next_task_id(), 101);
}

#[test]
fn enqueue_is_refused_after_shutdown() {
    let mut queue = started(2);
    assert_eq!(queue.enqueue(upload("a")), Ok(()));
    assert!(queue.promote_next().unwrap().is_some());
    assert_eq!(queue.shutdown(), Ok(()));
    assert_eq!(queue.enqueue(upload("b")), Err(QueueError::NotAcceptingWork));
    assert_eq!(queue.enqueue_expedited(upload("b")), Err(QueueError::NotAcceptingWork));
    assert!(matches!(queue.promote_next(), Err(QueueError::NotInitialized)));
    assert!(queue.report_completion(100, Outcome::Success).is_ok());
    assert_eq!(queue.state(), QueueState::Shutdown);
    assert_eq!(queue.enqueue(upload("b")), Err(QueueError::NotAcceptingWork));
    assert_eq!(queue.initialize(snapshot(9, &[]), 0), Err(QueueError::AlreadyInitialized));
}

#[test]
fn shutdown_with_nothing_in_flight_is_terminal_at_once() {
    let mut queue = started(2);
    assert_eq!(queue.enqueue(upload("a")), Ok(()));
    assert_eq!(queue.shutdown(), Ok(()));
    assert_eq!(queue.state(), QueueState::Shutdown);
    assert_eq!(queue.pending_len(), 0);
}

#[test]
fn limit_bounds_the_tasks_in_flight() {
    let mut queue = started(2);
    for name in ["a", "b", "c"] {
        assert_eq!(queue.enqueue(upload(name)), Ok(()));
    }
    assert!(queue.has_capacity());
    assert!(queue.promote_next().unwrap().is_some());
    assert!(queue.promote_next().unwrap().is_some());
    assert!(!queue.has_capacity());
    assert!(queue.promote_next().unwrap().is_none());
    assert_eq!(queue.inprogress_len(), 2);
    assert_eq!(queue.pending_len(), 1);
    assert!(queue.report_completion(100, Outcome::Success).is_ok());
    let third = queue.promote_next().unwrap().unwrap();
    assert_eq!(third.id, 102);
    assert_eq!(queue.inprogress_len(), 2);
}

#[test]
fn limit_of_zero_dispatches_nothing() {
    let mut queue = UploadQueue::new(0);
    assert_eq!(queue.initialize(snapshot(1, &[]), 0), Ok(()));
    assert_eq!(queue.enqueue(upload("a")), Ok(()));
    assert!(queue.promote_next().unwrap().is_none());
    assert_eq!(queue.pending_len(), 1);
}

#[test]
fn blocked_head_is_not_skipped() {
    let mut queue = started(8);
    assert_eq!(queue.enqueue(upload("a")), Ok(()));
    assert_eq!(queue.enqueue(delete(&["a"])), Ok(()));
    assert_eq!(queue.enqueue(upload("b")), Ok(()));
    assert!(queue.promote_next().unwrap().is_some());
    assert!(queue.is_ready(&upload("b")));
    assert!(queue.promote_next().unwrap().is_none());
    assert_eq!(queue.pending_len(), 2);
}

#[test]
fn consecutive_deletes_are_folded_into_one_task() {
    let mut queue = started(8);
    assert_eq!(queue.enqueue(delete(&["a"])), Ok(()));
    assert_eq!(queue.enqueue(delete(&["b", "c"])), Ok(()));
    assert_eq!(queue.enqueue(upload("d")), Ok(()));
    assert_eq!(queue.enqueue(delete(&["e"])), Ok(()));
    let task = queue.promote_next().unwrap().unwrap();
    assert_eq!(task.kind(), OperationKind::Delete);
    assert_eq!(task.coalesced_ops.len(), 1);
    assert!(task.primary_op.touches(&"a".to_string()));
    assert!(task.coalesced_ops[0].touches(&"c".to_string()));
    assert_eq!(queue.pending_len(), 2);
    let next = queue.promote_next().unwrap().unwrap();
    assert_eq!(next.kind(), OperationKind::UploadLayer);
    assert!(next.coalesced_ops.is_empty());
}

#[test]
fn folding_stops_at_an_operation_that_is_not_ready() {
    let mut queue = started(8);
    assert_eq!(queue.enqueue(upload("x")), Ok(()));
    assert!(queue.promote_next().unwrap().is_some());
    assert_eq!(queue.enqueue(delete(&["a"])), Ok(()));
    assert_eq!(queue.enqueue(delete(&["x"])), Ok(()));
    assert_eq!(queue.enqueue(delete(&["b"])), Ok(()));
    let task = queue.promote_next().unwrap().unwrap();
    assert!(task.coalesced_ops.is_empty());
    assert_eq!(queue.pending_len(), 2);
    assert!(queue.promote_next().unwrap().is_none());
}

#[test]
fn uploads_of_layers_are_dispatched_alone() {
    let mut queue = started(8);
    assert_eq!(queue.enqueue(upload("a")), Ok(()));
    assert_eq!(queue.enqueue(upload("b")), Ok(()));
    let first = queue.promote_next().unwrap().unwrap();
    assert!(first.coalesced_ops.is_empty());
    let second = queue.promote_next().unwrap().unwrap();
    assert!(second.primary_op.touches(&"b".to_string()));
}

#[test]
fn superseding_manifests_are_folded_and_the_last_one_wins() {
    let mut queue = started(8);
    assert_eq!(queue.enqueue(index(2, &["base", "a"])), Ok(()));
    assert_eq!(queue.enqueue(index(3, &["base", "a", "b"])), Ok(()));
    let task = queue.promote_next().unwrap().unwrap();
    assert_eq!(task.coalesced_ops.len(), 1);
    assert_eq!(task.final_snapshot().unwrap().timeline.disk_consistent_lsn, 3);
    let done = queue.report_completion(task.id, Outcome::Success).unwrap();
    assert_eq!(done.id, task.id);
    let manifest = queue.current_manifest().unwrap();
    assert_eq!(manifest.timeline.disk_consistent_lsn, 3);
    assert!(manifest.references(&"b".to_string()));
}

#[test]
fn manifest_never_goes_back_to_an_older_task() {
    let mut queue = started(8);
    assert_eq!(queue.enqueue(index(2, &["base"])), Ok(()));
    assert_eq!(queue.enqueue(upload("other")), Ok(()));
    assert_eq!(queue.enqueue(index(3, &["base"])), Ok(()));
    let older = queue.promote_next().unwrap().unwrap();
    assert!(queue.promote_next().unwrap().is_some());
    let newer = queue.promote_next().unwrap().unwrap();
    assert_eq!(older.id, 100);
    assert_eq!(newer.id, 102);
    assert!(queue.report_completion(newer.id, Outcome::Success).is_ok());
    assert_eq!(queue.current_manifest().unwrap().timeline.disk_consistent_lsn, 3);
    assert!(queue.report_completion(older.id, Outcome::Success).is_ok());
    assert_eq!(queue.current_manifest().unwrap().timeline.disk_consistent_lsn, 3);
}

#[test]
fn transient_failure_counts_a_retry_and_keeps_the_task() {
    let mut queue = started(8);
    assert_eq!(queue.enqueue(upload("a")), Ok(()));
    let task = queue.promote_next().unwrap().unwrap();
    assert_eq!(queue.retries_of(task.id), Some(0));
    for expected in 1..=3u32 {
        assert!(matches!(
            queue.report_completion(task.id, Outcome::TransientFailure),
            Err(QueueError::TransientFailure)
        ));
        assert_eq!(queue.retries_of(task.id), Some(expected));
        assert_eq!(queue.inprogress_len(), 1);
    }
    let done = queue.report_completion(task.id, Outcome::Success).unwrap();
    assert_eq!(done.retries, 3);
    assert_eq!(queue.retries_of(task.id), None);
    assert_eq!(queue.inprogress_len(), 0);
}

#[test]
fn fatal_layer_failure_leaves_the_manifest_alive() {
    let mut queue = started(8);
    assert_eq!(queue.enqueue(upload("a")), Ok(()));
    assert_eq!(queue.enqueue(index(2, &["base"])), Ok(()));
    let layer = queue.promote_next().unwrap().unwrap();
    let manifest = queue.promote_next().unwrap().unwrap();
    assert!(matches!(
        queue.report_completion(layer.id, Outcome::FatalFailure),
        Err(QueueError::FatalFailure)
    ));
    assert!(!queue.manifest_halted());
    assert_eq!(queue.inprogress_len(), 1);
    assert!(queue.report_completion(manifest.id, Outcome::Success).is_ok());
    assert_eq!(queue.current_manifest().unwrap().timeline.disk_consistent_lsn, 2);
}

#[test]
fn fatal_manifest_failure_halts_the_manifest() {
    let mut queue = started(8);
    assert_eq!(queue.enqueue(index(2, &["base"])), Ok(()));
    let first = queue.promote_next().unwrap().unwrap();
    assert!(matches!(
        queue.report_completion(first.id, Outcome::FatalFailure),
        Err(QueueError::FatalFailure)
    ));
    assert!(queue.manifest_halted());
    assert_eq!(queue.inprogress_len(), 0);
    assert_eq!(queue.enqueue(index(3, &["base"])), Ok(()));
    let second = queue.promote_next().unwrap().unwrap();
    assert!(queue.report_completion(second.id, Outcome::Success).is_ok());
    assert_eq!(queue.current_manifest().unwrap().timeline.disk_consistent_lsn, 1);
}

#[test]
fn unknown_task_is_refused_without_change() {
    let mut queue = started(8);
    assert_eq!(queue.enqueue(upload("a")), Ok(()));
    let task = queue.promote_next().unwrap().unwrap();
    assert!(matches!(
        queue.report_completion(task.id + 1, Outcome::Success),
        Err(QueueError::UnknownTask)
    ));
    assert_eq!(queue.inprogress_len(), 1);
    assert!(queue.report_completion(task.id, Outcome::Success).is_ok());
    assert!(matches!(
        queue.report_completion(task.id, Outcome::Success),
        Err(QueueError::UnknownTask)
    ));
}

#[test]
fn expedited_operation_is_considered_first() {
    let mut queue = started(8);
    assert_eq!(queue.enqueue(upload("a")), Ok(()));
    assert_eq!(queue.enqueue_expedited(index(5, &["base"])), Ok(()));
    let first = queue.promote_next().unwrap().unwrap();
    assert_eq!(first.kind(), OperationKind::UploadMetadata);
    let second = queue.promote_next().unwrap().unwrap();
    assert_eq!(second.kind(), OperationKind::UploadLayer);
}

#[test]
fn completion_during_shutdown_still_advances_the_manifest() {
    let mut queue = started(8);
    assert_eq!(queue.enqueue(index(2, &["base"])), Ok(()));
    assert_eq!(queue.enqueue(upload("never")), Ok(()));
    let task = queue.promote_next().unwrap().unwrap();
    assert!(queue.promote_next().unwrap().is_some());
    assert_eq!(queue.enqueue(upload("dropped")), Ok(()));
    assert_eq!(queue.shutdown(), Ok(()));
    assert_eq!(queue.pending_len(), 0);
    assert!(matches!(
        queue.report_completion(task.id, Outcome::TransientFailure),
        Err(QueueError::TransientFailure)
    ));
    assert_eq!(queue.state(), QueueState::ShuttingDown);
    assert!(queue.report_completion(task.id, Outcome::Success).is_ok());
    assert_eq!(queue.state(), QueueState::ShuttingDown);
    assert_eq!(queue.current_manifest().unwrap().timeline.disk_consistent_lsn, 2);
    assert!(matches!(
        queue.report_completion(101, Outcome::FatalFailure),
        Err(QueueError::FatalFailure)
    ));
    assert_eq!(queue.state(), QueueState::Shutdown);
}

#[test]
fn conflicts_follow_the_layer_names() {
    let up_a = upload("a");
    let up_b = upload("b");
    let del_a = delete(&["z", "a"]);
    let del_b = delete(&["b"]);
    let idx_a = index(2, &["a"]);
    let idx_b = index(3, &["b"]);
    assert!(up_a.conflicts_with(&upload("a")));
    assert!(!up_a.conflicts_with(&up_b));
    assert!(up_a.conflicts_with(&del_a));
    assert!(del_a.conflicts_with(&up_a));
    assert!(!up_a.conflicts_with(&del_b));
    assert!(up_a.conflicts_with(&idx_a));
    assert!(idx_a.conflicts_with(&up_a));
    assert!(!idx_b.conflicts_with(&up_a));
    assert!(del_a.conflicts_with(&idx_a));
    assert!(idx_a.conflicts_with(&del_a));
    assert!(!del_b.conflicts_with(&idx_a));
    assert!(!del_a.conflicts_with(&delete(&["a"])));
    assert!(!idx_a.conflicts_with(&index(9, &["a"])));
    assert_eq!(del_a.kind(), OperationKind::Delete);
    assert!(del_a.touches(&"z".to_string()));
    assert!(!del_a.touches(&"b".to_string()));
}

#[test]
fn manifest_snapshot_is_a_map_of_names() {
    let mut snapshot = ManifestSnapshot::empty(TimelineMetadata::new(1, 2, 3));
    let name = "layer".to_string();
    assert!(!snapshot.references(&name));
    assert_eq!(snapshot.layers.get(&name), None);
    snapshot.insert("layer", meta(1));
    snapshot.insert("other", meta(2));
    snapshot.insert("layer", meta(3));
    assert_eq!(snapshot.layers.get(&name), Some(meta(3)));
    assert!(snapshot.layers.contains(&"other".to_string()));
    let copy = snapshot.clone();
    snapshot.remove(&name);
    assert!(!snapshot.references(&name));
    assert!(snapshot.references(&"other".to_string()));
    assert_eq!(copy.layers.get(&name), Some(meta(3)));
    assert_eq!(copy.timeline, TimelineMetadata::new(1, 2, 3));
}

#[test]
fn oldest_pending_age_follows_the_clock() {
    let mut queue = started(8);
    assert_eq!(queue.oldest_pending_age(), None);
    queue.advance_clock(10);
    assert_eq!(queue.oldest_pending_age(), None);
    assert_eq!(queue.enqueue(upload("a")), Ok(()));
    assert_eq!(queue.oldest_pending_age(), Some(0));
    queue.advance_clock(25);
    assert_eq!(queue.enqueue(upload("b")), Ok(()));
    assert_eq!(queue.oldest_pending_age(), Some(15));
    assert_eq!(queue.enqueue_expedited(upload("c")), Ok(()));
    queue.advance_clock(30);
    assert_eq!(queue.oldest_pending_age(), Some(20));
    assert!(queue.promote_next().unwrap().unwrap().primary_op.touches(&"c".to_string()));
    assert_eq!(queue.oldest_pending_age(), Some(20));
    assert!(queue.promote_next().unwrap().unwrap().primary_op.touches(&"a".to_string()));
    assert_eq!(queue.oldest_pending_age(), Some(5));
    queue.advance_clock(7);
    assert_eq!(queue.oldest_pending_age(), Some(5));
    assert!(queue.promote_next().unwrap().is_some());
    assert_eq!(queue.oldest_pending_age(), None);
}

#[test]
fn layer_map_lists_each_layer_once() {
    let mut snapshot = ManifestSnapshot::empty(TimelineMetadata::new(1, 2, 3));
    snapshot.insert("a", meta(1));
    snapshot.insert("b", meta(2));
    snapshot.insert("a", meta(3));
    let mut listed: Vec<(String, LayerMetadata)> = snapshot
        .layers
        .to_vec()
        .into_iter()
        .map(|layer| (layer.name, layer.metadata))
        .collect();
    listed.sort_by(|left, right| left.0.cmp(&right.0));
    assert_eq!(listed, vec![("a".to_string(), meta(3)), ("b".to_string(), meta(2))]);
}
