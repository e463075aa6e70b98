use upload_queue::layer::LayerMetadata;
use upload_queue::layer::LayerRef;
use upload_queue::layer::ShardIndex;
use upload_queue::manifest::ManifestSnapshot;
use upload_queue::manifest::TimelineMetadata;
use upload_queue::model::QueueState;
use upload_queue::operation::Operation;
use upload_queue::operation::OperationKind;
use upload_queue::queue::QueueError;
use upload_queue::queue::UploadQueue;
use upload_queue::task::Outcome;

const LAYER0_NAME: &str = "000000000000000000000000000000000000-100000000000000000000000000000000000__00000000016B59D8-00000000016B5A51";
const LAYER1_NAME: &str = "100000000000000000000000000000000001-200000000000000000000000000000000000__00000000016B59D8-00000000016B5A51";

fn metadata() -> LayerMetadata {
    LayerMetadata::new(ShardIndex::new(1, 2), 1, 0)
}

fn timeline() -> TimelineMetadata {
    TimelineMetadata::new(0x16B5A51, 0x16B59D8, 16)
}

fn snapshot_of(names: &[&str]) -> ManifestSnapshot {
    let mut snapshot = ManifestSnapshot::empty(timeline());
    for name in names {
        snapshot.insert(name, metadata());
    }
    snapshot
}

fn delete_of(names: &[&str]) -> Operation {
    Operation::Delete {
        layers: names.iter().map(|name| LayerRef::new(name, metadata())).collect(),
    }
}

fn upload_of(name: &str) -> Operation {
    Operation::UploadLayer { name: name.to_string(), metadata: metadata() }
}

fn started(limit: usize, names: &[&str]) -> UploadQueue {
    let mut queue = UploadQueue::new(limit);
    assert_eq!(queue.initialize(snapshot_of(names), 0), Ok(()));
    queue
}

#[test]
fn delete_then_manifest_without_the_layer_both_promote() {
    let mut queue = started(8, &["layerA", "layerC"]);
    assert_eq!(queue.enqueue(delete_of(&["layerA"])), Ok(()));
    assert_eq!(
        queue.enqueue(Operation::UploadMetadata { snapshot: snapshot_of(&["layerC"]) }),
        Ok(())
    );

    let first = queue.promote_next().unwrap().expect("the deletion is ready");
    assert_eq!(first.id, 0);
    assert_eq!(first.primary_op.kind(), OperationKind::Delete);
    assert!(first.coalesced_ops.is_empty());

    let second = queue.promote_next().unwrap().expect("the manifest upload is ready");
    assert_eq!(second.id, 1);
    assert_eq!(second.primary_op.kind(), OperationKind::UploadMetadata);
    assert_eq!(queue.inprogress_len(), 2);
    assert_eq!(queue.pending_len(), 0);

    assert!(queue.report_completion(0, Outcome::Success).is_ok());
    assert!(queue.report_completion(1, Outcome::Success).is_ok());
    let manifest = queue.current_manifest().expect("an initialized queue has a manifest");
    assert!(!manifest.references(&"layerA".to_string()));
    assert!(manifest.references(&"layerC".to_string()));
}

#[test]
fn delete_waits_for_the_upload_of_the_same_layer() {
    let mut queue = started(8, &[]);
    assert_eq!(queue.enqueue(upload_of("layerB")), Ok(()));
    assert_eq!(queue.enqueue(delete_of(&["layerB"])), Ok(()));

    let upload = queue.promote_next().unwrap().expect("the upload is ready");
    assert_eq!(upload.primary_op.kind(), OperationKind::UploadLayer);
    assert!(!queue.is_ready(&delete_of(&["layerB"])));
    assert!(queue.promote_next().unwrap().is_none());
    assert_eq!(queue.pending_len(), 1);
    assert_eq!(queue.inprogress_len(), 1);

    assert!(queue.report_completion(upload.id, Outcome::Success).is_ok());
    let delete = queue.promote_next().unwrap().expect("the deletion is ready now");
    assert_eq!(delete.primary_op.kind(), OperationKind::Delete);
    assert_eq!(delete.id, 1);
}

#[test]
fn empty_queue_has_nothing_ready() {
    let mut queue = started(8, &["layerA"]);
    assert!(queue.promote_next().unwrap().is_none());
    assert_eq!(queue.pending_len(), 0);
    assert_eq!(queue.inprogress_len(), 0);
    assert_eq!(queue.next_task_id(), 0);
    assert_eq!(queue.state(), QueueState::Initialized);
}

#[test]
fn second_initialize_is_refused_and_changes_nothing() {
    let mut queue = started(8, &["layerA"]);
    assert_eq!(queue.enqueue(upload_of("layerB")), Ok(()));
    assert_eq!(queue.enqueue(upload_of("layerC")), Ok(()));
    assert!(queue.promote_next().unwrap().is_some());

    assert_eq!(queue.initialize(snapshot_of(&[]), 77), Err(QueueError::AlreadyInitialized));
    assert_eq!(queue.pending_len(), 1);
    assert_eq!(queue.inprogress_len(), 1);
    assert_eq!(queue.next_task_id(), 1);
    assert!(queue.current_manifest().unwrap().references(&"layerA".to_string()));
}

#[test]
fn shutdown_twice_is_shutdown_once() {
    let mut queue = started(8, &[]);
    assert_eq!(queue.enqueue(upload_of("layerB")), Ok(()));
    assert_eq!(queue.enqueue(upload_of("layerC")), Ok(()));
    assert!(queue.promote_next().unwrap().is_some());

    assert_eq!(queue.shutdown(), Ok(()));
    assert_eq!(queue.state(), QueueState::ShuttingDown);
    assert_eq!(queue.pending_len(), 0);
    assert_eq!(queue.inprogress_len(), 1);
    assert_eq!(queue.shutdown(), Ok(()));
    assert_eq!(queue.state(), QueueState::ShuttingDown);
    assert_eq!(queue.pending_len(), 0);
    assert_eq!(queue.inprogress_len(), 1);

    assert!(queue.report_completion(0, Outcome::Success).is_ok());
    assert_eq!(queue.state(), QueueState::Shutdown);
    assert_eq!(queue.shutdown(), Ok(()));
    assert_eq!(queue.state(), QueueState::Shutdown);
}

#[test]
fn manifest_upload_is_ready_beside_deletions_of_other_layers() {
    for inprogress in [0usize, 1, 10, 100, 1_000] {
        let mut queue = started(inprogress + 1, &[LAYER0_NAME]);
        for _ in 0..inprogress {
            assert_eq!(queue.enqueue(upload_of(LAYER1_NAME)), Ok(()));
            let task = queue.promote_next().unwrap().unwrap();
            assert!(queue.report_completion(task.id, Outcome::Success).is_ok());
        }
        for _ in 0..inprogress {
            assert_eq!(queue.enqueue(delete_of(&[LAYER1_NAME])), Ok(()));
            let task = queue.promote_next().unwrap().expect("a deletion is ready");
            assert!(task.coalesced_ops.is_empty());
        }
        assert_eq!(queue.inprogress_len(), inprogress);

        let index_upload = Operation::UploadMetadata { snapshot: snapshot_of(&[LAYER0_NAME]) };
        assert_eq!(queue.enqueue_expedited(index_upload.clone()), Ok(()));
        assert!(queue.promote_next().unwrap().is_some());
    }
}
