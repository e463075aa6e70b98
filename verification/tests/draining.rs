use upload_queue::layer::LayerMetadata;
use upload_queue::layer::LayerRef;
use upload_queue::layer::ShardIndex;
use upload_queue::manifest::ManifestSnapshot;
use upload_queue::manifest::TimelineMetadata;
use upload_queue::operation::Operation;
use upload_queue::queue::UploadQueue;
use upload_queue::remote::RemoteState;
use upload_queue::task::Outcome;

fn meta(file_size: u64) -> LayerMetadata {
    LayerMetadata::new(ShardIndex::new(0, 4), 3, file_size)
}

fn snapshot(lsn: u64, names: &[&str]) -> ManifestSnapshot {
    let mut snapshot = ManifestSnapshot::empty(TimelineMetadata::new(lsn, 0, 16));
    for name in names {
        snapshot.insert(name, meta(1));
    }
    snapshot
}

fn workload() -> Vec<Operation> {
    vec![
        Operation::UploadLayer { name: "a".to_string(), metadata: meta(11) },
        Operation::UploadLayer { name: "b".to_string(), metadata: meta(12) },
        Operation::UploadMetadata { snapshot: snapshot(2, &["a", "b"]) },
        Operation::UploadMetadata { snapshot: snapshot(3, &["a", "b"]) },
        Operation::UploadLayer { name: "c".to_string(), metadata: meta(13) },
        Operation::UploadMetadata { snapshot: snapshot(4, &["b", "c"]) },
        Operation::Delete { layers: vec![LayerRef::new("a", meta(11))] },
        Operation::Delete { layers: vec![LayerRef::new("zz", meta(0)), LayerRef::new("b", meta(12))] },
        Operation::UploadLayer { name: "b".to_string(), metadata: meta(99) },
        Operation::UploadMetadata { snapshot: snapshot(5, &["b", "c"]) },
    ]
}

fn same_state(left: &RemoteState, right: &RemoteState, names: &[&str]) {
    for name in names {
        let name = name.to_string();
        assert_eq!(left.objects.get(&name), right.objects.get(&name));
    }
    match (&left.manifest, &right.manifest) {
        (Some(l), Some(r)) => {
            assert_eq!(l.timeline, r.timeline);
            for name in names {
                let name = name.to_string();
                assert_eq!(l.layers.get(&name), r.layers.get(&name));
            }
        }
        (None, None) => {}
        _ => panic!("one side has a manifest and the other has none"),
    }
}

#[test]
fn draining_gives_what_sequential_application_gives() {
    let names = ["a", "b", "c", "zz", "base"];
    let start = snapshot(1, &["base"]);

    let mut sequential = RemoteState::new();
    sequential.manifest = Some(start.clone());
    for op in workload() {
        sequential.apply(&op);
    }

    let mut remote = RemoteState::new();
    remote.manifest = Some(start.clone());
    let mut queue = UploadQueue::new(1);
    assert_eq!(queue.initialize(start, 0), Ok(()));
    for op in workload() {
        assert_eq!(queue.enqueue(op), Ok(()));
    }
    let mut tasks = 0;
    while queue.pending_len() > 0 {
        let task = queue.promote_next().unwrap().expect("nothing is in flight");
        remote.apply_task(&task);
        assert!(queue.report_completion(task.id, Outcome::Success).is_ok());
        tasks += 1;
    }
    assert_eq!(tasks, 8);
    assert_eq!(queue.inprogress_len(), 0);

    same_state(&remote, &sequential, &names);
    let durable = RemoteState {
        objects: remote.objects.clone(),
        manifest: queue.current_manifest().cloned(),
    };
    same_state(&durable, &sequential, &names);
    assert_eq!(remote.objects.get(&"a".to_string()), None);
    assert_eq!(remote.objects.get(&"b".to_string()), Some(meta(99)));
    assert_eq!(remote.objects.get(&"c".to_string()), Some(meta(13)));
    assert_eq!(queue.current_manifest().unwrap().timeline.disk_consistent_lsn, 5);
}

#[test]
fn draining_with_concurrency_gives_the_same_result() {
    let names = ["a", "b", "c", "zz", "base"];
    let start = snapshot(1, &["base"]);
    let mut sequential = RemoteState::new();
    sequential.manifest = Some(start.clone());
    for op in workload() {
        sequential.apply(&op);
    }

    let mut remote = RemoteState::new();
    let mut queue = UploadQueue::new(4);
    assert_eq!(queue.initialize(start, 0), Ok(()));
    for op in workload() {
        assert_eq!(queue.enqueue(op), Ok(()));
    }
    let mut flying = Vec::new();
    while queue.pending_len() > 0 || !flying.is_empty() {
        while let Some(task) = queue.promote_next().unwrap() {
            flying.push(task);
        }
        assert!(queue.inprogress_len() <= 4);
        let task = flying.pop().expect("a queue with pending work has a task in flight");
        remote.apply_task(&task);
        assert!(queue.report_completion(task.id, Outcome::Success).is_ok());
    }
    for name in names {
        let name = name.to_string();
        assert_eq!(remote.objects.get(&name), sequential.objects.get(&name));
    }
    let manifest = queue.current_manifest().unwrap();
    let expected = sequential.manifest.as_ref().unwrap();
    assert_eq!(manifest.timeline, expected.timeline);
    for name in names {
        let name = name.to_string();
        assert_eq!(manifest.layers.get(&name), expected.layers.get(&name));
    }
}

#[test]
fn applying_operations_changes_objects_and_manifest() {
    let mut remote = RemoteState::new();
    assert!(remote.manifest.is_none());
    remote.apply(&Operation::UploadLayer { name: "a".to_string(), metadata: meta(5) });
    remote.apply(&Operation::UploadLayer { name: "b".to_string(), metadata: meta(6) });
    assert_eq!(remote.objects.get(&"a".to_string()), Some(meta(5)));
    remote.apply(&Operation::Delete {
        layers: vec![LayerRef::new("a", meta(5)), LayerRef::new("missing", meta(0))],
    });
    assert_eq!(remote.objects.get(&"a".to_string()), None);
    assert_eq!(remote.objects.get(&"b".to_string()), Some(meta(6)));
    remote.apply(&Operation::UploadMetadata { snapshot: snapshot(8, &["b"]) });
    assert_eq!(remote.manifest.as_ref().unwrap().timeline.disk_consistent_lsn, 8);
    assert_eq!(remote.objects.get(&"b".to_string()), Some(meta(6)));
}

#[test]
fn drain_leaves_what_sequential_application_leaves() {
    let names = ["a", "b", "c", "zz", "base"];
    let start = snapshot(1, &["base"]);
    let mut sequential = RemoteState::new();
    sequential.manifest = Some(start.clone());
    for op in workload() {
        sequential.apply(&op);
    }

    let mut remote = RemoteState::new();
    remote.manifest = Some(start.clone());
    let mut queue = UploadQueue::new(3);
    assert_eq!(queue.initialize(start, 40), Ok(()));
    for op in workload() {
        assert_eq!(queue.enqueue(op), Ok(()));
    }
    remote.drain(&mut queue);
    assert_eq!(queue.pending_len(), 0);
    assert_eq!(queue.inprogress_len(), 0);
    assert_eq!(queue.next_task_id(), 48);
    same_state(&remote, &sequential, &names);
    let durable = RemoteState {
        objects: remote.objects.clone(),
        manifest: queue.current_manifest().cloned(),
    };
    same_state(&durable, &sequential, &names);
}

#[test]
fn drain_stops_at_a_blocked_head() {
    let mut remote = RemoteState::new();
    let mut queue = UploadQueue::new(3);
    assert_eq!(queue.initialize(snapshot(1, &[]), 0), Ok(()));
    assert_eq!(
        queue.enqueue(Operation::UploadLayer { name: "a".to_string(), metadata: meta(1) }),
        Ok(())
    );
    let flying = queue.promote_next().unwrap().unwrap();
    assert_eq!(
        queue.enqueue(Operation::UploadLayer { name: "b".to_string(), metadata: meta(2) }),
        Ok(())
    );
    assert_eq!(
        queue.enqueue(Operation::Delete { layers: vec![LayerRef::new("a", meta(1))] }),
        Ok(())
    );
    assert_eq!(
        queue.enqueue(Operation::UploadLayer { name: "c".to_string(), metadata: meta(3) }),
        Ok(())
    );
    remote.drain(&mut queue);
    assert_eq!(queue.pending_len(), 2);
    assert_eq!(queue.inprogress_len(), 1);
    assert_eq!(remote.objects.get(&"b".to_string()), Some(meta(2)));
    assert_eq!(remote.objects.get(&"c".to_string()), None);
    assert!(queue.report_completion(flying.id, Outcome::Success).is_ok());
    remote.drain(&mut queue);
    assert_eq!(queue.pending_len(), 0);
    assert_eq!(remote.objects.get(&"c".to_string()), Some(meta(3)));
}
