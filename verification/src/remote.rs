//! What operations do to remote storage: the objects that it holds and the
//! manifest that is durable there.
//!
//! [`RemoteState`] keeps that state in memory. It is the meaning of an
//! operation, against which the scheduling of the queue is stated.

use vstd::prelude::*;
use crate::layer::LayerMetadata;
use crate::layer::LayerRef;
use crate::layer::LayerRefView;
use crate::layer::layer_views;
use crate::layer::names_contain;
use crate::manifest::LayerMap;
use crate::manifest::ManifestSnapshot;
use crate::manifest::ManifestView;
use crate::laws::drained;
use crate::model::QueueState;
use crate::operation::Operation;
use crate::operation::OperationView;
use crate::operation::conflicts;
use crate::queue::UploadQueue;
use crate::task::Outcome;
use crate::task::Task;
use crate::task::last_snapshot;
use crate::task::operation_views;

verus! {

/// The mathematical value of the remote state.
pub ghost struct RemoteView {
    /// The layer objects that exist.
    pub objects: Map<Seq<char>, LayerMetadata>,
    /// The manifest that was uploaded last, if one was.
    pub manifest: Option<ManifestView>,
}

/// `objects` without the objects named by `layers`.
pub open spec fn without_layers(
    objects: Map<Seq<char>, LayerMetadata>,
    layers: Seq<LayerRefView>,
) -> Map<Seq<char>, LayerMetadata>
    decreases layers.len(),
{
    if layers.len() == 0 {
        objects
    } else {
        without_layers(objects, layers.drop_last()).remove(layers.last().name)
    }
}

impl RemoteView {
    /// The state after `op` has taken effect.
    pub open spec fn apply(self, op: OperationView) -> RemoteView {
        match op {
            OperationView::UploadLayer { name, metadata } => RemoteView {
                objects: self.objects.insert(name, metadata),
                ..self
            },
            OperationView::UploadMetadata { snapshot } => RemoteView {
                manifest: Some(snapshot),
                ..self
            },
            OperationView::Delete { layers } => RemoteView {
                objects: without_layers(self.objects, layers),
                ..self
            },
        }
    }

    /// The state after `ops` have taken effect one after the other.
    pub open spec fn apply_all(self, ops: Seq<OperationView>) -> RemoteView
        decreases ops.len(),
    {
        if ops.len() == 0 {
            self
        } else {
            self.apply_all(ops.drop_last()).apply(ops.last())
        }
    }
}

/// Applying `first` and then `second` is applying them in one go.
pub proof fn lemma_apply_all_concat(
    state: RemoteView,
    first: Seq<OperationView>,
    second: Seq<OperationView>,
)
    ensures
        state.apply_all(first + second) == state.apply_all(first).apply_all(second),
    decreases second.len(),
{
    if second.len() == 0 {
        assert(first + second =~= first);
    } else {
        assert((first + second).drop_last() =~= first + second.drop_last());
        assert((first + second).last() == second.last());
        lemma_apply_all_concat(state, first, second.drop_last());
    }
}

/// After `ops` the durable manifest is the snapshot of the last manifest
/// upload among them, or the one from before where there is none.
pub proof fn lemma_apply_all_manifest(state: RemoteView, ops: Seq<OperationView>)
    ensures
        state.apply_all(ops).manifest == (match last_snapshot(ops) {
            Some(snapshot) => Some(snapshot),
            None => state.manifest,
        }),
    decreases ops.len(),
{
    if ops.len() > 0 {
        lemma_apply_all_manifest(state, ops.drop_last());
    }
}

/// What is left of `objects` without `layers`: the objects under the other
/// names, unchanged.
pub proof fn lemma_without_layers(
    objects: Map<Seq<char>, LayerMetadata>,
    layers: Seq<LayerRefView>,
    name: Seq<char>,
)
    ensures
        without_layers(objects, layers).contains_key(name) <==> objects.contains_key(name)
            && !names_contain(layers, name),
        without_layers(objects, layers).contains_key(name) ==> without_layers(objects, layers)[name]
            == objects[name],
    decreases layers.len(),
{
    if layers.len() > 0 {
        let front = layers.drop_last();
        lemma_without_layers(objects, front, name);
        if names_contain(layers, name) {
            let i = choose|i: int| 0 <= i < layers.len() && (#[trigger] layers[i]).name == name;
            if i < front.len() {
                assert(front[i].name == name);
            }
        }
        if names_contain(front, name) {
            let i = choose|i: int| 0 <= i < front.len() && (#[trigger] front[i]).name == name;
            assert(layers[i].name == name);
        }
        if layers.last().name == name {
            assert(layers[layers.len() - 1].name == name);
        }
    }
}

/// Two operations that do not conflict leave the same objects in whichever
/// order they take effect, and the same manifest unless both upload one.
pub proof fn lemma_apply_commutes(state: RemoteView, a: OperationView, b: OperationView)
    requires
        !conflicts(a, b),
    ensures
        state.apply(a).apply(b).objects == state.apply(b).apply(a).objects,
        !(a is UploadMetadata && b is UploadMetadata) ==> state.apply(a).apply(b) == state.apply(
            b,
        ).apply(a),
{
    let ab = state.apply(a).apply(b).objects;
    let ba = state.apply(b).apply(a).objects;
    assert forall|name: Seq<char>|
        #![trigger ab.dom().contains(name)]
        #![trigger ba.dom().contains(name)]
        ab.dom().contains(name) == ba.dom().contains(name) && (ab.dom().contains(name) ==> ab[name]
            == ba[name]) by {
        match (a, b) {
            (OperationView::UploadLayer { .. }, OperationView::Delete { layers }) => {
                lemma_without_layers(state.objects, layers, name);
                lemma_without_layers(state.apply(a).objects, layers, name);
            },
            (OperationView::Delete { layers }, OperationView::UploadLayer { .. }) => {
                lemma_without_layers(state.objects, layers, name);
                lemma_without_layers(state.apply(b).objects, layers, name);
            },
            (OperationView::Delete { layers: first }, OperationView::Delete { layers: second }) => {
                lemma_without_layers(state.objects, first, name);
                lemma_without_layers(state.objects, second, name);
                lemma_without_layers(state.apply(a).objects, second, name);
                lemma_without_layers(state.apply(b).objects, first, name);
            },
            _ => {},
        }
    }
    assert(ab =~= ba);
}

/// Whether no operation of `first` conflicts with an operation of `second`.
pub open spec fn independent(first: Seq<OperationView>, second: Seq<OperationView>) -> bool {
    forall|i: int, j: int|
        0 <= i < first.len() && 0 <= j < second.len() ==> !conflicts(
            #[trigger] first[i],
            #[trigger] second[j],
        )
}

/// A run of one operation is that operation.
pub proof fn lemma_apply_one(state: RemoteView, op: OperationView)
    ensures
        state.apply_all(seq![op]) == state.apply(op),
{
    let one = seq![op];
    assert(one.len() == 1);
    assert(one.last() == op);
    assert(one.drop_last() =~= Seq::<OperationView>::empty());
    assert(state.apply_all(one.drop_last()) == state);
}

/// What operations leave of the objects depends on the objects alone.
proof fn lemma_objects_alone(one: RemoteView, other: RemoteView, ops: Seq<OperationView>)
    requires
        one.objects == other.objects,
    ensures
        one.apply_all(ops).objects == other.apply_all(ops).objects,
    decreases ops.len(),
{
    if ops.len() > 0 {
        lemma_objects_alone(one, other, ops.drop_last());
    }
}

/// An operation may take effect before or after operations that it does not
/// conflict with: the objects are the same.
proof fn lemma_apply_past(state: RemoteView, op: OperationView, others: Seq<OperationView>)
    requires
        independent(seq![op], others),
    ensures
        state.apply(op).apply_all(others).objects == state.apply_all(others).apply(op).objects,
    decreases others.len(),
{
    if others.len() > 0 {
        let front = others.drop_last();
        let last = others.last();
        assert(independent(seq![op], front)) by {
            assert forall|i: int, j: int| 0 <= i < 1 && 0 <= j < front.len() implies !conflicts(
                #[trigger] seq![op][i],
                #[trigger] front[j],
            ) by {
                assert(front[j] == others[j]);
            }
        }
        lemma_apply_past(state, op, front);
        let early = state.apply(op).apply_all(front);
        let late = state.apply_all(front).apply(op);
        lemma_objects_alone(early, late, seq![last]);
        lemma_apply_one(early, last);
        lemma_apply_one(late, last);
        assert(!conflicts(seq![op][0], others[others.len() - 1]));
        lemma_apply_commutes(state.apply_all(front), op, last);
    }
}

/// Two runs of operations, none of which conflicts with one of the other
/// run, leave the same objects in whichever order the runs take effect.
pub proof fn lemma_apply_all_commutes(
    state: RemoteView,
    first: Seq<OperationView>,
    second: Seq<OperationView>,
)
    requires
        independent(first, second),
    ensures
        state.apply_all(first + second).objects == state.apply_all(second + first).objects,
    decreases first.len(),
{
    if first.len() == 0 {
        assert(first + second =~= second + first);
    } else {
        let front = first.drop_last();
        let last = first.last();
        assert(independent(front, second)) by {
            assert forall|i: int, j: int|
                0 <= i < front.len() && 0 <= j < second.len() implies !conflicts(
                #[trigger] front[i],
                #[trigger] second[j],
            ) by {
                assert(front[i] == first[i]);
            }
        }
        assert(independent(seq![last], second)) by {
            assert forall|i: int, j: int| 0 <= i < 1 && 0 <= j < second.len() implies !conflicts(
                #[trigger] seq![last][i],
                #[trigger] second[j],
            ) by {
                assert(seq![last][i] == first[first.len() - 1]);
            }
        }
        let base = state.apply_all(front);
        // first + second is front, then last, then second
        assert(first + second =~= front + (seq![last] + second));
        lemma_apply_all_concat(state, front, seq![last] + second);
        lemma_apply_all_concat(base, seq![last], second);
        lemma_apply_one(base, last);
        lemma_apply_past(base, last, second);
        // second + first is second, then front, then last
        assert(second + first =~= (second + front) + seq![last]);
        lemma_apply_all_concat(state, second + front, seq![last]);
        lemma_apply_all_concat(state, front, second);
        lemma_apply_all_commutes(state, front, second);
        let one = state.apply_all(front + second);
        let other = state.apply_all(second + front);
        lemma_objects_alone(one, other, seq![last]);
        lemma_apply_one(one, last);
        lemma_apply_one(other, last);
    }
}

/// Remote storage held in memory.
#[derive(Debug)]
pub struct RemoteState {
    pub objects: LayerMap,
    pub manifest: Option<ManifestSnapshot>,
}

impl View for RemoteState {
    type V = RemoteView;

    open spec fn view(&self) -> RemoteView {
        RemoteView {
            objects: self.objects@,
            manifest: match self.manifest {
                Some(snapshot) => Some(snapshot@),
                None => None,
            },
        }
    }
}

impl RemoteState {
    /// Storage that holds no object and no manifest.
    pub fn new() -> (state: RemoteState)
        ensures
            state@ == (RemoteView { objects: Map::empty(), manifest: None }),
    {
        RemoteState { objects: LayerMap::new(), manifest: None }
    }

    /// Removes the objects named by `layers`.
    fn remove_layers(&mut self, layers: &Vec<LayerRef>)
        ensures
            final(self)@ == (RemoteView {
                objects: without_layers(old(self)@.objects, layer_views(layers@)),
                manifest: old(self)@.manifest,
            }),
    {
        let ghost start = self@;
        let ghost views = layer_views(layers@);
        let mut i: usize = 0;
        assert(views.subrange(0, 0) =~= Seq::empty());
        while i < layers.len()
            invariant
                i <= layers.len(),
                views == layer_views(layers@),
                self@.manifest == start.manifest,
                self@.objects == without_layers(start.objects, views.subrange(0, i as int)),
            decreases layers.len() - i,
        {
            proof {
                let prefix = views.subrange(0, i + 1);
                assert(prefix.drop_last() =~= views.subrange(0, i as int));
                assert(prefix.last() == views[i as int]);
            }
            self.objects.remove(&layers[i].name);
            i += 1;
        }
        assert(views.subrange(0, i as int) =~= views);
    }

    /// Lets `op` take effect.
    pub fn apply(&mut self, op: &Operation)
        ensures
            final(self)@ == old(self)@.apply(op@),
    {
        match op {
            Operation::UploadLayer { name, metadata } => {
                self.objects.insert(name.as_str(), *metadata);
            },
            Operation::UploadMetadata { snapshot } => {
                self.manifest = Some(snapshot.clone());
            },
            Operation::Delete { layers } => {
                self.remove_layers(layers);
            },
        }
    }

    /// Lets the operations of `task` take effect in their order.
    pub fn apply_task(&mut self, task: &Task)
        ensures
            final(self)@ == old(self)@.apply_all(task@.ops()),
    {
        let ghost start = self@;
        let ghost ops = task@.ops();
        self.apply(&task.primary_op);
        proof {
            let first = ops.subrange(0, 1);
            assert(first.drop_last() =~= Seq::empty());
            assert(first.last() == task@.primary_op);
            assert(start.apply_all(first.drop_last()) == start);
            assert(start.apply_all(first) == start.apply(task@.primary_op));
        }
        let mut i: usize = 0;
        while i < task.coalesced_ops.len()
            invariant
                i <= task.coalesced_ops.len(),
                ops == task@.ops(),
                self@ == start.apply_all(ops.subrange(0, i + 1)),
            decreases task.coalesced_ops.len() - i,
        {
            proof {
                let prefix = ops.subrange(0, i + 2);
                assert(prefix.drop_last() =~= ops.subrange(0, i + 1));
                assert(prefix.last() == operation_views(task.coalesced_ops@)[i as int]);
            }
            self.apply(&task.coalesced_ops[i]);
            i += 1;
        }
        assert(ops.subrange(0, i + 1) =~= ops);
    }

    /// Dispatches the pending operations of `queue` one task at a time: each
    /// task takes effect here and is reported as a success before the next
    /// is dispatched. It ends where nothing more can be dispatched.
    ///
    /// For a queue that starts with nothing in flight, this leaves here, and
    /// as the queue's manifest, what the pending operations give when they
    /// take effect one by one in the order in which they were enqueued.
    pub fn drain(&mut self, queue: &mut UploadQueue)
        requires
            old(queue)@.wf(),
            old(queue)@.next_task_id + old(queue)@.pending.len() <= u64::MAX,
        ensures
            final(queue)@.wf(),
            (final(queue)@, final(self)@) == drained(old(queue)@, old(self)@),
            old(queue)@.state == QueueState::Initialized && old(queue)@.inprogress.len() == 0
                && old(queue)@.concurrency_limit > 0 && !old(queue)@.manifest_halted && old(
                self,
            )@.manifest == old(queue)@.manifest ==> {
                &&& final(queue)@.pending.len() == 0
                &&& final(queue)@.inprogress.len() == 0
                &&& final(self)@ == old(self)@.apply_all(old(queue)@.pending)
                &&& final(queue)@.manifest == final(self)@.manifest
            },
    {
        let ghost start = (queue@, self@);
        let mut more = true;
        while more
            invariant
                queue@.wf(),
                queue@.next_task_id + queue@.pending.len() <= u64::MAX,
                drained(queue@, self@) == drained(start.0, start.1),
                !more ==> drained(queue@, self@) == (queue@, self@),
            decreases
                    2 * queue@.pending.len() + (if more {
                        1int
                    } else {
                        0int
                    }),
        {
            let ghost before = queue@;
            proof {
                if before.can_promote() {
                    crate::model::lemma_promotion_wf(before);
                }
            }
            if queue.pending_len() == 0 {
                more = false;
            } else {
                match queue.promote_next() {
                    Ok(Some(task)) => {
                        self.apply_task(&task);
                        let _ = queue.report_completion(task.id, Outcome::Success);
                    },
                    _ => {
                        more = false;
                    },
                }
            }
        }
        proof {
            if start.0.state == QueueState::Initialized && start.0.inprogress.len() == 0
                && start.0.concurrency_limit > 0 && !start.0.manifest_halted && start.1.manifest
                == start.0.manifest {
                crate::laws::lemma_drain_is_sequential(start.0, start.1);
            }
        }
    }
}

} // verus!
