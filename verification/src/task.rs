//! Dispatched units of work.

use vstd::prelude::*;
use crate::manifest::ManifestSnapshot;
use crate::manifest::ManifestView;
use crate::operation::Operation;
use crate::operation::OperationKind;
use crate::operation::OperationView;
use crate::operation::conflicts;

verus! {

/// How an attempt to carry out a task against remote storage ended.
#[derive(Clone, Copy, Debug, PartialEq, Eq, Structural)]
pub enum Outcome {
    /// Every operation of the task took effect.
    Success,
    /// The attempt failed and may be made again.
    TransientFailure,
    /// The attempt failed for good.
    FatalFailure,
}

/// The views of a sequence of operations, in order.
pub open spec fn operation_views(ops: Seq<Operation>) -> Seq<OperationView> {
    ops.map_values(|op: Operation| op@)
}

/// One operation in flight, with the operations that were folded into it.
#[derive(Debug)]
pub struct Task {
    pub id: u64,
    /// How many attempts have failed so far.
    pub retries: u32,
    pub primary_op: Operation,
    /// The operations that followed `primary_op` in the queue and are carried
    /// out with it, in their queue order.
    pub coalesced_ops: Vec<Operation>,
}

/// The mathematical value of a [`Task`].
pub ghost struct TaskView {
    pub id: u64,
    pub retries: u32,
    pub primary_op: OperationView,
    pub coalesced_ops: Seq<OperationView>,
}

impl TaskView {
    /// The operations of the task in the order in which they take effect.
    pub open spec fn ops(self) -> Seq<OperationView> {
        seq![self.primary_op] + self.coalesced_ops
    }

    /// Whether `candidate` conflicts with one of its operations.
    pub open spec fn blocks(self, candidate: OperationView) -> bool {
        exists|i: int| 0 <= i < self.ops().len() && conflicts(candidate, #[trigger] self.ops()[i])
    }

    /// Whether an operation of `other` conflicts with an operation of this
    /// one.
    pub open spec fn conflicts_with(self, other: TaskView) -> bool {
        exists|i: int| 0 <= i < other.ops().len() && self.blocks(#[trigger] other.ops()[i])
    }

    /// The snapshot that is durable once the task has succeeded: that of its
    /// last operation, where the task uploads manifests.
    pub open spec fn final_snapshot(self) -> Option<ManifestView> {
        last_snapshot(self.ops())
    }
}

/// The snapshot of the last manifest upload among `ops`.
pub open spec fn last_snapshot(ops: Seq<OperationView>) -> Option<ManifestView>
    decreases ops.len(),
{
    if ops.len() == 0 {
        None
    } else {
        match ops.last() {
            OperationView::UploadMetadata { snapshot } => Some(snapshot),
            _ => last_snapshot(ops.drop_last()),
        }
    }
}

/// Where one of `ops` uploads a manifest, there is a last snapshot.
pub proof fn lemma_last_snapshot_found(ops: Seq<OperationView>, i: int)
    requires
        0 <= i < ops.len(),
        ops[i] is UploadMetadata,
    ensures
        last_snapshot(ops).is_some(),
    decreases ops.len(),
{
    if i < ops.len() - 1 {
        if !(ops.last() is UploadMetadata) {
            assert(ops.drop_last()[i] == ops[i]);
            lemma_last_snapshot_found(ops.drop_last(), i);
        }
    }
}

/// Where none of `ops` uploads a manifest, there is no last snapshot.
pub proof fn lemma_last_snapshot_absent(ops: Seq<OperationView>)
    requires
        forall|i: int| 0 <= i < ops.len() ==> !((#[trigger] ops[i]) is UploadMetadata),
    ensures
        last_snapshot(ops).is_none(),
    decreases ops.len(),
{
    if ops.len() > 0 {
        assert(!(ops[ops.len() - 1] is UploadMetadata));
        assert forall|i: int| 0 <= i < ops.drop_last().len() implies !((#[trigger] ops.drop_last()[i])
            is UploadMetadata) by {
            assert(ops.drop_last()[i] == ops[i]);
        }
        lemma_last_snapshot_absent(ops.drop_last());
    }
}

impl View for Task {
    type V = TaskView;

    open spec fn view(&self) -> TaskView {
        TaskView {
            id: self.id,
            retries: self.retries,
            primary_op: self.primary_op@,
            coalesced_ops: operation_views(self.coalesced_ops@),
        }
    }
}

/// Copies a vector of operations.
pub fn clone_operations(ops: &Vec<Operation>) -> (copy: Vec<Operation>)
    ensures
        operation_views(copy@) == operation_views(ops@),
{
    let mut copy: Vec<Operation> = Vec::new();
    let mut i: usize = 0;
    while i < ops.len()
        invariant
            i <= ops.len(),
            copy@.len() == i,
            forall|j: int| 0 <= j < i ==> (#[trigger] copy@[j])@ == ops@[j]@,
        decreases ops.len() - i,
    {
        copy.push(ops[i].clone());
        i += 1;
    }
    assert(operation_views(copy@) =~= operation_views(ops@));
    copy
}

impl Clone for Task {
    fn clone(&self) -> (copy: Task)
        ensures
            copy@ == self@,
    {
        Task {
            id: self.id,
            retries: self.retries,
            primary_op: self.primary_op.clone(),
            coalesced_ops: clone_operations(&self.coalesced_ops),
        }
    }
}

impl Task {
    pub fn kind(&self) -> (kind: OperationKind)
        ensures
            kind == self@.primary_op.kind(),
    {
        self.primary_op.kind()
    }

    /// Tells whether `candidate` conflicts with one of its operations.
    pub fn blocks(&self, candidate: &Operation) -> (blocked: bool)
        ensures
            blocked == self@.blocks(candidate@),
    {
        if candidate.conflicts_with(&self.primary_op) {
            assert(conflicts(candidate@, self@.ops()[0]));
            return true;
        }
        let mut i: usize = 0;
        while i < self.coalesced_ops.len()
            invariant
                i <= self.coalesced_ops.len(),
                !conflicts(candidate@, self@.primary_op),
                forall|j: int|
                    0 <= j < i ==> !conflicts(
                        candidate@,
                        #[trigger] operation_views(self.coalesced_ops@)[j],
                    ),
            decreases self.coalesced_ops.len() - i,
        {
            if candidate.conflicts_with(&self.coalesced_ops[i]) {
                assert(self@.ops()[i + 1] == operation_views(self.coalesced_ops@)[i as int]);
                assert(conflicts(candidate@, self@.ops()[i + 1]));
                return true;
            }
            i += 1;
        }
        assert forall|j: int| 0 <= j < self@.ops().len() implies !conflicts(
            candidate@,
            #[trigger] self@.ops()[j],
        ) by {
            if j > 0 {
                assert(self@.ops()[j] == operation_views(self.coalesced_ops@)[j - 1]);
            }
        }
        false
    }

    /// The snapshot that is durable once the task has succeeded.
    pub fn final_snapshot(&self) -> (snapshot: Option<&ManifestSnapshot>)
        ensures
            snapshot.is_some() == self@.final_snapshot().is_some(),
            snapshot.is_some() ==> snapshot.unwrap()@ == self@.final_snapshot().unwrap(),
    {
        let ghost ops = self@.ops();
        let mut i: usize = self.coalesced_ops.len();
        assert(ops.subrange(0, i + 1) == ops);
        while i > 0
            invariant
                i <= self.coalesced_ops.len(),
                ops == self@.ops(),
                last_snapshot(ops) == last_snapshot(ops.subrange(0, i + 1)),
            decreases i,
        {
            let ghost prefix = ops.subrange(0, i + 1);
            assert(prefix.drop_last() == ops.subrange(0, i as int));
            assert(prefix.last() == operation_views(self.coalesced_ops@)[i - 1]);
            i -= 1;
            match &self.coalesced_ops[i] {
                Operation::UploadMetadata { snapshot } => {
                    return Some(snapshot);
                },
                _ => {},
            }
        }
        let ghost first = ops.subrange(0, 1);
        assert(first.last() == self@.primary_op);
        assert(first.drop_last().len() == 0);
        assert(last_snapshot(first.drop_last()).is_none());
        match &self.primary_op {
            Operation::UploadMetadata { snapshot } => Some(snapshot),
            _ => None,
        }
    }
}

} // verus!
