//! The changes that producers ask of remote storage, and when two of them
//! must not be in flight together.

use vstd::prelude::*;
use crate::layer::LayerMetadata;
use crate::layer::LayerRef;
use crate::layer::LayerRefView;
use crate::layer::contains_name;
use crate::layer::layer_views;
use crate::layer::names_contain;
use crate::manifest::ManifestSnapshot;
use crate::manifest::ManifestView;

verus! {

/// One unit of desired change to remote storage.
#[derive(Debug)]
pub enum Operation {
    /// Persist one layer object.
    UploadLayer { name: String, metadata: LayerMetadata },
    /// Persist a new manifest snapshot.
    UploadMetadata { snapshot: ManifestSnapshot },
    /// Remove layer objects.
    Delete { layers: Vec<LayerRef> },
}

/// The mathematical value of an [`Operation`].
pub ghost enum OperationView {
    UploadLayer { name: Seq<char>, metadata: LayerMetadata },
    UploadMetadata { snapshot: ManifestView },
    Delete { layers: Seq<LayerRefView> },
}

/// Which of the three variants an operation is.
#[derive(Clone, Copy, Debug, PartialEq, Eq, Structural)]
pub enum OperationKind {
    UploadLayer,
    UploadMetadata,
    Delete,
}

impl OperationView {
    pub open spec fn kind(self) -> OperationKind {
        match self {
            OperationView::UploadLayer { .. } => OperationKind::UploadLayer,
            OperationView::UploadMetadata { .. } => OperationKind::UploadMetadata,
            OperationView::Delete { .. } => OperationKind::Delete,
        }
    }

    /// Whether the operation writes, removes or names the layer `name`.
    pub open spec fn touches(self, name: Seq<char>) -> bool {
        match self {
            OperationView::UploadLayer { name: own, .. } => own == name,
            OperationView::UploadMetadata { snapshot } => snapshot.layers.contains_key(name),
            OperationView::Delete { layers } => names_contain(layers, name),
        }
    }
}

/// Whether `snapshot` names one of `layers`.
pub open spec fn references_any(snapshot: ManifestView, layers: Seq<LayerRefView>) -> bool {
    exists|i: int| 0 <= i < layers.len() && snapshot.layers.contains_key((#[trigger] layers[i]).name)
}

/// Whether `a` and `b` must not be in flight together.
///
/// Two deletions never conflict, and neither do two manifest uploads. Any
/// other pair conflicts exactly when both touch one layer name: an upload and
/// an upload or a deletion of the same layer, and a manifest upload and an
/// upload or a deletion of a layer that the snapshot names.
pub open spec fn conflicts(a: OperationView, b: OperationView) -> bool {
    match (a, b) {
        (
            OperationView::UploadLayer { name: first, .. },
            OperationView::UploadLayer { name: second, .. },
        ) => first == second,
        (OperationView::UploadLayer { name, .. }, OperationView::Delete { layers }) => names_contain(
            layers,
            name,
        ),
        (OperationView::Delete { layers }, OperationView::UploadLayer { name, .. }) => names_contain(
            layers,
            name,
        ),
        (
            OperationView::UploadLayer { name, .. },
            OperationView::UploadMetadata { snapshot },
        ) => snapshot.layers.contains_key(name),
        (
            OperationView::UploadMetadata { snapshot },
            OperationView::UploadLayer { name, .. },
        ) => snapshot.layers.contains_key(name),
        (OperationView::Delete { layers }, OperationView::UploadMetadata { snapshot }) => references_any(
            snapshot,
            layers,
        ),
        (OperationView::UploadMetadata { snapshot }, OperationView::Delete { layers }) => references_any(
            snapshot,
            layers,
        ),
        (OperationView::Delete { .. }, OperationView::Delete { .. }) => false,
        (OperationView::UploadMetadata { .. }, OperationView::UploadMetadata { .. }) => false,
    }
}

/// Conflict does not depend on which of the two operations came first.
pub proof fn lemma_conflicts_symmetric(a: OperationView, b: OperationView)
    ensures
        conflicts(a, b) == conflicts(b, a),
{
}

/// Two operations that conflict touch a common layer name: operations on
/// disjoint sets of names never conflict.
pub proof fn lemma_conflict_shares_name(a: OperationView, b: OperationView)
    requires
        conflicts(a, b),
    ensures
        exists|name: Seq<char>| a.touches(name) && b.touches(name),
{
    match (a, b) {
        (OperationView::UploadLayer { name, .. }, _) => {
            assert(a.touches(name) && b.touches(name));
        },
        (_, OperationView::UploadLayer { name, .. }) => {
            assert(a.touches(name) && b.touches(name));
        },
        (OperationView::Delete { layers }, OperationView::UploadMetadata { snapshot }) => {
            let i = choose|i: int|
                0 <= i < layers.len() && snapshot.layers.contains_key((#[trigger] layers[i]).name);
            assert(a.touches(layers[i].name) && b.touches(layers[i].name));
        },
        (OperationView::UploadMetadata { snapshot }, OperationView::Delete { layers }) => {
            let i = choose|i: int|
                0 <= i < layers.len() && snapshot.layers.contains_key((#[trigger] layers[i]).name);
            assert(a.touches(layers[i].name) && b.touches(layers[i].name));
        },
        _ => {},
    }
}

impl View for Operation {
    type V = OperationView;

    open spec fn view(&self) -> OperationView {
        match self {
            Operation::UploadLayer { name, metadata } => OperationView::UploadLayer {
                name: name@,
                metadata: *metadata,
            },
            Operation::UploadMetadata { snapshot } => OperationView::UploadMetadata {
                snapshot: snapshot@,
            },
            Operation::Delete { layers } => OperationView::Delete { layers: layer_views(layers@) },
        }
    }
}

impl Clone for Operation {
    fn clone(&self) -> (copy: Operation)
        ensures
            copy@ == self@,
    {
        match self {
            Operation::UploadLayer { name, metadata } => Operation::UploadLayer {
                name: name.clone(),
                metadata: *metadata,
            },
            Operation::UploadMetadata { snapshot } => Operation::UploadMetadata {
                snapshot: snapshot.clone(),
            },
            Operation::Delete { layers } => Operation::Delete {
                layers: crate::layer::clone_layers(layers),
            },
        }
    }
}

/// Tells whether `snapshot` names one of `layers`.
pub fn snapshot_references_any(snapshot: &ManifestSnapshot, layers: &Vec<LayerRef>) -> (found: bool)
    ensures
        found == references_any(snapshot@, layer_views(layers@)),
{
    let mut i: usize = 0;
    while i < layers.len()
        invariant
            i <= layers.len(),
            forall|j: int|
                0 <= j < i ==> !snapshot@.layers.contains_key((#[trigger] layer_views(layers@)[j]).name),
        decreases layers.len() - i,
    {
        if snapshot.references(&layers[i].name) {
            assert(snapshot@.layers.contains_key(layer_views(layers@)[i as int].name));
            return true;
        }
        i += 1;
    }
    false
}

impl Operation {
    pub fn kind(&self) -> (kind: OperationKind)
        ensures
            kind == self@.kind(),
    {
        match self {
            Operation::UploadLayer { .. } => OperationKind::UploadLayer,
            Operation::UploadMetadata { .. } => OperationKind::UploadMetadata,
            Operation::Delete { .. } => OperationKind::Delete,
        }
    }

    /// Tells whether the operation touches the layer `name`.
    pub fn touches(&self, name: &String) -> (touched: bool)
        ensures
            touched == self@.touches(name@),
    {
        match self {
            Operation::UploadLayer { name: own, .. } => *own == *name,
            Operation::UploadMetadata { snapshot } => snapshot.references(name),
            Operation::Delete { layers } => contains_name(layers, name),
        }
    }

    /// Tells whether this operation and `other` must not be in flight
    /// together.
    pub fn conflicts_with(&self, other: &Operation) -> (conflict: bool)
        ensures
            conflict == conflicts(self@, other@),
    {
        match (self, other) {
            (
                Operation::UploadLayer { name: first, .. },
                Operation::UploadLayer { name: second, .. },
            ) => *first == *second,
            (Operation::UploadLayer { name, .. }, Operation::Delete { layers }) => contains_name(
                layers,
                name,
            ),
            (Operation::Delete { layers }, Operation::UploadLayer { name, .. }) => contains_name(
                layers,
                name,
            ),
            (Operation::UploadLayer { name, .. }, Operation::UploadMetadata { snapshot }) => {
                snapshot.references(name)
            },
            (Operation::UploadMetadata { snapshot }, Operation::UploadLayer { name, .. }) => {
                snapshot.references(name)
            },
            (Operation::Delete { layers }, Operation::UploadMetadata { snapshot }) => {
                snapshot_references_any(snapshot, layers)
            },
            (Operation::UploadMetadata { snapshot }, Operation::Delete { layers }) => {
                snapshot_references_any(snapshot, layers)
            },
            (Operation::Delete { .. }, Operation::Delete { .. }) => false,
            (Operation::UploadMetadata { .. }, Operation::UploadMetadata { .. }) => false,
        }
    }
}

} // verus!
