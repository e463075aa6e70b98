//! The manifest: which layers make up the durable state of a timeline.

use vstd::prelude::*;
use crate::layer::LayerMetadata;
use crate::layer::LayerRef;
use crate::layer::LayerRefView;
use crate::layer::names_contain;

verus! {

/// What the engine records of a timeline as a whole. The queue carries it
/// along with the layers and never reads it.
#[derive(Clone, Copy, Debug, PartialEq, Eq, Structural)]
pub struct TimelineMetadata {
    pub disk_consistent_lsn: u64,
    pub latest_gc_cutoff_lsn: u64,
    pub pg_version: u32,
}

impl TimelineMetadata {
    pub fn new(disk_consistent_lsn: u64, latest_gc_cutoff_lsn: u64, pg_version: u32) -> (metadata:
        TimelineMetadata)
        ensures
            metadata == (TimelineMetadata { disk_consistent_lsn, latest_gc_cutoff_lsn, pg_version }),
    {
        TimelineMetadata { disk_consistent_lsn, latest_gc_cutoff_lsn, pg_version }
    }
}

/// The mathematical value of a manifest snapshot: a finite map from layer
/// names to metadata, and the timeline's metadata.
pub ghost struct ManifestView {
    pub layers: Map<Seq<char>, LayerMetadata>,
    pub timeline: TimelineMetadata,
}

/// The map that a list of entries stands for: a later entry replaces an
/// earlier one of the same name.
pub open spec fn layers_map(entries: Seq<LayerRefView>) -> Map<Seq<char>, LayerMetadata>
    decreases entries.len(),
{
    if entries.len() == 0 {
        Map::empty()
    } else {
        layers_map(entries.drop_last()).insert(entries.last().name, entries.last().metadata)
    }
}

/// A name is in the map of a list exactly when an entry has that name.
pub proof fn lemma_layers_map_domain(entries: Seq<LayerRefView>, name: Seq<char>)
    ensures
        layers_map(entries).contains_key(name) == names_contain(entries, name),
    decreases entries.len(),
{
    if entries.len() == 0 {
    } else {
        let front = entries.drop_last();
        lemma_layers_map_domain(front, name);
        if names_contain(entries, name) {
            let i = choose|i: int| 0 <= i < entries.len() && (#[trigger] entries[i]).name == name;
            if i < front.len() {
                assert(front[i].name == name);
            }
        }
        if names_contain(front, name) {
            let i = choose|i: int| 0 <= i < front.len() && (#[trigger] front[i]).name == name;
            assert(entries[i].name == name);
        }
        if entries.last().name == name {
            assert(entries[entries.len() - 1].name == name);
        }
    }
}

/// Entries of other names do not change what the map holds for `name`.
proof fn lemma_layers_map_skip(entries: Seq<LayerRefView>, kept: Seq<LayerRefView>, name: Seq<char>)
    requires
        kept == entries.filter(|entry: LayerRefView| entry.name != name),
    ensures
        layers_map(kept) == layers_map(entries).remove(name),
    decreases entries.len(),
{
    let keep = |entry: LayerRefView| entry.name != name;
    reveal(Seq::filter);
    if entries.len() == 0 {
        assert(layers_map(kept) =~= layers_map(entries).remove(name));
    } else {
        let front = entries.drop_last();
        lemma_layers_map_skip(front, front.filter(keep), name);
        if keep(entries.last()) {
            assert(kept == front.filter(keep).push(entries.last()));
            assert(kept.drop_last() == front.filter(keep));
            assert(layers_map(kept) =~= layers_map(entries).remove(name));
        } else {
            assert(kept == front.filter(keep));
            assert(layers_map(kept) =~= layers_map(entries).remove(name));
        }
    }
}

/// A finite map from layer names to metadata.
#[derive(Debug)]
pub struct LayerMap {
    entries: Vec<LayerRef>,
}

impl View for LayerMap {
    type V = Map<Seq<char>, LayerMetadata>;

    closed spec fn view(&self) -> Map<Seq<char>, LayerMetadata> {
        layers_map(crate::layer::layer_views(self.entries@))
    }
}

impl Clone for LayerMap {
    fn clone(&self) -> (copy: LayerMap)
        ensures
            copy@ == self@,
    {
        LayerMap { entries: crate::layer::clone_layers(&self.entries) }
    }
}

impl LayerMap {
    /// The map that holds no layer.
    pub fn new() -> (layers: LayerMap)
        ensures
            layers@ == Map::<Seq<char>, LayerMetadata>::empty(),
    {
        LayerMap { entries: Vec::new() }
    }

    /// The layers of the map with their metadata, as a list that stands for
    /// the same map.
    pub fn to_vec(&self) -> (layers: Vec<LayerRef>)
        ensures
            layers_map(crate::layer::layer_views(layers@)) == self@,
    {
        crate::layer::clone_layers(&self.entries)
    }

    /// Tells whether the map holds the layer `name`.
    pub fn contains(&self, name: &String) -> (found: bool)
        ensures
            found == self@.contains_key(name@),
    {
        proof {
            lemma_layers_map_domain(crate::layer::layer_views(self.entries@), name@);
        }
        crate::layer::contains_name(&self.entries, name)
    }

    /// The metadata that the map holds for the layer `name`.
    pub fn get(&self, name: &String) -> (metadata: Option<LayerMetadata>)
        ensures
            metadata == (if self@.contains_key(name@) {
                Some(self@[name@])
            } else {
                None
            }),
    {
        let ghost views = crate::layer::layer_views(self.entries@);
        let mut i: usize = self.entries.len();
        assert(views.subrange(0, i as int) == views);
        while i > 0
            invariant
                i <= self.entries.len(),
                views == crate::layer::layer_views(self.entries@),
                layers_map(views).contains_key(name@) == layers_map(
                    views.subrange(0, i as int),
                ).contains_key(name@),
                layers_map(views).contains_key(name@) ==> layers_map(views)[name@] == layers_map(
                    views.subrange(0, i as int),
                )[name@],
            decreases i,
        {
            let ghost prefix = views.subrange(0, i as int);
            assert(prefix.drop_last() == views.subrange(0, i - 1));
            assert(prefix.last() == views[i - 1]);
            i -= 1;
            if self.entries[i].name == *name {
                return Some(self.entries[i].metadata);
            }
        }
        assert(views.subrange(0, 0) =~= Seq::<LayerRefView>::empty());
        None
    }

    /// Records `metadata` for the layer `name`, in place of what was
    /// recorded for it before.
    pub fn insert(&mut self, name: &str, metadata: LayerMetadata)
        ensures
            final(self)@ == old(self)@.insert(name@, metadata),
    {
        let owned = name.to_owned();
        self.remove(&owned);
        let ghost before = crate::layer::layer_views(self.entries@);
        self.entries.push(LayerRef { name: owned, metadata });
        proof {
            let after = crate::layer::layer_views(self.entries@);
            assert(after.drop_last() =~= before);
            assert(self@ =~= old(self)@.insert(name@, metadata));
        }
    }

    /// Takes the layer `name` out of the map.
    pub fn remove(&mut self, name: &String)
        ensures
            final(self)@ == old(self)@.remove(name@),
    {
        let ghost before = crate::layer::layer_views(self.entries@);
        let ghost keep = |entry: LayerRefView| entry.name != name@;
        let mut kept: Vec<LayerRef> = Vec::new();
        let mut i: usize = 0;
        while i < self.entries.len()
            invariant
                i <= self.entries.len(),
                before == crate::layer::layer_views(self.entries@),
                keep == (|entry: LayerRefView| entry.name != name@),
                crate::layer::layer_views(kept@) == before.subrange(0, i as int).filter(keep),
            decreases self.entries.len() - i,
        {
            proof {
                reveal(Seq::filter);
                let prefix = before.subrange(0, i + 1);
                assert(prefix.drop_last() == before.subrange(0, i as int));
                assert(prefix.last() == before[i as int]);
            }
            if self.entries[i].name != *name {
                let ghost shorter = crate::layer::layer_views(kept@);
                kept.push(self.entries[i].clone());
                assert(crate::layer::layer_views(kept@) =~= shorter.push(before[i as int]));
            }
            i += 1;
        }
        proof {
            assert(before.subrange(0, i as int) == before);
            lemma_layers_map_skip(before, crate::layer::layer_views(kept@), name@);
        }
        self.entries = kept;
    }
}

/// One durable record of the layers that make up a timeline.
#[derive(Debug)]
pub struct ManifestSnapshot {
    pub layers: LayerMap,
    pub timeline: TimelineMetadata,
}

impl View for ManifestSnapshot {
    type V = ManifestView;

    open spec fn view(&self) -> ManifestView {
        ManifestView { layers: self.layers@, timeline: self.timeline }
    }
}

impl Clone for ManifestSnapshot {
    fn clone(&self) -> (copy: ManifestSnapshot)
        ensures
            copy@ == self@,
    {
        ManifestSnapshot { layers: self.layers.clone(), timeline: self.timeline }
    }
}

impl ManifestSnapshot {
    /// A manifest that names no layer.
    pub fn empty(timeline: TimelineMetadata) -> (snapshot: ManifestSnapshot)
        ensures
            snapshot@ == (ManifestView { layers: Map::empty(), timeline }),
    {
        ManifestSnapshot { layers: LayerMap::new(), timeline }
    }

    /// Tells whether the manifest names the layer `name`.
    pub fn references(&self, name: &String) -> (found: bool)
        ensures
            found == self@.layers.contains_key(name@),
    {
        self.layers.contains(name)
    }

    /// Records `metadata` for the layer `name`, in place of what was
    /// recorded for it before.
    pub fn insert(&mut self, name: &str, metadata: LayerMetadata)
        ensures
            final(self)@ == (ManifestView {
                layers: old(self)@.layers.insert(name@, metadata),
                timeline: old(self)@.timeline,
            }),
    {
        self.layers.insert(name, metadata);
    }

    /// Takes the layer `name` out of the manifest.
    pub fn remove(&mut self, name: &String)
        ensures
            final(self)@ == (ManifestView {
                layers: old(self)@.layers.remove(name@),
                timeline: old(self)@.timeline,
            }),
    {
        self.layers.remove(name);
    }
}

} // verus!
