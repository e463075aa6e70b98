//! Layer files and the metadata that identifies their remote objects.

use vstd::prelude::*;

verus! {

/// The shard of a tenant that a layer belongs to.
#[derive(Clone, Copy, Debug, PartialEq, Eq, Structural)]
pub struct ShardIndex {
    pub shard_number: u8,
    pub shard_count: u8,
}

impl ShardIndex {
    pub fn new(shard_number: u8, shard_count: u8) -> (index: ShardIndex)
        ensures
            index == (ShardIndex { shard_number, shard_count }),
    {
        ShardIndex { shard_number, shard_count }
    }

    /// The index of a tenant that is not split into shards.
    pub fn unsharded() -> (index: ShardIndex)
        ensures
            index == (ShardIndex { shard_number: 0, shard_count: 0 }),
    {
        ShardIndex { shard_number: 0, shard_count: 0 }
    }

    pub fn is_unsharded(&self) -> (unsharded: bool)
        ensures
            unsharded == (self.shard_number == 0 && self.shard_count == 0),
    {
        self.shard_number == 0 && self.shard_count == 0
    }
}

/// What identifies the remote object of a layer besides its name.
#[derive(Clone, Copy, Debug, PartialEq, Eq, Structural)]
pub struct LayerMetadata {
    pub shard: ShardIndex,
    /// The fencing epoch of the owner that wrote the object.
    pub generation: u32,
    pub file_size: u64,
}

impl LayerMetadata {
    pub fn new(shard: ShardIndex, generation: u32, file_size: u64) -> (metadata: LayerMetadata)
        ensures
            metadata == (LayerMetadata { shard, generation, file_size }),
    {
        LayerMetadata { shard, generation, file_size }
    }
}

/// A layer as an operation names it: its name and its metadata.
#[derive(Debug)]
pub struct LayerRef {
    pub name: String,
    pub metadata: LayerMetadata,
}

/// The mathematical value of a [`LayerRef`].
pub ghost struct LayerRefView {
    pub name: Seq<char>,
    pub metadata: LayerMetadata,
}

impl View for LayerRef {
    type V = LayerRefView;

    open spec fn view(&self) -> LayerRefView {
        LayerRefView { name: self.name@, metadata: self.metadata }
    }
}

impl Clone for LayerRef {
    fn clone(&self) -> (copy: LayerRef)
        ensures
            copy@ == self@,
    {
        LayerRef { name: self.name.clone(), metadata: self.metadata }
    }
}

impl LayerRef {
    pub fn new(name: &str, metadata: LayerMetadata) -> (layer: LayerRef)
        ensures
            layer@ == (LayerRefView { name: name@, metadata }),
    {
        LayerRef { name: name.to_owned(), metadata }
    }
}

/// Whether one of `layers` has the name `name`.
pub open spec fn names_contain(layers: Seq<LayerRefView>, name: Seq<char>) -> bool {
    exists|i: int| 0 <= i < layers.len() && (#[trigger] layers[i]).name == name
}

/// The views of a vector of layers, in order.
pub open spec fn layer_views(layers: Seq<LayerRef>) -> Seq<LayerRefView> {
    layers.map_values(|layer: LayerRef| layer@)
}

/// Tells whether one of `layers` has the name `name`.
pub fn contains_name(layers: &Vec<LayerRef>, name: &String) -> (found: bool)
    ensures
        found == names_contain(layer_views(layers@), name@),
{
    let mut i: usize = 0;
    while i < layers.len()
        invariant
            i <= layers.len(),
            forall|j: int| 0 <= j < i ==> (#[trigger] layers@[j]).name@ != name@,
        decreases layers.len() - i,
    {
        if layers[i].name == *name {
            assert(layer_views(layers@)[i as int].name == name@);
            return true;
        }
        i += 1;
    }
    assert forall|j: int| 0 <= j < layer_views(layers@).len() implies (#[trigger] layer_views(
        layers@,
    )[j]).name != name@ by {
        assert(layers@[j].name@ != name@);
    }
    false
}

/// Copies a vector of layers.
pub fn clone_layers(layers: &Vec<LayerRef>) -> (copy: Vec<LayerRef>)
    ensures
        layer_views(copy@) == layer_views(layers@),
{
    let mut copy: Vec<LayerRef> = Vec::new();
    let mut i: usize = 0;
    while i < layers.len()
        invariant
            i <= layers.len(),
            copy@.len() == i,
            forall|j: int| 0 <= j < i ==> (#[trigger] copy@[j])@ == layers@[j]@,
        decreases layers.len() - i,
    {
        copy.push(layers[i].clone());
        i += 1;
    }
    assert(layer_views(copy@) =~= layer_views(layers@));
    copy
}

} // verus!
