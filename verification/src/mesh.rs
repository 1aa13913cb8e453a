use vstd::prelude::*;
use crate::edges::Edges;
use crate::edges::EdgesView;
use crate::layer::Layer;
use crate::layer::LayerView;
use crate::tensor::Array;
use crate::tensor::Tensor;
use crate::tensor::no_arrays;
use crate::width::logical_width;

verus! {

/// The state of one node: its layers in order (the input layer first), the
/// store that holds its packed value buffer and its outputs, and its routing
/// table.
pub struct Mesh {
    pub layers: Vec<Layer>,
    pub tensor: Tensor,
    pub edges: Edges,
}

/// A mesh as plain values.
pub struct MeshView {
    pub layers: Seq<LayerView>,
    pub tensor: Map<Seq<char>, Array>,
    pub edges: EdgesView,
}

/// The layers of a list as plain values, in order.
pub open spec fn layer_views(layers: Seq<Layer>) -> Seq<LayerView> {
    Seq::new(layers.len(), |i: int| layers[i]@)
}

impl View for Mesh {
    type V = MeshView;

    open spec fn view(&self) -> MeshView {
        MeshView { layers: layer_views(self.layers@), tensor: self.tensor@, edges: self.edges@ }
    }
}

/// Whether the logical width of every layer fits 64 bits.
pub open spec fn widths_fit(layers: Seq<LayerView>) -> bool {
    forall|i: int| 0 <= i < layers.len() ==> logical_width(#[trigger] layers[i].tensor) <= u64::MAX
}

/// The logical width of each layer, in order: for each layer the widths of
/// its arrays added up, those under reserved names left out.
pub open spec fn topology_of(layers: Seq<LayerView>) -> Seq<u64> {
    Seq::new(layers.len(), |i: int| logical_width(layers[i].tensor) as u64)
}

impl Mesh {
    /// A mesh of the given layers and routing table, with an empty value store.
    pub fn new(layers: Vec<Layer>, edges: Edges) -> (mesh: Self)
        ensures
            mesh@ == (MeshView { layers: layer_views(layers@), tensor: no_arrays(), edges: edges@ }),
    {
        Mesh { layers, tensor: Tensor::empty(), edges }
    }

    /// The logical width of each layer, or `None` if one of them does not
    /// fit 64 bits.
    pub fn topology(&self) -> (widths: Option<Vec<u64>>)
        ensures
            match widths {
                Some(list) => widths_fit(self@.layers) && list@ == topology_of(self@.layers),
                None => !widths_fit(self@.layers),
            },
    {
        let mut list: Vec<u64> = Vec::new();
        let mut i: usize = 0;
        while i < self.layers.len()
            invariant
                i <= self.layers.len(),
                list@.len() == i,
                forall|j: int| 0 <= j < i ==> logical_width(#[trigger] self@.layers[j].tensor) <= u64::MAX,
                forall|j: int| 0 <= j < i ==> list@[j] == logical_width(self@.layers[j].tensor),
            decreases self.layers.len() - i,
        {
            match self.layers[i].tensor.width() {
                Some(width) => {
                    list.push(width);
                },
                None => {
                    assert(logical_width(self@.layers[i as int].tensor) > u64::MAX);
                    return None;
                },
            }
            i += 1;
        }
        assert(list@ =~= topology_of(self@.layers));
        Some(list)
    }

    pub fn tensor(&self) -> (tensor: &Tensor)
        ensures
            tensor@ == self@.tensor,
    {
        &self.tensor
    }

    pub fn layers(&self) -> (layers: &Vec<Layer>)
        ensures
            layer_views(layers@) == self@.layers,
    {
        &self.layers
    }

    pub fn edges(&self) -> (edges: &Edges)
        ensures
            edges@ == self@.edges,
    {
        &self.edges
    }
}

} // verus!
