use vstd::prelude::*;
use crate::attribute::TensorDescriptor;
use crate::layer::LayerView;
use crate::layer::built_layer;
use crate::layer::layer_window;
use crate::mesh::Mesh;
use crate::mesh::MeshView;
use crate::mesh::layer_views;
use crate::mesh::topology_of;
use crate::mesh::widths_fit;
use crate::names::values_name;
use crate::plan::Fill;
use crate::plan::Recipe;
use crate::plan::RecipeView;
use crate::plan::Seed;
use crate::plan::Step;
use crate::plan::StepView;
use crate::plan::TraverseError;
use crate::plan::region_within;
use crate::plan::step_views;
use crate::processor::layer_region;
use crate::utils::lemma_widest_bounds;
use crate::tensor::Array;
use crate::tensor::Dims;
use crate::tensor::Origin;
use crate::utils::build_array;
use crate::utils::widest;
use crate::utils::widest_of;

verus! {

/// The shape of the packed value buffer of a node whose layers are `widths`
/// wide: one row, as many columns as the widest layer has, one depth per layer.
pub open spec fn values_dims(widths: Seq<u64>) -> Dims {
    Dims { d0: 1, d1: widest(widths), d2: widths.len() as u64, d3: 1 }
}

/// The packed value buffer that build number `build` of node `node` makes.
pub open spec fn values_array(widths: Seq<u64>, node: u128, build: u64) -> Array {
    Array { dims: values_dims(widths), origin: Origin::Values { node, build } }
}

/// The recipe of a packed value buffer: zeros throughout.
pub open spec fn values_recipe(widths: Seq<u64>) -> RecipeView {
    RecipeView { base: Seed { dims: values_dims(widths), fill: Fill::Constant(0) }, blocks: Seq::empty() }
}

/// Every layer's slice lies inside the packed value buffer: the buffer is
/// as wide as the widest layer and has one depth per layer, so no layer
/// has to be given room later.
pub proof fn lemma_layer_slice_fits(widths: Seq<u64>, index: int)
    requires
        0 <= index < widths.len(),
        widths.len() <= u64::MAX,
    ensures
        region_within(layer_region(widths[index], index as nat), values_dims(widths)),
{
    lemma_widest_bounds(widths, index);
}

/// The layers after the first `upto` of them were built, in order, with the
/// steps that make their parameters; the first layer that cannot be built
/// stops the build.
pub open spec fn built_layers(layers: Seq<LayerView>, widths: Seq<u64>, node: u128, build: u64, upto: nat) -> Result<
    (Seq<LayerView>, Seq<StepView>),
    TraverseError,
>
    decreases upto,
{
    if upto == 0 {
        Ok((layers, Seq::empty()))
    } else {
        let index = (upto - 1) as nat;
        match built_layers(layers, widths, node, build, index) {
            Err(error) => Err(error),
            Ok((done, steps)) => match built_layer(layers[index as int], index, widths, node, build) {
                Err(error) => Err(error),
                Ok((layer, more)) => Ok((done.update(index as int, layer), steps + more)),
            },
        }
    }
}

/// What building a mesh comes to.
///
/// The layers' logical widths are measured once. The value store gets a new
/// packed value buffer, zero throughout, in place of any earlier one, and
/// every layer is built against those widths. The steps make the buffer
/// first, then the layers' parameters in layer order. The build fails if a
/// layer is too wide to measure or cannot be built.
pub open spec fn built_mesh(mesh: MeshView, node: u128, build: u64) -> Result<(MeshView, Seq<StepView>), TraverseError> {
    if !widths_fit(mesh.layers) {
        Err(TraverseError::WidthOverflow)
    } else {
        let widths = topology_of(mesh.layers);
        let values = values_array(widths, node, build);
        match built_layers(mesh.layers, widths, node, build, mesh.layers.len()) {
            Err(error) => Err(error),
            Ok((layers, steps)) => Ok(
                (
                    MeshView { layers, tensor: mesh.tensor.insert(values_name(), values), ..mesh },
                    seq![StepView::Build { array: values, recipe: values_recipe(widths) }] + steps,
                ),
            ),
        }
    }
}

/// Once the build has stopped at a layer, taking more layers changes nothing.
pub proof fn lemma_build_failure(layers: Seq<LayerView>, widths: Seq<u64>, node: u128, build: u64, stopped: nat, upto: nat)
    requires
        built_layers(layers, widths, node, build, stopped) is Err,
        stopped <= upto,
    ensures
        built_layers(layers, widths, node, build, upto) == built_layers(layers, widths, node, build, stopped),
    decreases upto,
{
    if stopped < upto {
        lemma_build_failure(layers, widths, node, build, stopped, (upto - 1) as nat);
    }
}

/// What a build leaves of the layers it was given: as many layers, each
/// with the configuration it had; the layers built have the window of their
/// place, and the others are untouched.
pub proof fn lemma_built_layers(layers: Seq<LayerView>, widths: Seq<u64>, node: u128, build: u64, upto: nat)
    requires
        upto <= layers.len(),
        built_layers(layers, widths, node, build, upto) is Ok,
    ensures
        ({
            let done = built_layers(layers, widths, node, build, upto)->Ok_0.0;
            &&& done.len() == layers.len()
            &&& forall|i: int| 0 <= i < layers.len() ==> (#[trigger] done[i]).attribute == layers[i].attribute
            &&& forall|i: int|
                0 <= i < upto ==> (#[trigger] done[i]).domain == layer_window(layers[i].attribute, i as nat, widths)
            &&& forall|i: int| upto <= i < layers.len() ==> #[trigger] done[i] == layers[i]
        }),
    decreases upto,
{
    if upto > 0 {
        lemma_built_layers(layers, widths, node, build, (upto - 1) as nat);
    }
}

impl Mesh {
    /// Builds the mesh as build number `build` of the node `node`: makes
    /// its packed value buffer and builds every layer.
    pub fn build(&mut self, node: u128, build: u64) -> (result: Result<Vec<Step>, TraverseError>)
        ensures
            final(self)@.layers.len() == old(self)@.layers.len(),
            match result {
                Ok(steps) => built_mesh(old(self)@, node, build) == Ok::<(MeshView, Seq<StepView>), TraverseError>(
                    (final(self)@, step_views(steps@)),
                ),
                Err(error) => built_mesh(old(self)@, node, build) == Err::<(MeshView, Seq<StepView>), TraverseError>(
                    error,
                ),
            },
    {
        let topology = match self.topology() {
            Some(list) => list,
            None => {
                return Err(TraverseError::WidthOverflow);
            },
        };
        let count: usize = self.layers.len();
        let dims = Dims { d0: 1, d1: widest_of(&topology), d2: count as u64, d3: 1 };
        let values = Array { dims, origin: Origin::Values { node, build } };
        self.tensor.insert("_SYSTEM_VALUES", values);
        let mut steps: Vec<Step> = Vec::new();
        let zero = TensorDescriptor::Const(0);
        steps.push(Step::Build { array: values, recipe: Recipe { base: build_array(&zero, dims), blocks: Vec::new() } });
        let ghost first = step_views(steps@);
        let ghost widths = topology@;
        assert(first =~= seq![StepView::Build { array: values, recipe: values_recipe(widths) }]);
        let mut i: usize = 0;
        while i < count
            invariant
                i <= count,
                count == self.layers@.len(),
                count == old(self)@.layers.len(),
                widths == topology@,
                widths.len() == count,
                widths_fit(old(self)@.layers),
                widths == topology_of(old(self)@.layers),
                values == values_array(widths, node, build),
                first == seq![StepView::Build { array: values, recipe: values_recipe(widths) }],
                self.edges@ == old(self)@.edges,
                self.tensor@ == old(self)@.tensor.insert(values_name(), values),
                forall|j: int| i <= j < count ==> (#[trigger] self.layers@[j])@ == old(self)@.layers[j],
                built_layers(old(self)@.layers, widths, node, build, i as nat) is Ok,
                built_layers(old(self)@.layers, widths, node, build, i as nat)->Ok_0.0 == layer_views(self.layers@),
                step_views(steps@) == first + built_layers(old(self)@.layers, widths, node, build, i as nat)->Ok_0.1,
            decreases count - i,
        {
            let ghost before_layers = layer_views(self.layers@);
            let mut more = match self.layers[i].build(i, topology.as_slice(), node, build) {
                Ok(more) => more,
                Err(error) => {
                    proof {
                        lemma_build_failure(old(self)@.layers, widths, node, build, i as nat + 1, count as nat);
                    }
                    return Err(error);
                },
            };
            let ghost before = step_views(steps@);
            let ghost added = step_views(more@);
            steps.append(&mut more);
            proof {
                assert(step_views(steps@) =~= before + added);
                assert(first + (built_layers(old(self)@.layers, widths, node, build, i as nat)->Ok_0.1 + added) =~= before
                    + added);
                assert(layer_views(self.layers@) =~= before_layers.update(i as int, self.layers@[i as int]@));
            }
            i += 1;
        }
        Ok(steps)
    }
}

} // verus!
