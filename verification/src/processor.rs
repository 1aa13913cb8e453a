use vstd::prelude::*;
use crate::edges::NodeRange;
use crate::edges::RangeView;
use crate::layer::Layer;
use crate::layer::LayerView;
use crate::mesh::Mesh;
use crate::mesh::MeshView;
use crate::mesh::topology_of;
use crate::mesh::widths_fit;
use crate::names::biases_name;
use crate::names::is_reserved;
use crate::names::reserved;
use crate::names::values_name;
use crate::names::weights_name;
use crate::plan::Region;
use crate::plan::Span;
use crate::plan::Step;
use crate::plan::StepView;
use crate::plan::TraverseError;
use crate::plan::step_views;
use crate::tensor::Array;
use crate::tensor::Tensor;
use crate::width::logical_width;

verus! {

/// The arrays of `input` that enter a node: those that the filter admits and
/// whose name is not reserved.
pub open spec fn routed(input: Map<Seq<char>, Array>, range: RangeView) -> Map<Seq<char>, Array> {
    Map::new(
        |name: Seq<char>| input.contains_key(name) && !reserved(name) && range.admits(name),
        |name: Seq<char>| input[name],
    )
}

/// The slice of the packed value buffer that holds layer `index`: row zero,
/// the layer's `width` columns, the layer's own depth.
pub open spec fn layer_region(width: u64, index: nat) -> Region {
    Region {
        rows: Span { start: 0, count: 1 },
        columns: Span { start: 0, count: width },
        depth: Span { start: index as u64, count: 1 },
    }
}

/// Whether layer `index` of `count` layers still has layers to feed: every
/// layer but the last, and the last one too if its window ran off the low end.
pub open spec fn feeds_forward(index: nat, count: nat, layer: LayerView) -> bool {
    index < count - 1 + layer.domain.underflow
}

/// The slice of the packed value buffer that a layer's contribution is
/// added onto: as many columns as its biases have rows, over the depths of
/// its window.
pub open spec fn window_region(layer: LayerView) -> Region {
    Region {
        rows: Span { start: 0, count: 1 },
        columns: Span { start: 0, count: layer.tensor[biases_name()].dims.d0 },
        depth: Span {
            start: layer.domain.start as u64,
            count: (layer.domain.end - layer.domain.start + 1) as u64,
        },
    }
}

/// The steps of one layer: activate its slice in place, then, if it feeds
/// forward, add its weighted contribution onto its window. A layer that
/// feeds forward without holding both parameter arrays stops the pass.
pub open spec fn layer_steps(layer: LayerView, index: nat, count: nat, width: u64, values: Array) -> Result<
    Seq<StepView>,
    TraverseError,
> {
    let activate = StepView::Activate {
        values,
        region: layer_region(width, index),
        cell_type: layer.attribute.cell_type,
        activation: layer.attribute.activation,
    };
    if !feeds_forward(index, count, layer) {
        Ok(seq![activate])
    } else if !layer.tensor.contains_key(biases_name()) || !layer.tensor.contains_key(weights_name()) {
        Err(TraverseError::MissingParameters)
    } else {
        Ok(
            seq![
                activate,
                StepView::Propagate {
                    values,
                    weights: layer.tensor[weights_name()],
                    biases: layer.tensor[biases_name()],
                    source: layer_region(width, index),
                    target: window_region(layer),
                },
            ],
        )
    }
}

/// The steps of the first `upto` layers, layer by layer in order; the first
/// layer that cannot be done stops the pass.
pub open spec fn forward_steps(layers: Seq<LayerView>, values: Array, upto: nat) -> Result<
    Seq<StepView>,
    TraverseError,
>
    decreases upto,
{
    if upto == 0 {
        Ok(Seq::empty())
    } else {
        let index = (upto - 1) as nat;
        match forward_steps(layers, values, index) {
            Err(error) => Err(error),
            Ok(before) => match layer_steps(
                layers[index as int],
                index,
                layers.len(),
                topology_of(layers)[index as int],
                values,
            ) {
                Err(error) => Err(error),
                Ok(steps) => Ok(before + steps),
            },
        }
    }
}

/// The forward pass of a mesh on the input store `input`, as steps.
///
/// First the routed inputs are loaded into the first layer's slice of the
/// value buffer; then every layer is taken in order. The pass cannot be
/// planned if the routed inputs or a layer are too wide to measure, if the
/// mesh has no value buffer, or if a layer that feeds forward lacks its
/// parameters.
pub open spec fn processed(mesh: MeshView, input: Map<Seq<char>, Array>) -> Result<Seq<StepView>, TraverseError> {
    let inputs = routed(input, mesh.edges.input_from_parent);
    if logical_width(inputs) > u64::MAX {
        Err(TraverseError::WidthOverflow)
    } else if !mesh.tensor.contains_key(values_name()) {
        Err(TraverseError::MissingValues)
    } else if !widths_fit(mesh.layers) {
        Err(TraverseError::WidthOverflow)
    } else {
        let values = mesh.tensor[values_name()];
        match forward_steps(mesh.layers, values, mesh.layers.len()) {
            Err(error) => Err(error),
            Ok(steps) => Ok(
                seq![
                    StepView::Load { values, region: layer_region(logical_width(inputs) as u64, 0), inputs },
                ] + steps,
            ),
        }
    }
}

/// Picks from `tensor` the arrays that enter a node through `range`.
pub fn route(tensor: &Tensor, range: &NodeRange) -> (inputs: Tensor)
    ensures
        inputs@ == routed(tensor@, range@),
{
    let names = tensor.names();
    let mut inputs = Tensor::empty();
    let mut i: usize = 0;
    while i < names.len()
        invariant
            i <= names.len(),
            forall|j: int| 0 <= j < names@.len() ==> tensor@.contains_key(#[trigger] names@[j]@),
            forall|name: Seq<char>| tensor@.contains_key(name)
                ==> exists|j: int| 0 <= j < names@.len() && #[trigger] names@[j]@ == name,
            forall|name: Seq<char>| inputs@.contains_key(name) <==> (routed(tensor@, range@).contains_key(name)
                && exists|j: int| 0 <= j < i && #[trigger] names@[j]@ == name),
            forall|name: Seq<char>| inputs@.contains_key(name) ==> inputs@[name] == tensor@[name],
        decreases names.len() - i,
    {
        let name = names[i].as_str();
        if !is_reserved(name) && range.admits(name) {
            match tensor.get(name) {
                Some(array) => {
                    inputs.insert(name, array);
                },
                None => {
                    assert(false);
                },
            }
        }
        i += 1;
    }
    assert(inputs@ =~= routed(tensor@, range@));
    inputs
}

/// Plans the steps of one layer of the forward pass.
fn layer_pass(layer: &Layer, index: usize, count: usize, width: u64, values: Array) -> (result: Result<
    Vec<Step>,
    TraverseError,
>)
    requires
        index < count,
    ensures
        match result {
            Ok(steps) => layer_steps(layer@, index as nat, count as nat, width, values) == Ok::<
                Seq<StepView>,
                TraverseError,
            >(step_views(steps@)),
            Err(error) => layer_steps(layer@, index as nat, count as nat, width, values) == Err::<
                Seq<StepView>,
                TraverseError,
            >(error),
        },
{
    let region = Region {
        rows: Span { start: 0, count: 1 },
        columns: Span { start: 0, count: width },
        depth: Span { start: index as u64, count: 1 },
    };
    let mut steps: Vec<Step> = Vec::new();
    steps.push(
        Step::Activate {
            values,
            region,
            cell_type: *layer.attribute.cell_type(),
            activation: *layer.attribute.activation(),
        },
    );
    let data = layer.domain.domain_data();
    if index < count - 1 || data.0 > 0 {
        let biases = match layer.tensor.get("_SYSTEM_BIASES") {
            Some(array) => array,
            None => {
                return Err(TraverseError::MissingParameters);
            },
        };
        let weights = match layer.tensor.get("_SYSTEM_WEIGHTS") {
            Some(array) => array,
            None => {
                return Err(TraverseError::MissingParameters);
            },
        };
        let target = Region {
            rows: Span { start: 0, count: 1 },
            columns: Span { start: 0, count: biases.dims.d0 },
            depth: Span { start: data.1 as u64, count: (data.3 - data.1 + 1) as u64 },
        };
        steps.push(Step::Propagate { values, weights, biases, source: region, target });
        assert(step_views(steps@) =~= layer_steps(layer@, index as nat, count as nat, width, values)->Ok_0);
    } else {
        assert(step_views(steps@) =~= layer_steps(layer@, index as nat, count as nat, width, values)->Ok_0);
    }
    Ok(steps)
}

/// Plans the forward pass of `mesh` on the input store `tensor`.
pub fn process(mesh: &Mesh, tensor: &Tensor) -> (result: Result<Vec<Step>, TraverseError>)
    ensures
        match result {
            Ok(steps) => processed(mesh@, tensor@) == Ok::<Seq<StepView>, TraverseError>(step_views(steps@)),
            Err(error) => processed(mesh@, tensor@) == Err::<Seq<StepView>, TraverseError>(error),
        },
{
    let inputs = route(tensor, &mesh.edges.input_from_parent);
    let width = match inputs.width() {
        Some(width) => width,
        None => {
            return Err(TraverseError::WidthOverflow);
        },
    };
    let values = match mesh.tensor.get("_SYSTEM_VALUES") {
        Some(array) => array,
        None => {
            return Err(TraverseError::MissingValues);
        },
    };
    let topology = match mesh.topology() {
        Some(list) => list,
        None => {
            return Err(TraverseError::WidthOverflow);
        },
    };
    let mut steps: Vec<Step> = Vec::new();
    steps.push(
        Step::Load {
            values,
            region: Region {
                rows: Span { start: 0, count: 1 },
                columns: Span { start: 0, count: width },
                depth: Span { start: 0, count: 1 },
            },
            inputs,
        },
    );
    let ghost first = step_views(steps@);
    assert(first =~= seq![
        StepView::Load {
            values,
            region: layer_region(width, 0),
            inputs: routed(tensor@, mesh@.edges.input_from_parent),
        },
    ]);
    let count: usize = mesh.layers.len();
    let mut i: usize = 0;
    while i < count
        invariant
            i <= count,
            count == mesh.layers@.len(),
            topology@ == topology_of(mesh@.layers),
            logical_width(routed(tensor@, mesh@.edges.input_from_parent)) == width,
            mesh@.tensor.contains_key(values_name()),
            mesh@.tensor[values_name()] == values,
            widths_fit(mesh@.layers),
            first == seq![
                StepView::Load {
                    values,
                    region: layer_region(width, 0),
                    inputs: routed(tensor@, mesh@.edges.input_from_parent),
                },
            ],
            forward_steps(mesh@.layers, values, i as nat) is Ok,
            step_views(steps@) == first + forward_steps(mesh@.layers, values, i as nat)->Ok_0,
        decreases count - i,
    {
        let mut more = match layer_pass(&mesh.layers[i], i, count, topology[i], values) {
            Ok(more) => more,
            Err(error) => {
                proof {
                    lemma_forward_failure(mesh@.layers, values, i as nat + 1, count as nat);
                }
                return Err(error);
            },
        };
        let ghost before = step_views(steps@);
        let ghost added = step_views(more@);
        steps.append(&mut more);
        assert(step_views(steps@) =~= before + added);
        assert(first + (forward_steps(mesh@.layers, values, i as nat)->Ok_0 + added) =~= before + added);
        i += 1;
    }
    assert(step_views(steps@) =~= processed(mesh@, tensor@)->Ok_0);
    Ok(steps)
}

/// Once the pass has stopped at a layer, taking more layers changes nothing.
pub proof fn lemma_forward_failure(layers: Seq<LayerView>, values: Array, stopped: nat, upto: nat)
    requires
        forward_steps(layers, values, stopped) is Err,
        stopped <= upto,
    ensures
        forward_steps(layers, values, upto) == forward_steps(layers, values, stopped),
    decreases upto,
{
    if stopped < upto {
        lemma_forward_failure(layers, values, stopped, (upto - 1) as nat);
    }
}

} // verus!
