use vstd::prelude::*;
use crate::attribute::Attribute;
use crate::attribute::AttributeView;
use crate::attribute::TensorDescriptor;
use crate::domain::Domain;
use crate::domain::DomainView;
use crate::domain::unbuilt;
use crate::domain::window;
use crate::names::biases_name;
use crate::names::weights_name;
use crate::plan::Step;
use crate::plan::StepView;
use crate::plan::TraverseError;
use crate::plan::step_views;
use crate::tensor::Array;
use crate::tensor::Origin;
use crate::tensor::Tensor;
use crate::tensor::TypeTensor;
use crate::utils::new_array;
use crate::utils::recipe_of;

verus! {

/// One layer of a node: its arrays, its configuration, and its window.
pub struct Layer {
    pub tensor: Tensor,
    pub attribute: Attribute,
    pub domain: Domain,
}

/// A layer as plain values.
pub struct LayerView {
    pub tensor: Map<Seq<char>, Array>,
    pub attribute: AttributeView,
    pub domain: DomainView,
}

impl View for Layer {
    type V = LayerView;

    open spec fn view(&self) -> LayerView {
        LayerView { tensor: self.tensor@, attribute: self.attribute@, domain: self.domain@ }
    }
}

/// The window of a layer with this configuration at `index` among layers
/// that are `widths` wide.
pub open spec fn layer_window(attribute: AttributeView, index: nat, widths: Seq<u64>) -> DomainView {
    window(attribute.scope.lower(), attribute.scope.upper(), index, widths.len())
}

/// The widths of the layers inside a window.
pub open spec fn neighbourhood(domain: DomainView, widths: Seq<u64>) -> Seq<u64> {
    widths.subrange(domain.start as int, domain.end as int + 1)
}

/// The parameter array that a recipe makes for layer `layer` of node `node`.
pub open spec fn parameter(kind: TypeTensor, widths: Seq<u64>, own: int, node: u128, layer: nat, build: u64) -> Array {
    Array {
        dims: recipe_of(kind, widths, own, TensorDescriptor::Const(0), TensorDescriptor::Const(0)).base.dims,
        origin: Origin::Parameter { node, layer: layer as usize, kind, build },
    }
}

/// What building a layer comes to.
///
/// The layer gets its window. If the window holds more than the layer
/// itself, the layer also gets a weights and a biases array, each over a base
/// of zeros, seeded as the two descriptors of the layer's configuration say,
/// and the two steps that make them; if one of the descriptors is missing, the
/// build fails. A layer alone in its window gets no parameters.
pub open spec fn built_layer(layer: LayerView, index: nat, widths: Seq<u64>, node: u128, build: u64) -> Result<
    (LayerView, Seq<StepView>),
    TraverseError,
> {
    let domain = layer_window(layer.attribute, index, widths);
    let around = neighbourhood(domain, widths);
    let own = index - domain.start;
    let table = layer.attribute.descriptor;
    if around.len() <= 1 {
        Ok((LayerView { domain, ..layer }, Seq::empty()))
    } else if !table.contains_key(weights_name()) || !table.contains_key(biases_name()) {
        Err(TraverseError::MissingDescriptor)
    } else {
        let weights = parameter(TypeTensor::Weight, around, own, node, index, build);
        let biases = parameter(TypeTensor::Bias, around, own, node, index, build);
        Ok(
            (
                LayerView {
                    tensor: layer.tensor.insert(weights_name(), weights).insert(biases_name(), biases),
                    domain,
                    ..layer
                },
                seq![
                    StepView::Build {
                        array: weights,
                        recipe: recipe_of(TypeTensor::Weight, around, own, TensorDescriptor::Const(0), table[weights_name()]),
                    },
                    StepView::Build {
                        array: biases,
                        recipe: recipe_of(TypeTensor::Bias, around, own, TensorDescriptor::Const(0), table[biases_name()]),
                    },
                ],
            ),
        )
    }
}

impl Layer {
    /// A layer that has not been built: it holds `tensor` and has no window yet.
    pub fn new(attribute: Attribute, tensor: Tensor) -> (layer: Self)
        ensures
            layer@ == (LayerView { tensor: tensor@, attribute: attribute@, domain: unbuilt() }),
    {
        Layer { tensor, attribute, domain: Domain::default() }
    }

    /// Builds the layer at `index` of a node whose layers are `slice` wide:
    /// computes its window and, if it has neighbours, its parameter arrays.
    ///
    /// `node` and `build` name the node and its current build; they go into
    /// the origin of the arrays made. The steps returned make the arrays'
    /// content.
    pub fn build(&mut self, index: usize, slice: &[u64], node: u128, build: u64) -> (result: Result<
        Vec<Step>,
        TraverseError,
    >)
        requires
            index < slice@.len(),
        ensures
            match result {
                Ok(steps) => built_layer(old(self)@, index as nat, slice@, node, build) == Ok::<
                    (LayerView, Seq<StepView>),
                    TraverseError,
                >((final(self)@, step_views(steps@))),
                Err(error) => built_layer(old(self)@, index as nat, slice@, node, build) == Err::<
                    (LayerView, Seq<StepView>),
                    TraverseError,
                >(error),
            },
    {
        self.domain = Domain::new(self.attribute.scope(), index, slice.len());
        let data = self.domain.domain_data();
        let start: usize = data.1;
        let end: usize = data.3;
        let mut around: Vec<u64> = Vec::new();
        let mut i: usize = start;
        while i <= end
            invariant
                start <= i <= end + 1,
                end < slice@.len(),
                around@ == slice@.subrange(start as int, i as int),
            decreases end + 1 - i,
        {
            around.push(slice[i]);
            assert(slice@.subrange(start as int, i as int).push(slice@[i as int]) =~= slice@.subrange(
                start as int,
                i as int + 1,
            ));
            i += 1;
        }
        let ghost window_widths = around@;
        let mut steps: Vec<Step> = Vec::new();
        if around.len() > 1 {
            let zero = TensorDescriptor::Const(0);
            let weights_op = match self.attribute.find("_SYSTEM_WEIGHTS") {
                Some(op) => op,
                None => {
                    return Err(TraverseError::MissingDescriptor);
                },
            };
            let recipe = new_array(TypeTensor::Weight, &mut around, &zero, &weights_op, start, index);
            let weights = Array {
                dims: recipe.base.dims,
                origin: Origin::Parameter { node, layer: index, kind: TypeTensor::Weight, build },
            };
            self.tensor.insert("_SYSTEM_WEIGHTS", weights);
            steps.push(Step::Build { array: weights, recipe });
            let biases_op = match self.attribute.find("_SYSTEM_BIASES") {
                Some(op) => op,
                None => {
                    return Err(TraverseError::MissingDescriptor);
                },
            };
            let recipe = new_array(TypeTensor::Bias, &mut around, &zero, &biases_op, start, index);
            let biases = Array {
                dims: recipe.base.dims,
                origin: Origin::Parameter { node, layer: index, kind: TypeTensor::Bias, build },
            };
            self.tensor.insert("_SYSTEM_BIASES", biases);
            steps.push(Step::Build { array: biases, recipe });
            proof {
                let own = index - start;
                assert(window_widths.update(own, 0).update(own, 0) =~= window_widths.update(own, 0));
                assert(step_views(steps@) =~= built_layer(old(self)@, index as nat, slice@, node, build)->Ok_0.1);
            }
        } else {
            assert(step_views(steps@) =~= Seq::<StepView>::empty());
        }
        Ok(steps)
    }
}

} // verus!
