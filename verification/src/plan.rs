use vstd::prelude::*;
use crate::attribute::Activation;
use crate::attribute::CellType;
use crate::tensor::Array;
use crate::tensor::Dims;
use crate::tensor::Origin;
use crate::tensor::Tensor;

verus! {

/// A run of `count` consecutive indices along one axis, beginning at `start`.
#[derive(Clone, Copy, Debug, PartialEq, Eq, Structural)]
pub struct Span {
    pub start: u64,
    pub count: u64,
}

/// A box inside an array: one span on each of the first three axes.
#[derive(Clone, Copy, Debug, PartialEq, Eq, Structural)]
pub struct Region {
    pub rows: Span,
    pub columns: Span,
    pub depth: Span,
}

/// Whether a span lies inside an axis that is `extent` long.
pub open spec fn span_within(span: Span, extent: u64) -> bool {
    span.start + span.count <= extent
}

/// Whether a region lies inside an array of the shape `dims`.
pub open spec fn region_within(region: Region, dims: Dims) -> bool {
    &&& span_within(region.rows, dims.d0)
    &&& span_within(region.columns, dims.d1)
    &&& span_within(region.depth, dims.d2)
}

/// The shape of a region.
pub open spec fn region_dims(region: Region) -> Dims {
    Dims { d0: region.rows.count, d1: region.columns.count, d2: region.depth.count, d3: 1 }
}

/// The primitive of the numeric backend that produces the content of a new
/// array. A number is carried as the bit pattern of a 64-bit IEEE 754 value.
#[derive(Clone, Copy, Debug, PartialEq, Eq, Structural)]
pub enum Fill {
    Normal,
    Uniform,
    /// Normal, each number multiplied by the factor.
    ScaledNormal(u64),
    /// Uniform, each number multiplied by the factor.
    ScaledUniform(u64),
    Constant(u64),
}

/// An array to be made: its shape and what fills it.
#[derive(Clone, Copy, Debug, PartialEq, Eq, Structural)]
pub struct Seed {
    pub dims: Dims,
    pub fill: Fill,
}

/// A freshly made array and the region of a larger array that it overwrites.
#[derive(Clone, Copy, Debug, PartialEq, Eq, Structural)]
pub struct Block {
    pub region: Region,
    pub seed: Seed,
}

/// How a parameter array is put together: a base array, then blocks
/// written into it one after the other.
#[derive(Debug)]
pub struct Recipe {
    pub base: Seed,
    pub blocks: Vec<Block>,
}

/// A recipe as plain values.
pub struct RecipeView {
    pub base: Seed,
    pub blocks: Seq<Block>,
}

impl View for Recipe {
    type V = RecipeView;

    open spec fn view(&self) -> RecipeView {
        RecipeView { base: self.base, blocks: self.blocks@ }
    }
}

/// One piece of numeric work, for the backend to carry out.
///
/// The library decides what is computed on which arrays and regions and in
/// which order; the arithmetic itself is the backend's. A traversal returns
/// its steps in the order in which they are to be performed.
pub enum Step {
    /// Make the content of `array` after `recipe`.
    Build { array: Array, recipe: Recipe },
    /// Join the arrays of `inputs` along the second axis and write the
    /// result over `region` of the value buffer `values`.
    Load { values: Array, region: Region, inputs: Tensor },
    /// Read `region` of `values`, apply the cell transform and then the
    /// activation to each number, and write the result back in place.
    Activate { values: Array, region: Region, cell_type: CellType, activation: Activation },
    /// Multiply `weights` by the values in `source` (broadcast over the
    /// window), sum along the second axis, add `biases`, transpose, and add
    /// the result onto `target` of `values`.
    Propagate { values: Array, weights: Array, biases: Array, source: Region, target: Region },
}

/// A step as plain values.
pub enum StepView {
    Build { array: Array, recipe: RecipeView },
    Load { values: Array, region: Region, inputs: Map<Seq<char>, Array> },
    Activate { values: Array, region: Region, cell_type: CellType, activation: Activation },
    Propagate { values: Array, weights: Array, biases: Array, source: Region, target: Region },
}

impl View for Step {
    type V = StepView;

    open spec fn view(&self) -> StepView {
        match self {
            Step::Build { array, recipe } => StepView::Build { array: *array, recipe: recipe@ },
            Step::Load { values, region, inputs } => StepView::Load {
                values: *values,
                region: *region,
                inputs: inputs@,
            },
            Step::Activate { values, region, cell_type, activation } => StepView::Activate {
                values: *values,
                region: *region,
                cell_type: *cell_type,
                activation: *activation,
            },
            Step::Propagate { values, weights, biases, source, target } => StepView::Propagate {
                values: *values,
                weights: *weights,
                biases: *biases,
                source: *source,
                target: *target,
            },
        }
    }
}

/// The steps of a plan as plain values, in order.
pub open spec fn step_views(steps: Seq<Step>) -> Seq<StepView> {
    Seq::new(steps.len(), |i: int| steps[i]@)
}

/// What stops a traversal.
#[derive(Clone, Copy, Debug, PartialEq, Eq, Structural)]
pub enum TraverseError {
    /// A layer with neighbours in its window has no descriptor registered
    /// for its weights or for its biases.
    MissingDescriptor,
    /// The widths of the arrays of one store add up to more than 64 bits hold.
    WidthOverflow,
    /// The node was asked to run without ever having been built: it has no
    /// value buffer.
    MissingValues,
    /// A layer that feeds other layers holds no weights or no biases.
    MissingParameters,
    /// A peer link points outside the grid of children, or at the child
    /// that declared it.
    BrokenLink,
}

} // verus!
