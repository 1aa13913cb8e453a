use vstd::prelude::*;
use crate::attribute::TensorDescriptor;
use crate::plan::Block;
use crate::plan::Fill;
use crate::plan::Recipe;
use crate::plan::RecipeView;
use crate::plan::Region;
use crate::plan::Seed;
use crate::plan::Span;
use crate::plan::region_dims;
use crate::plan::region_within;
use crate::tensor::Dims;
use crate::tensor::TypeTensor;

verus! {

/// The backend primitive that a descriptor asks for.
pub open spec fn fill_of(op: TensorDescriptor) -> Fill {
    match op {
        TensorDescriptor::RandN => Fill::Normal,
        TensorDescriptor::RandU => Fill::Uniform,
        TensorDescriptor::RangeN(factor) => Fill::ScaledNormal(factor),
        TensorDescriptor::RangeU(factor) => Fill::ScaledUniform(factor),
        TensorDescriptor::Const(number) => Fill::Constant(number),
        TensorDescriptor::Range(_) => Fill::Constant(0),
    }
}

/// Describes the array of shape `dims` that the descriptor `op` seeds.
pub fn build_array(op: &TensorDescriptor, dims: Dims) -> (seed: Seed)
    ensures
        seed == (Seed { dims, fill: fill_of(*op) }),
{
    let fill = match op {
        TensorDescriptor::RandN => Fill::Normal,
        TensorDescriptor::RandU => Fill::Uniform,
        TensorDescriptor::RangeN(factor) => Fill::ScaledNormal(*factor),
        TensorDescriptor::RangeU(factor) => Fill::ScaledUniform(*factor),
        TensorDescriptor::Const(number) => Fill::Constant(*number),
        TensorDescriptor::Range(_) => Fill::Constant(0),
    };
    Seed { dims, fill }
}

/// The largest of `widths`, or zero if there is none.
pub open spec fn widest(widths: Seq<u64>) -> u64
    decreases widths.len(),
{
    if widths.len() == 0 {
        0
    } else {
        let rest = widest(widths.drop_last());
        if widths.last() > rest {
            widths.last()
        } else {
            rest
        }
    }
}

/// The largest of the widths in `list`, or zero if there is none.
pub fn widest_of(list: &Vec<u64>) -> (most: u64)
    ensures
        most == widest(list@),
{
    let count: usize = list.len();
    let mut most: u64 = 0;
    let mut i: usize = 0;
    while i < count
        invariant
            i <= count,
            count == list@.len(),
            most == widest(list@.take(i as int)),
        decreases count - i,
    {
        proof {
            assert(list@.take(i as int + 1).drop_last() =~= list@.take(i as int));
        }
        if list[i] > most {
            most = list[i];
        }
        i += 1;
    }
    assert(list@.take(count as int) =~= list@);
    most
}

/// The extent of a parameter array along its second axis: the layer's own
/// width for weights, one for biases.
pub open spec fn role_extent(kind: TypeTensor, widths: Seq<u64>, own: int) -> u64 {
    match kind {
        TypeTensor::Weight => widths[own],
        TypeTensor::Bias => 1,
    }
}

/// The block of the neighbour at `position` of the window, `width` wide.
pub open spec fn block_at(position: int, width: u64, extent: u64, op: TensorDescriptor) -> Block {
    Block {
        region: Region {
            rows: Span { start: 0, count: width },
            columns: Span { start: 0, count: extent },
            depth: Span { start: position as u64, count: 1 },
        },
        seed: Seed { dims: Dims { d0: width, d1: extent, d2: 1, d3: 1 }, fill: fill_of(op) },
    }
}

/// One block for each neighbour of non-zero width, in window order.
pub open spec fn blocks_of(widths: Seq<u64>, extent: u64, op: TensorDescriptor) -> Seq<Block>
    decreases widths.len(),
{
    if widths.len() == 0 {
        Seq::empty()
    } else {
        let before = blocks_of(widths.drop_last(), extent, op);
        if widths.last() > 0 {
            before.push(block_at(widths.len() - 1, widths.last(), extent, op))
        } else {
            before
        }
    }
}

/// The recipe of a parameter array of the layer at position `own` of a
/// window whose layers are `widths` wide.
///
/// The array is `widest neighbour x role extent x window length`. It starts
/// out as `base` and gets one block per neighbour of non-zero width, at the
/// neighbour's place in the window; the layer itself is no neighbour.
pub open spec fn recipe_of(
    kind: TypeTensor,
    widths: Seq<u64>,
    own: int,
    base: TensorDescriptor,
    op: TensorDescriptor,
) -> RecipeView {
    let neighbours = widths.update(own, 0);
    let extent = role_extent(kind, widths, own);
    RecipeView {
        base: Seed {
            dims: Dims { d0: widest(neighbours), d1: extent, d2: widths.len() as u64, d3: 1 },
            fill: fill_of(base),
        },
        blocks: blocks_of(neighbours, extent, op),
    }
}

/// No width is larger than the widest.
pub proof fn lemma_widest_bounds(widths: Seq<u64>, at: int)
    requires
        0 <= at < widths.len(),
    ensures
        widths[at] <= widest(widths),
    decreases widths.len(),
{
    if at < widths.len() - 1 {
        lemma_widest_bounds(widths.drop_last(), at);
    }
}

/// The blocks of a window are one per position at most, each at a
/// position of the window and as wide as the layer there.
pub proof fn lemma_blocks_of(widths: Seq<u64>, extent: u64, op: TensorDescriptor, index: int)
    requires
        0 <= index < blocks_of(widths, extent, op).len(),
    ensures
        ({
            let block = blocks_of(widths, extent, op)[index];
            exists|position: int|
                0 <= position < widths.len() && widths[position] > 0 && #[trigger] block_at(
                    position,
                    widths[position],
                    extent,
                    op,
                ) == block
        }),
    decreases widths.len(),
{
    if widths.len() > 0 {
        let before = blocks_of(widths.drop_last(), extent, op);
        if index < before.len() {
            lemma_blocks_of(widths.drop_last(), extent, op, index);
            let block = before[index];
            let position = choose|position: int|
                0 <= position < widths.drop_last().len() && widths.drop_last()[position] > 0 && #[trigger] block_at(
                    position,
                    widths.drop_last()[position],
                    extent,
                    op,
                ) == block;
            assert(block_at(position, widths[position], extent, op) == block);
        } else {
            assert(block_at(widths.len() - 1, widths[widths.len() - 1], extent, op) == blocks_of(widths, extent, op)[index]);
        }
    }
}

/// Every block of a recipe lies inside the array that the recipe makes,
/// and is filled by an array of the block's own shape: the backend can
/// write each block where the recipe says.
pub proof fn lemma_recipe_fits(
    kind: TypeTensor,
    widths: Seq<u64>,
    own: int,
    base: TensorDescriptor,
    op: TensorDescriptor,
    index: int,
)
    requires
        0 <= own < widths.len(),
        widths.len() <= u64::MAX,
        0 <= index < recipe_of(kind, widths, own, base, op).blocks.len(),
    ensures
        ({
            let recipe = recipe_of(kind, widths, own, base, op);
            let block = recipe.blocks[index];
            &&& region_within(block.region, recipe.base.dims)
            &&& block.seed.dims == region_dims(block.region)
        }),
{
    let neighbours = widths.update(own, 0);
    let extent = role_extent(kind, widths, own);
    lemma_blocks_of(neighbours, extent, op, index);
    let block = blocks_of(neighbours, extent, op)[index];
    let position = choose|position: int|
        0 <= position < neighbours.len() && neighbours[position] > 0 && #[trigger] block_at(
            position,
            neighbours[position],
            extent,
            op,
        ) == block;
    lemma_widest_bounds(neighbours, position);
}

/// Works out the recipe of a parameter array over the window `vec`, for the
/// layer `index` of a window that begins at layer `start`, and clears the
/// layer's own width in `vec`.
pub fn new_array(
    array_type: TypeTensor,
    vec: &mut Vec<u64>,
    base: &TensorDescriptor,
    op: &TensorDescriptor,
    start: usize,
    index: usize,
) -> (recipe: Recipe)
    requires
        start <= index,
        index - start < old(vec)@.len(),
    ensures
        final(vec)@ == old(vec)@.update(index - start, 0),
        recipe@ == recipe_of(array_type, old(vec)@, index - start, *base, *op),
{
    let own: usize = index - start;
    let extent: u64 = match array_type {
        TypeTensor::Weight => vec[own],
        TypeTensor::Bias => 1,
    };
    vec.set(own, 0);
    let count: usize = vec.len();
    let most: u64 = widest_of(vec);
    let dims = Dims { d0: most, d1: extent, d2: count as u64, d3: 1 };
    let mut blocks: Vec<Block> = Vec::new();
    let mut e: usize = 0;
    while e < count
        invariant
            e <= count,
            count == vec@.len(),
            vec@ == old(vec)@.update(own as int, 0),
            most == widest(vec@),
            blocks@ == blocks_of(vec@.take(e as int), extent, *op),
        decreases count - e,
    {
        proof {
            assert(vec@.take(e as int + 1).drop_last() =~= vec@.take(e as int));
        }
        let width: u64 = vec[e];
        if width > 0 {
            let seed = build_array(op, Dims { d0: width, d1: extent, d2: 1, d3: 1 });
            blocks.push(Block {
                region: Region {
                    rows: Span { start: 0, count: width },
                    columns: Span { start: 0, count: extent },
                    depth: Span { start: e as u64, count: 1 },
                },
                seed,
            });
        }
        e += 1;
    }
    assert(vec@.take(count as int) =~= vec@);
    Recipe { base: build_array(base, dims), blocks }
}

} // verus!
