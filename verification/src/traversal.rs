use vstd::prelude::*;
use crate::edges::PeerLinkView;
use crate::edges::RangeView;
use crate::domain::window;
use crate::leaf::built_mesh;
use crate::leaf::lemma_built_layers;
use crate::mesh::topology_of;
use crate::mesh::MeshView;
use crate::node::NodeView;
use crate::node::last_store;
use crate::node::same_frame;
use crate::node::supplied;
use crate::node::with_child;
use crate::node::with_store;
use crate::plan::Step;
use crate::plan::StepView;
use crate::plan::TraverseError;
use crate::plan::step_views;
use crate::processor::processed;
use crate::processor::routed;
use crate::tensor::Array;
use crate::tensor::merged;
use crate::width::lemma_width_of_disjoint_merge;
use crate::width::logical_width;

verus! {

/// The number of the build after build number `build`; the count starts
/// over after the largest number.
pub open spec fn next_build(build: u64) -> u64 {
    if build == u64::MAX {
        0
    } else {
        (build + 1) as u64
    }
}

/// What building a leaf comes to: its mesh is built under the leaf's
/// current build number, and the number moves on.
pub open spec fn built_leaf(v: NodeView) -> Result<(NodeView, Seq<StepView>), TraverseError> {
    match built_mesh(v.mesh, v.uuid, v.builds) {
        Err(error) => Err(error),
        Ok((mesh, steps)) => Ok((NodeView { mesh, builds: next_build(v.builds), ..v }, steps)),
    }
}

/// What traversing a leaf comes to, once it has taken in its input: the
/// leaf is rebuilt if `build` asks for it, and then its forward pass is
/// planned on the input store.
pub open spec fn leaf_traversed(v: NodeView, input: Map<Seq<char>, Array>, build: bool) -> Result<
    (NodeView, Seq<StepView>),
    TraverseError,
> {
    let prepared = if build {
        built_leaf(v)
    } else {
        Ok((v, Seq::empty()))
    };
    match prepared {
        Err(error) => Err(error),
        Ok((ready, steps)) => match processed(ready.mesh, input) {
            Err(error) => Err(error),
            Ok(more) => Ok((ready, steps + more)),
        },
    }
}

/// A vertex takes in one traversed child: the child takes its place in
/// the grid, what its last layer holds is merged into the vertex's output
/// layer through the child's filter towards the parent, and the child's
/// steps go behind those gathered so far.
pub open spec fn fed_child(
    state: (NodeView, Seq<StepView>),
    row: int,
    column: int,
    outcome: Result<(NodeView, Seq<StepView>), TraverseError>,
) -> Result<(NodeView, Seq<StepView>), TraverseError> {
    match outcome {
        Err(error) => Err(error),
        Ok((child, more)) => Ok(
            (
                with_child(
                    with_store(
                        state.0,
                        1,
                        merged(state.0.mesh.layers[1].tensor, last_store(child), child.mesh.edges.output_to_parent),
                    ),
                    row,
                    column,
                    child,
                ),
                state.1 + more,
            ),
        ),
    }
}

/// The vertex after it took in the first `upto` children of one row,
/// which before the traversal were `kids`.
///
/// Each child is traversed on what the vertex's output layer holds when the
/// child's turn comes: what the children before it have sent up is already
/// there. Until its turn comes a child is as it was (`lemma_fed_row_frame`).
pub open spec fn fed_row(
    start: Result<(NodeView, Seq<StepView>), TraverseError>,
    row: int,
    kids: Seq<NodeView>,
    build: bool,
    upto: nat,
) -> Result<(NodeView, Seq<StepView>), TraverseError>
    decreases kids, 1int, upto,
{
    if upto == 0 {
        start
    } else {
        match fed_row(start, row, kids, build, (upto - 1) as nat) {
            Err(error) => Err(error),
            Ok(state) => if upto - 1 < kids.len() {
                fed_child(
                    state,
                    row,
                    upto - 1,
                    traversed(kids[upto - 1], state.0.mesh.layers[1].tensor, build),
                )
            } else {
                Ok(state)
            },
        }
    }
}

/// The vertex after it took in the children of the first `upto` rows,
/// which before the traversal were `grid`: row by row, and each row from
/// its first child on. The first child whose traversal failed stops
/// everything.
pub open spec fn fed_grid(
    start: Result<(NodeView, Seq<StepView>), TraverseError>,
    grid: Seq<Seq<NodeView>>,
    build: bool,
    upto: nat,
) -> Result<(NodeView, Seq<StepView>), TraverseError>
    decreases grid, 2int, upto,
{
    if upto == 0 {
        start
    } else if upto - 1 < grid.len() {
        fed_row(fed_grid(start, grid, build, (upto - 1) as nat), upto - 1, grid[upto - 1], build, grid[upto - 1].len())
    } else {
        fed_grid(start, grid, build, (upto - 1) as nat)
    }
}

/// Whether a peer link of the child at `(row, column)` can be followed: it
/// points at a place of the grid, and not at the child itself.
pub open spec fn link_sound(state: NodeView, row: int, column: int, link: PeerLinkView) -> bool {
    &&& link.row < state.children.len()
    &&& link.column < state.children[link.row as int].len()
    &&& !(link.row == row && link.column == column)
}

/// The child at `(row, column)` follows its peer link number `index`: what
/// the last layer of the sibling holds at that moment is merged into the
/// child's input layer through the link's filter.
pub open spec fn pull(state: NodeView, row: int, column: int, index: int) -> Result<NodeView, TraverseError> {
    let child = state.children[row][column];
    let link = child.mesh.edges.peers[index];
    if !link_sound(state, row, column, link) {
        Err(TraverseError::BrokenLink)
    } else {
        Ok(
            with_child(
                state,
                row,
                column,
                supplied(child, last_store(state.children[link.row as int][link.column as int]), link.range),
            ),
        )
    }
}

/// The vertex after the child at `(row, column)` followed its first `upto`
/// peer links, in the order in which they were declared.
pub open spec fn pulled(start: Result<NodeView, TraverseError>, row: int, column: int, upto: nat) -> Result<
    NodeView,
    TraverseError,
>
    decreases upto,
{
    if upto == 0 {
        start
    } else {
        match pulled(start, row, column, (upto - 1) as nat) {
            Err(error) => Err(error),
            Ok(state) => pull(state, row, column, upto - 1),
        }
    }
}

/// The vertex after the first `upto` children of one row followed all
/// their peer links.
pub open spec fn wired_row(start: Result<NodeView, TraverseError>, row: int, upto: nat) -> Result<
    NodeView,
    TraverseError,
>
    decreases upto,
{
    if upto == 0 {
        start
    } else {
        match wired_row(start, row, (upto - 1) as nat) {
            Err(error) => Err(error),
            Ok(state) => pulled(
                Ok(state),
                row,
                upto - 1,
                state.children[row][upto - 1].mesh.edges.peers.len(),
            ),
        }
    }
}

/// The vertex after the children of the first `upto` rows followed all
/// their peer links, row by row and each row from its first child on. The
/// first link that cannot be followed stops everything.
pub open spec fn wired(start: Result<NodeView, TraverseError>, upto: nat) -> Result<NodeView, TraverseError>
    decreases upto,
{
    if upto == 0 {
        start
    } else {
        match wired(start, (upto - 1) as nat) {
            Err(error) => Err(error),
            Ok(state) => wired_row(Ok(state), upto - 1, state.children[upto - 1].len()),
        }
    }
}

/// A store after the outputs of one child were copied into it: whatever
/// the child's value store holds under a name that is not reserved and
/// that the child's filter towards the parent admits.
pub open spec fn harvest(store: Map<Seq<char>, Array>, child: NodeView) -> Map<Seq<char>, Array> {
    merged(store, routed(child.mesh.tensor, child.mesh.edges.output_to_parent), RangeView::All)
}

/// A store after the outputs of the first `upto` children of a row were
/// copied into it.
pub open spec fn harvested_row(store: Map<Seq<char>, Array>, row: Seq<NodeView>, upto: nat) -> Map<Seq<char>, Array>
    decreases upto,
{
    if upto == 0 {
        store
    } else {
        harvest(harvested_row(store, row, (upto - 1) as nat), row[upto - 1])
    }
}

/// A store after the outputs of the children of the first `upto` rows were
/// copied into it, row by row.
pub open spec fn harvested(store: Map<Seq<char>, Array>, grid: Seq<Seq<NodeView>>, upto: nat) -> Map<
    Seq<char>,
    Array,
>
    decreases upto,
{
    if upto == 0 {
        store
    } else {
        harvested_row(harvested(store, grid, (upto - 1) as nat), grid[upto - 1], grid[upto - 1].len())
    }
}

/// The vertex with the outputs of all its children copied into its value store.
pub open spec fn gathered(v: NodeView) -> NodeView {
    NodeView {
        mesh: MeshView { tensor: harvested(v.mesh.tensor, v.children, v.children.len()), ..v.mesh },
        ..v
    }
}

/// What traversing a vertex comes to, once it has taken in its input;
/// `kids` are its children as they were.
///
/// There are three passes over all children, and none begins before the one
/// before it is through: the children are taken in, each traversed on what
/// the vertex's output layer holds by then; then every child follows its
/// peer links, reading what its siblings hold by then; then the children's
/// outputs are copied into the vertex's value store. The steps are those of
/// the children, in row-major order.
pub open spec fn vertex_traversed(v: NodeView, kids: Seq<Seq<NodeView>>, build: bool) -> Result<
    (NodeView, Seq<StepView>),
    TraverseError,
>
    decreases kids, 3int, 0nat,
{
    match fed_grid(Ok((v, Seq::empty())), kids, build, kids.len()) {
        Err(error) => Err(error),
        Ok((fed, steps)) => match wired(Ok(fed), fed.children.len()) {
            Err(error) => Err(error),
            Ok(wired_up) => Ok((gathered(wired_up), steps)),
        },
    }
}

/// What traversing a node on the store `input` comes to: the node
/// afterwards and the numeric steps in the order in which they are to be
/// carried out, or what stopped the traversal.
///
/// The node first merges `input` into its input layer through its filter
/// from the parent. A leaf then rebuilds itself if asked and plans its
/// forward pass on `input`. A vertex traverses its children, each on what
/// the vertex's output layer holds when its turn comes, and routes what
/// they produce.
pub open spec fn traversed(v: NodeView, input: Map<Seq<char>, Array>, build: bool) -> Result<
    (NodeView, Seq<StepView>),
    TraverseError,
>
    decreases v, 0int, 0nat,
{
    let taken = supplied(v, input, v.mesh.edges.input_from_parent);
    if v.children.len() == 0 {
        leaf_traversed(taken, input, build)
    } else {
        vertex_traversed(taken, v.children, build)
    }
}

/// What a call that returned `result` and left the node as `node` claims
/// to be the outcome.
pub open spec fn outcome_of(result: Result<Vec<Step>, TraverseError>, node: NodeView) -> Result<
    (NodeView, Seq<StepView>),
    TraverseError,
> {
    match result {
        Ok(steps) => Ok((node, step_views(steps@))),
        Err(error) => Err(error),
    }
}

/// What a traversal with a build leaves of a leaf: the layers it had, each
/// with the configuration it had and with the window of its place among
/// them.
pub proof fn lemma_leaf_rebuilt(v: NodeView, input: Map<Seq<char>, Array>)
    requires
        v.children.len() == 0,
        v.mesh.layers.len() >= 1,
        traversed(v, input, true) is Ok,
    ensures
        ({
            let after = traversed(v, input, true)->Ok_0.0;
            &&& after.children.len() == 0
            &&& after.uuid == v.uuid
            &&& after.mesh.layers.len() == v.mesh.layers.len()
            &&& forall|i: int|
                0 <= i < v.mesh.layers.len() ==> (#[trigger] after.mesh.layers[i]).attribute
                    == v.mesh.layers[i].attribute
            &&& forall|i: int|
                0 <= i < v.mesh.layers.len() ==> (#[trigger] after.mesh.layers[i]).domain == window(
                    v.mesh.layers[i].attribute.scope.lower(),
                    v.mesh.layers[i].attribute.scope.upper(),
                    i as nat,
                    v.mesh.layers.len(),
                )
        }),
{
    let taken = supplied(v, input, v.mesh.edges.input_from_parent);
    let widths = topology_of(taken.mesh.layers);
    lemma_built_layers(taken.mesh.layers, widths, taken.uuid, taken.builds, taken.mesh.layers.len());
}

/// Rebuilding a leaf twice in a row gives every layer the same window both
/// times, whatever the two inputs are: a window depends on the layer's
/// reach, its place and the number of layers, and a traversal changes none
/// of them.
pub proof fn lemma_rebuild_is_idempotent(v: NodeView, first: Map<Seq<char>, Array>, second: Map<Seq<char>, Array>)
    requires
        v.children.len() == 0,
        v.mesh.layers.len() >= 1,
        traversed(v, first, true) is Ok,
        traversed(traversed(v, first, true)->Ok_0.0, second, true) is Ok,
    ensures
        ({
            let once = traversed(v, first, true)->Ok_0.0;
            let twice = traversed(once, second, true)->Ok_0.0;
            &&& twice.mesh.layers.len() == once.mesh.layers.len()
            &&& forall|i: int|
                0 <= i < once.mesh.layers.len() ==> (#[trigger] twice.mesh.layers[i]).domain
                    == once.mesh.layers[i].domain
        }),
{
    let once = traversed(v, first, true)->Ok_0.0;
    lemma_leaf_rebuilt(v, first);
    lemma_leaf_rebuilt(once, second);
}

/// Once a row has stopped at a child, taking in more children changes nothing.
pub proof fn lemma_fed_row_failure(
    start: Result<(NodeView, Seq<StepView>), TraverseError>,
    row: int,
    kids: Seq<NodeView>,
    build: bool,
    stopped: nat,
    upto: nat,
)
    requires
        fed_row(start, row, kids, build, stopped) is Err,
        stopped <= upto,
    ensures
        fed_row(start, row, kids, build, upto) == fed_row(start, row, kids, build, stopped),
    decreases upto,
{
    if stopped < upto {
        lemma_fed_row_failure(start, row, kids, build, stopped, (upto - 1) as nat);
    }
}

/// Once the grid has stopped at a child, taking in more rows changes nothing.
pub proof fn lemma_fed_grid_failure(
    start: Result<(NodeView, Seq<StepView>), TraverseError>,
    grid: Seq<Seq<NodeView>>,
    build: bool,
    stopped: nat,
    upto: nat,
)
    requires
        fed_grid(start, grid, build, stopped) is Err,
        stopped <= upto,
    ensures
        fed_grid(start, grid, build, upto) == fed_grid(start, grid, build, stopped),
    decreases upto,
{
    if stopped < upto {
        lemma_fed_grid_failure(start, grid, build, stopped, (upto - 1) as nat);
        if upto - 1 < grid.len() {
            lemma_fed_row_failure(
                fed_grid(start, grid, build, (upto - 1) as nat),
                upto - 1,
                grid[upto - 1],
                build,
                0,
                grid[upto - 1].len(),
            );
        }
    }
}

/// While a row is taken in, the vertex keeps its frame and its input
/// layer, and every child whose turn has not come is as it was: so the
/// child that is traversed at its turn is the child that stands at its place
/// in the vertex then.
pub proof fn lemma_fed_row_frame(start: (NodeView, Seq<StepView>), row: int, kids: Seq<NodeView>, build: bool, upto: nat)
    requires
        start.0.mesh.layers.len() >= 2,
        0 <= row < start.0.children.len(),
        kids.len() <= start.0.children[row].len(),
        fed_row(Ok(start), row, kids, build, upto) is Ok,
    ensures
        ({
            let after = fed_row(Ok(start), row, kids, build, upto)->Ok_0.0;
            &&& same_frame(start.0, after)
            &&& after.mesh.layers[0] == start.0.mesh.layers[0]
            &&& forall|r: int, c: int|
                0 <= r < start.0.children.len() && 0 <= c < start.0.children[r].len() && (r != row || c >= upto)
                    ==> #[trigger] after.children[r][c] == start.0.children[r][c]
        }),
    decreases upto,
{
    if upto > 0 {
        let before = fed_row(Ok(start), row, kids, build, (upto - 1) as nat);
        lemma_fed_row_frame(start, row, kids, build, (upto - 1) as nat);
        let after = fed_row(Ok(start), row, kids, build, upto)->Ok_0.0;
        let state = before->Ok_0.0;
        assert(state.children[row].len() == start.0.children[row].len());
        assert forall|r: int| 0 <= r < start.0.children.len() implies (#[trigger] start.0.children[r]).len()
            == after.children[r].len() by {
            assert(start.0.children[r].len() == state.children[r].len());
        }
        assert forall|r: int, c: int|
            0 <= r < start.0.children.len() && 0 <= c < start.0.children[r].len() && (r != row || c >= upto)
            implies #[trigger] after.children[r][c] == start.0.children[r][c] by {
            assert(start.0.children[r].len() == state.children[r].len());
            assert(state.children[r][c] == start.0.children[r][c]);
        }
    }
}

/// While the grid is taken in, the vertex keeps its frame and its input
/// layer, and the rows whose turn has not come are as they were.
pub proof fn lemma_fed_grid_frame(start: (NodeView, Seq<StepView>), grid: Seq<Seq<NodeView>>, build: bool, upto: nat)
    requires
        start.0.mesh.layers.len() >= 2,
        grid.len() <= start.0.children.len(),
        forall|r: int| 0 <= r < grid.len() ==> (#[trigger] grid[r]).len() <= start.0.children[r].len(),
        fed_grid(Ok(start), grid, build, upto) is Ok,
    ensures
        ({
            let after = fed_grid(Ok(start), grid, build, upto)->Ok_0.0;
            &&& same_frame(start.0, after)
            &&& after.mesh.layers[0] == start.0.mesh.layers[0]
            &&& forall|r: int, c: int|
                upto <= r < start.0.children.len() && 0 <= c < start.0.children[r].len()
                    ==> #[trigger] after.children[r][c] == start.0.children[r][c]
        }),
    decreases upto,
{
    if upto > 0 {
        let before = fed_grid(Ok(start), grid, build, (upto - 1) as nat);
        if before is Err {
            if upto - 1 < grid.len() {
                lemma_fed_row_failure(before, upto - 1, grid[upto - 1], build, 0, grid[upto - 1].len());
            }
        } else {
            lemma_fed_grid_frame(start, grid, build, (upto - 1) as nat);
            let state = before->Ok_0;
            let after = fed_grid(Ok(start), grid, build, upto)->Ok_0.0;
            if upto - 1 < grid.len() {
                assert(grid[upto - 1].len() <= start.0.children[upto - 1].len());
                assert(start.0.children[upto - 1].len() == state.0.children[upto - 1].len());
                lemma_fed_row_frame(state, upto - 1, grid[upto - 1], build, grid[upto - 1].len());
            }
            assert forall|r: int| 0 <= r < start.0.children.len() implies (#[trigger] start.0.children[r]).len()
                == after.children[r].len() by {
                assert(start.0.children[r].len() == state.0.children[r].len());
                assert(state.0.children[r].len() == after.children[r].len());
            }
            assert forall|r: int, c: int|
                upto <= r < start.0.children.len() && 0 <= c < start.0.children[r].len() implies #[trigger] after.children[r][c]
                == start.0.children[r][c] by {
                assert(start.0.children[r].len() == state.0.children[r].len());
                assert(state.0.children[r][c] == start.0.children[r][c]);
                assert(after.children[r][c] == state.0.children[r][c]);
            }
        }
    }
}

/// What following one peer link does, when the link admits everything
/// and the sibling's last layer shares no name with the child's input layer:
/// the child's input layer grows by the full width of the sibling's last
/// layer, and nothing else in the vertex changes: not the vertex's own mesh,
/// and no other child.
pub proof fn lemma_pull_widens(state: NodeView, row: int, column: int, index: int)
    requires
        0 <= row < state.children.len(),
        0 <= column < state.children[row].len(),
        state.children[row][column].mesh.layers.len() >= 1,
        0 <= index < state.children[row][column].mesh.edges.peers.len(),
        link_sound(state, row, column, state.children[row][column].mesh.edges.peers[index]),
        state.children[row][column].mesh.edges.peers[index].range == RangeView::All,
        state.children[row][column].mesh.layers[0].tensor.dom().finite(),
        ({
            let link = state.children[row][column].mesh.edges.peers[index];
            let sibling = state.children[link.row as int][link.column as int];
            &&& last_store(sibling).dom().finite()
            &&& state.children[row][column].mesh.layers[0].tensor.dom().disjoint(last_store(sibling).dom())
        }),
    ensures
        pull(state, row, column, index) is Ok,
        ({
            let link = state.children[row][column].mesh.edges.peers[index];
            let sibling = state.children[link.row as int][link.column as int];
            let after = pull(state, row, column, index)->Ok_0;
            &&& logical_width(after.children[row][column].mesh.layers[0].tensor) == logical_width(
                state.children[row][column].mesh.layers[0].tensor,
            ) + logical_width(last_store(sibling))
            &&& after.mesh == state.mesh
            &&& same_frame(state, after)
            &&& forall|r: int, c: int|
                0 <= r < state.children.len() && 0 <= c < state.children[r].len() && !(r == row && c == column)
                    ==> #[trigger] after.children[r][c] == state.children[r][c]
        }),
{
    let child = state.children[row][column];
    let link = child.mesh.edges.peers[index];
    let sibling = state.children[link.row as int][link.column as int];
    lemma_width_of_disjoint_merge(child.mesh.layers[0].tensor, last_store(sibling));
}

/// Once a child has met a link it cannot follow, its later links change nothing.
pub proof fn lemma_pulled_failure(start: Result<NodeView, TraverseError>, row: int, column: int, stopped: nat, upto: nat)
    requires
        pulled(start, row, column, stopped) is Err,
        stopped <= upto,
    ensures
        pulled(start, row, column, upto) == pulled(start, row, column, stopped),
    decreases upto,
{
    if stopped < upto {
        lemma_pulled_failure(start, row, column, stopped, (upto - 1) as nat);
    }
}

/// Once a row has met a link that cannot be followed, its later children
/// change nothing.
pub proof fn lemma_wired_row_failure(start: Result<NodeView, TraverseError>, row: int, stopped: nat, upto: nat)
    requires
        wired_row(start, row, stopped) is Err,
        stopped <= upto,
    ensures
        wired_row(start, row, upto) == wired_row(start, row, stopped),
    decreases upto,
{
    if stopped < upto {
        lemma_wired_row_failure(start, row, stopped, (upto - 1) as nat);
    }
}

/// Once the grid has met a link that cannot be followed, its later rows
/// change nothing.
pub proof fn lemma_wired_failure(start: Result<NodeView, TraverseError>, stopped: nat, upto: nat)
    requires
        wired(start, stopped) is Err,
        stopped <= upto,
    ensures
        wired(start, upto) == wired(start, stopped),
    decreases upto,
{
    if stopped < upto {
        lemma_wired_failure(start, stopped, (upto - 1) as nat);
    }
}

} // verus!
