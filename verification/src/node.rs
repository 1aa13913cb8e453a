use vstd::prelude::*;
use crate::attribute::Attribute;
use crate::attribute::AttributeView;
use crate::domain::unbuilt;
use crate::edges::Edges;
use crate::edges::EdgesView;
use crate::edges::LinkType;
use crate::edges::NodeRange;
use crate::edges::RangeView;
use crate::edges::linked;
use crate::layer::Layer;
use crate::layer::LayerView;
use crate::mesh::Mesh;
use crate::mesh::MeshView;
use crate::mesh::layer_views;
use crate::names::reserved;
use crate::names::system_mark;
use crate::processor::route;
use crate::processor::routed;
use crate::tensor::Array;
use crate::tensor::Dims;
use crate::tensor::Origin;
use crate::tensor::Tensor;
use crate::tensor::merged;
use crate::tensor::no_arrays;
use crate::width::lemma_width_insert;
use crate::width::lemma_width_of_nothing;
use crate::width::logical_width;
use crate::plan::Step;
use crate::plan::StepView;
use crate::plan::TraverseError;
use crate::plan::step_views;
use crate::processor::process;
use crate::traversal::built_leaf;
use crate::traversal::fed_child;
use crate::traversal::fed_grid;
use crate::traversal::fed_row;
use crate::traversal::gathered;
use crate::traversal::harvest;
use crate::traversal::harvested;
use crate::traversal::harvested_row;
use crate::traversal::leaf_traversed;
use crate::traversal::lemma_fed_grid_failure;
use crate::traversal::lemma_fed_row_failure;
use crate::traversal::lemma_pulled_failure;
use crate::traversal::lemma_wired_failure;
use crate::traversal::lemma_wired_row_failure;
use crate::traversal::link_sound;
use crate::traversal::next_build;
use crate::traversal::outcome_of;
use crate::traversal::pull;
use crate::traversal::pulled;
use crate::traversal::traversed;
use crate::traversal::vertex_traversed;
use crate::traversal::wired;
use crate::traversal::wired_row;

verus! {

/// One element of the tree: a mesh, and a grid of children that is empty
/// for a leaf.
pub struct Node {
    uuid: u128,
    mesh: Mesh,
    children: Vec<Vec<Node>>,
    builds: u64,
}

/// A node as plain values: its identifier, its mesh, its children row by
/// row, and how many times it has been built.
pub struct NodeView {
    pub uuid: u128,
    pub mesh: MeshView,
    pub children: Seq<Seq<NodeView>>,
    pub builds: u64,
}

/// What a node is made from.
pub enum NodeType {
    /// The attribute of the input layer, then attribute and width of each
    /// hidden layer.
    Leaf(Attribute, Vec<(Attribute, u64)>),
    /// The attribute of the input layer, the first child, the attribute of
    /// the output layer.
    Vertex(Attribute, Node, Attribute),
}

pub closed spec fn grid_view(grid: Seq<Vec<Node>>) -> Seq<Seq<NodeView>>
    decreases grid, 1int,
{
    Seq::new(grid.len(), |r: int| if 0 <= r < grid.len() { row_view(grid[r]@) } else { arbitrary() })
}

pub closed spec fn row_view(row: Seq<Node>) -> Seq<NodeView>
    decreases row, 1int,
{
    Seq::new(row.len(), |c: int| if 0 <= c < row.len() { node_view(row[c]) } else { arbitrary() })
}

pub closed spec fn node_view(node: Node) -> NodeView
    decreases node, 0int,
{
    NodeView { uuid: node.uuid, mesh: node.mesh@, children: grid_view(node.children@), builds: node.builds }
}

impl View for Node {
    type V = NodeView;

    closed spec fn view(&self) -> NodeView {
        node_view(*self)
    }
}

/// Whether every node of a row is sound.
pub open spec fn sound_row(row: Seq<NodeView>) -> bool
    decreases row, 1int,
{
    forall|c: int| 0 <= c < row.len() ==> sound(#[trigger] row[c])
}

/// Whether every node of a grid is sound.
pub open spec fn sound_grid(grid: Seq<Seq<NodeView>>) -> bool
    decreases grid, 1int,
{
    forall|r: int| 0 <= r < grid.len() ==> sound_row(#[trigger] grid[r])
}

/// What holds of every node: it has an input layer; if it has children it
/// has an output layer behind it; and its children are sound in turn.
pub open spec fn sound(v: NodeView) -> bool
    decreases v, 0int,
{
    &&& v.mesh.layers.len() >= 1
    &&& (v.children.len() > 0 ==> v.mesh.layers.len() >= 2)
    &&& sound_grid(v.children)
}

/// Whether two nodes have one frame: the same identifier, as many layers,
/// and a grid of children of the same shape.
pub open spec fn same_frame(a: NodeView, b: NodeView) -> bool {
    &&& a.uuid == b.uuid
    &&& a.mesh.layers.len() == b.mesh.layers.len()
    &&& a.children.len() == b.children.len()
    &&& forall|r: int| 0 <= r < a.children.len() ==> (#[trigger] a.children[r]).len() == b.children[r].len()
}

/// Having one frame carries over a chain of nodes.
pub proof fn lemma_same_frame_chain(a: NodeView, b: NodeView, c: NodeView, d: NodeView)
    requires
        same_frame(a, b),
        same_frame(b, c),
        same_frame(c, d),
    ensures
        same_frame(a, d),
        same_frame(b, d),
{
    assert forall|r: int| 0 <= r < a.children.len() implies (#[trigger] a.children[r]).len() == d.children[r].len() by {
        assert(a.children[r].len() == b.children[r].len());
        assert(b.children[r].len() == c.children[r].len());
        assert(c.children[r].len() == d.children[r].len());
    }
    assert forall|r: int| 0 <= r < b.children.len() implies (#[trigger] b.children[r]).len() == d.children[r].len() by {
        assert(b.children[r].len() == c.children[r].len());
        assert(c.children[r].len() == d.children[r].len());
    }
}

/// The store of a node's last layer: what the node shows its parent and
/// its siblings.
pub open spec fn last_store(v: NodeView) -> Map<Seq<char>, Array> {
    v.mesh.layers.last().tensor
}

/// The node with the store of one of its layers replaced.
pub open spec fn with_store(v: NodeView, layer: int, store: Map<Seq<char>, Array>) -> NodeView {
    NodeView {
        mesh: MeshView {
            layers: v.mesh.layers.update(layer, LayerView { tensor: store, ..v.mesh.layers[layer] }),
            ..v.mesh
        },
        ..v
    }
}

/// The node with the child at `(row, column)` replaced.
pub open spec fn with_child(v: NodeView, row: int, column: int, child: NodeView) -> NodeView {
    NodeView { children: v.children.update(row, v.children[row].update(column, child)), ..v }
}

/// The node after `source` was merged into its input layer through `range`.
pub open spec fn supplied(v: NodeView, source: Map<Seq<char>, Array>, range: RangeView) -> NodeView {
    with_store(v, 0, merged(v.mesh.layers[0].tensor, source, range))
}

/// The lower-case hyphenated text of the UUID with the number `uuid`.
pub uninterp spec fn hyphenated(uuid: u128) -> Seq<char>;

/// A character of a hyphenated UUID: a lower-case hexadecimal digit or a hyphen.
pub open spec fn plain(c: char) -> bool {
    c == '-' || ('0' <= c && c <= '9') || ('a' <= c && c <= 'f')
}

/// `Uuid::from_u128` and then `to_string`: the UUID in its hyphenated
/// lower-case form, which is 36 characters long and made of lower-case
/// hexadecimal digits and hyphens. All sixteen bytes of the number are
/// written out, so no other number has this text.
#[verifier::external_body]
fn uuid_text(uuid: u128) -> (text: String)
    ensures
        text@ == hyphenated(uuid),
        text@.len() == 36,
        forall|i: int| 0 <= i < 36 ==> plain(#[trigger] text@[i]),
        forall|other: u128| other != uuid ==> #[trigger] hyphenated(other) != text@,
{
    uuid::Uuid::from_u128(uuid).to_string()
}

/// A name made of hexadecimal digits and hyphens is not reserved.
pub proof fn lemma_plain_name_is_free(name: Seq<char>)
    requires
        forall|i: int| 0 <= i < name.len() ==> plain(#[trigger] name[i]),
    ensures
        !reserved(name),
{
    reveal_strlit("_SYSTEM");
    assert(system_mark().len() == 7);
    assert(system_mark()[0] == '_');
    if reserved(name) {
        let at = choose|at: int| 0 <= at && at + system_mark().len() <= name.len()
            && #[trigger] name.subrange(at, at + system_mark().len()) == system_mark();
        assert(name.subrange(at, at + 7)[0] == name[at]);
        assert(plain(name[at]));
    }
}

/// The store of a new hidden layer `count` wide: one blank array that
/// carries the width, under the node's UUID, or nothing if the width is zero.
pub open spec fn carrier(uuid: u128, count: u64) -> Map<Seq<char>, Array> {
    if count > 0 {
        no_arrays().insert(
            hyphenated(uuid),
            Array { dims: Dims { d0: 1, d1: count, d2: 1, d3: 1 }, origin: Origin::Blank },
        )
    } else {
        no_arrays()
    }
}

/// A new hidden layer is as wide as it was declared, as long as the
/// node's name is not reserved (which it never is: see `Node::new`).
pub proof fn lemma_carrier_width(uuid: u128, count: u64)
    ensures
        !reserved(hyphenated(uuid)) ==> logical_width(carrier(uuid, count)) == count,
{
    lemma_width_of_nothing(no_arrays());
    if count > 0 && !reserved(hyphenated(uuid)) {
        lemma_width_insert(
            no_arrays(),
            hyphenated(uuid),
            Array { dims: Dims { d0: 1, d1: count, d2: 1, d3: 1 }, origin: Origin::Blank },
        );
    }
}

/// The layers of a new node: the input layer with an empty store, then one
/// layer per entry of `hidden`.
pub open spec fn new_layers(uuid: u128, attribute: AttributeView, hidden: Seq<(Attribute, u64)>) -> Seq<LayerView> {
    Seq::new(
        hidden.len() + 1,
        |i: int| if i == 0 {
            LayerView { tensor: no_arrays(), attribute, domain: unbuilt() }
        } else {
            LayerView { tensor: carrier(uuid, hidden[i - 1].1), attribute: hidden[i - 1].0@, domain: unbuilt() }
        },
    )
}

/// A new leaf: it takes everything from its parent and sends everything up.
pub open spec fn new_leaf(uuid: u128, input: AttributeView, hidden: Seq<(Attribute, u64)>) -> NodeView {
    NodeView {
        uuid,
        mesh: MeshView {
            layers: new_layers(uuid, input, hidden),
            tensor: no_arrays(),
            edges: EdgesView {
                input_from_parent: RangeView::All,
                output_to_parent: RangeView::All,
                peers: Seq::empty(),
            },
        },
        children: Seq::empty(),
        builds: 0,
    }
}

/// A new vertex over one child: an input and an output layer, both with an
/// empty store. It takes everything from its parent and sends nothing up.
pub open spec fn new_vertex(uuid: u128, input: AttributeView, output: AttributeView, child: NodeView) -> NodeView {
    NodeView {
        uuid,
        mesh: MeshView {
            layers: seq![
                LayerView { tensor: no_arrays(), attribute: input, domain: unbuilt() },
                LayerView { tensor: no_arrays(), attribute: output, domain: unbuilt() },
            ],
            tensor: no_arrays(),
            edges: EdgesView {
                input_from_parent: RangeView::All,
                output_to_parent: RangeView::Selective(Set::empty()),
                peers: Seq::empty(),
            },
        },
        children: seq![seq![child]],
        builds: 0,
    }
}

impl Node {
    /// What the view of a node is made of.
    proof fn lemma_view(self)
        ensures
            self@.uuid == self.uuid,
            self@.mesh == self.mesh@,
            self@.builds == self.builds,
            self@.children.len() == self.children@.len(),
            forall|r: int|
                0 <= r < self.children@.len() ==> (#[trigger] self@.children[r]).len() == self.children@[r]@.len(),
            forall|r: int, c: int|
                0 <= r < self.children@.len() && 0 <= c < self.children@[r]@.len()
                    ==> #[trigger] self@.children[r][c] == self.children@[r]@[c]@,
    {
    }

    /// Whether the node satisfies what holds of every node.
    pub open spec fn well_formed(&self) -> bool {
        sound(self@)
    }

    /// Makes a node: a leaf of the given layers, or a vertex over a first child.
    pub fn new(uuid: u128, node_type: NodeType) -> (node: Self)
        requires
            node_type matches NodeType::Vertex(_, child, _) ==> child.well_formed(),
        ensures
            node.well_formed(),
            node@ == (match node_type {
                NodeType::Leaf(input, hidden) => new_leaf(uuid, input@, hidden@),
                NodeType::Vertex(input, child, output) => new_vertex(uuid, input@, output@, child@),
            }),
            !reserved(hyphenated(uuid)),
            forall|other: u128| other != uuid ==> #[trigger] hyphenated(other) != hyphenated(uuid),
    {
        let name = uuid_text(uuid);
        proof {
            lemma_plain_name_is_free(name@);
        }
        match node_type {
            NodeType::Leaf(input, hidden) => {
                let layers = Node::new_node_layers(uuid, input, &hidden);
                let node = Node { uuid, mesh: Mesh::new(layers, Edges::new(NodeRange::All)), children: Vec::new(), builds: 0 };
                proof {
                    node.lemma_view();
                    assert(node@.children =~~= Seq::<Seq<NodeView>>::empty());
                }
                node
            },
            NodeType::Vertex(input, child, output) => {
                let mut layers: Vec<Layer> = Vec::new();
                layers.push(Layer::new(input, Tensor::empty()));
                layers.push(Layer::new(output, Tensor::empty()));
                let mut row: Vec<Node> = Vec::new();
                row.push(child);
                let mut children: Vec<Vec<Node>> = Vec::new();
                children.push(row);
                let node = Node {
                    uuid,
                    mesh: Mesh::new(layers, Edges::new(NodeRange::Selective(Vec::new()))),
                    children,
                    builds: 0,
                };
                proof {
                    node.lemma_view();
                    assert(node@.children =~~= seq![seq![child@]]);
                    assert(node@.mesh.layers =~= new_vertex(uuid, input@, output@, child@).mesh.layers);
                    assert(crate::edges::name_set(Seq::<String>::empty()) =~= Set::<Seq<char>>::empty());
                }
                node
            },
        }
    }

    /// Puts a node together from its parts, if they can be those of a
    /// node: there has to be an input layer, and with children an output
    /// layer behind it.
    pub fn restore(uuid: u128, mesh: Mesh, children: Vec<Vec<Node>>, builds: u64) -> (node: Option<Self>)
        requires
            forall|r: int, c: int|
                0 <= r < children@.len() && 0 <= c < children@[r]@.len() ==> (#[trigger] children@[r]@[c]).well_formed(),
        ensures
            node is Some == (mesh@.layers.len() >= 1 && (children@.len() > 0 ==> mesh@.layers.len() >= 2)),
            node is Some ==> {
                &&& node->0.well_formed()
                &&& node->0@.uuid == uuid
                &&& node->0@.mesh == mesh@
                &&& node->0@.builds == builds
                &&& node->0@.children.len() == children@.len()
                &&& forall|r: int| 0 <= r < children@.len() ==> (#[trigger] node->0@.children[r]).len() == children@[r]@.len()
                &&& forall|r: int, c: int|
                    0 <= r < children@.len() && 0 <= c < children@[r]@.len() ==> #[trigger] node->0@.children[r][c]
                        == children@[r]@[c]@
            },
    {
        let enough = mesh.layers.len() >= 1 && (children.len() == 0 || mesh.layers.len() >= 2);
        if !enough {
            return None;
        }
        let node = Node { uuid, mesh, children, builds };
        proof {
            node.lemma_view();
            assert forall|r: int| 0 <= r < node@.children.len() implies sound_row(#[trigger] node@.children[r]) by {
                assert forall|c: int| 0 <= c < node@.children[r].len() implies sound(#[trigger] node@.children[r][c]) by {
                    assert(children@[r]@[c].well_formed());
                }
            }
        }
        Some(node)
    }

    /// The layers of a new node.
    fn new_node_layers(uuid: u128, attribute: Attribute, hidden: &Vec<(Attribute, u64)>) -> (layers: Vec<Layer>)
        ensures
            layer_views(layers@) == new_layers(uuid, attribute@, hidden@),
    {
        let mut layers: Vec<Layer> = Vec::new();
        layers.push(Layer::new(attribute, Tensor::empty()));
        let name = uuid_text(uuid);
        let mut i: usize = 0;
        while i < hidden.len()
            invariant
                i <= hidden.len(),
                layers@.len() == i + 1,
                name@ == hyphenated(uuid),
                forall|j: int| 0 <= j <= i ==> (#[trigger] layers@[j])@ == new_layers(uuid, attribute@, hidden@)[j],
            decreases hidden.len() - i,
        {
            let mut store = Tensor::empty();
            let count: u64 = hidden[i].1;
            if count > 0 {
                store.insert(
                    name.as_str(),
                    Array { dims: Dims { d0: 1, d1: count, d2: 1, d3: 1 }, origin: Origin::Blank },
                );
            }
            layers.push(Layer::new(hidden[i].0.duplicate(), store));
            i += 1;
        }
        assert(layer_views(layers@) =~= new_layers(uuid, attribute@, hidden@));
        layers
    }

    /// Whether the node is a leaf: it has no children.
    pub fn is_leaf_node(&self) -> (leaf: bool)
        ensures
            leaf == (self@.children.len() == 0),
    {
        proof {
            self.lemma_view();
        }
        self.children.len() == 0
    }

    /// The node's children, row by row.
    pub fn children(&self) -> (children: &Vec<Vec<Node>>)
        ensures
            children@.len() == self@.children.len(),
            forall|r: int| 0 <= r < children@.len() ==> (#[trigger] children@[r])@.len() == self@.children[r].len(),
            forall|r: int, c: int|
                0 <= r < children@.len() && 0 <= c < children@[r]@.len() ==> (#[trigger] children@[r]@[c])@
                    == self@.children[r][c],
    {
        proof {
            self.lemma_view();
        }
        &self.children
    }

    /// The node's mesh.
    pub fn mesh(&self) -> (mesh: &Mesh)
        ensures
            mesh@ == self@.mesh,
    {
        proof {
            self.lemma_view();
        }
        &self.mesh
    }

    /// How many times the node has been built.
    pub fn builds(&self) -> (builds: u64)
        ensures
            builds == self@.builds,
    {
        proof {
            self.lemma_view();
        }
        self.builds
    }

    /// The number of the node's UUID.
    pub fn uuid(&self) -> (uuid: u128)
        ensures
            uuid == self@.uuid,
    {
        proof {
            self.lemma_view();
        }
        self.uuid
    }

    /// The node's UUID in its hyphenated form: the name under which the
    /// node's hidden layers keep their width.
    pub fn name(&self) -> (text: String)
        ensures
            text@ == hyphenated(self@.uuid),
            !reserved(text@),
            forall|other: u128| other != self@.uuid ==> #[trigger] hyphenated(other) != text@,
    {
        proof {
            self.lemma_view();
        }
        let text = uuid_text(self.uuid);
        proof {
            lemma_plain_name_is_free(text@);
        }
        text
    }

    /// The arrays that make up the node's output: everything in its value
    /// store that is not under a reserved name. The backend joins them along
    /// the second axis.
    pub fn output(&self) -> (arrays: Tensor)
        ensures
            arrays@ == routed(self@.mesh.tensor, RangeView::All),
    {
        proof {
            self.lemma_view();
        }
        route(&self.mesh.tensor, &NodeRange::All)
    }

    /// Declares a link of this node. This never fails.
    pub fn link(&mut self, link: LinkType, node_range: NodeRange) -> (result: Result<(), &'static str>)
        ensures
            result is Ok,
            final(self)@ == (NodeView {
                mesh: MeshView { edges: linked(old(self)@.mesh.edges, link, node_range@), ..old(self)@.mesh },
                ..old(self)@
            }),
            old(self).well_formed() ==> final(self).well_formed(),
    {
        proof {
            self.lemma_view();
        }
        let result = self.mesh.edges.link(link, node_range);
        proof {
            self.lemma_view();
            assert(self@.children =~~= old(self)@.children);
        }
        result
    }

    /// Merges `source` into the store of the input layer through `range`.
    fn supply(&mut self, source: &Tensor, range: &NodeRange)
        requires
            old(self)@.mesh.layers.len() >= 1,
        ensures
            final(self)@ == supplied(old(self)@, source@, range@),
    {
        proof {
            self.lemma_view();
        }
        self.mesh.layers[0].tensor.merge(source, range);
        proof {
            self.lemma_view();
            assert(self@.children =~~= old(self)@.children);
            assert(self@.mesh.layers =~= supplied(old(self)@, source@, range@).mesh.layers);
        }
    }
}

impl Node {
    /// The view of a node one of whose children was replaced.
    proof fn lemma_child_replaced(before: Node, after: Node, row: int, column: int)
        requires
            0 <= row < before.children@.len(),
            0 <= column < before.children@[row]@.len(),
            after.uuid == before.uuid,
            after.builds == before.builds,
            after.mesh@ == before.mesh@,
            after.children@.len() == before.children@.len(),
            forall|r: int| 0 <= r < before.children@.len() ==> (#[trigger] after.children@[r])@.len() == before.children@[r]@.len(),
            forall|r: int, c: int|
                0 <= r < before.children@.len() && 0 <= c < before.children@[r]@.len() && !(r == row && c == column)
                    ==> (#[trigger] after.children@[r]@[c])@ == before.children@[r]@[c]@,
        ensures
            after@ == with_child(before@, row, column, after.children@[row]@[column]@),
    {
        before.lemma_view();
        after.lemma_view();
        let expected = with_child(before@, row, column, after.children@[row]@[column]@);
        assert(after@.children =~~= expected.children);
    }

    /// Copies the outputs of all children into the value store.
    fn assign_parent_outputs(&mut self)
        ensures
            final(self)@ == gathered(old(self)@),
    {
        proof {
            self.lemma_view();
        }
        let rows: usize = self.children.len();
        let mut r: usize = 0;
        while r < rows
            invariant
                r <= rows,
                rows == self.children@.len(),
                self.children == old(self).children,
                self.uuid == old(self).uuid,
                self.builds == old(self).builds,
                self.mesh.layers == old(self).mesh.layers,
                self.mesh.edges == old(self).mesh.edges,
                self.mesh.tensor@ == harvested(old(self)@.mesh.tensor, old(self)@.children, r as nat),
            decreases rows - r,
        {
            let cols: usize = self.children[r].len();
            let ghost row_start = self.mesh.tensor@;
            let mut c: usize = 0;
            while c < cols
                invariant
                    r < rows,
                    c <= cols,
                    rows == self.children@.len(),
                    cols == self.children@[r as int]@.len(),
                    self.children == old(self).children,
                    self.uuid == old(self).uuid,
                    self.builds == old(self).builds,
                    self.mesh.layers == old(self).mesh.layers,
                    self.mesh.edges == old(self).mesh.edges,
                    row_start == harvested(old(self)@.mesh.tensor, old(self)@.children, r as nat),
                    self.mesh.tensor@ == harvested_row(row_start, old(self)@.children[r as int], c as nat),
                decreases cols - c,
            {
                proof {
                    old(self).lemma_view();
                }
                let child = &self.children[r][c];
                let picked = route(&child.mesh.tensor, &child.mesh.edges.output_to_parent);
                proof {
                    child.lemma_view();
                }
                self.mesh.tensor.merge(&picked, &NodeRange::All);
                c += 1;
            }
            proof {
                old(self).lemma_view();
            }
            r += 1;
        }
        proof {
            self.lemma_view();
            old(self).lemma_view();
            assert(self@.children =~~= old(self)@.children);
            assert(self@.mesh == gathered(old(self)@).mesh);
        }
    }

    /// Lets every child follow its peer links, in row-major order.
    fn assign_sibling_inputs(&mut self) -> (result: Result<(), TraverseError>)
        requires
            old(self).well_formed(),
        ensures
            final(self).well_formed(),
            same_frame(old(self)@, final(self)@),
            match result {
                Ok(_) => wired(Ok(old(self)@), old(self)@.children.len()) == Ok::<NodeView, TraverseError>(final(self)@),
                Err(error) => wired(Ok(old(self)@), old(self)@.children.len()) == Err::<NodeView, TraverseError>(error),
            },
    {
        proof {
            self.lemma_view();
        }
        let ghost origin = self@;
        let rows: usize = self.children.len();
        let mut r: usize = 0;
        while r < rows
            invariant
                r <= rows,
                rows == self.children@.len(),
                rows == origin.children.len(),
                origin == old(self)@,
                sound(self@),
                same_frame(origin, self@),
                wired(Ok(origin), r as nat) == Ok::<NodeView, TraverseError>(self@),
            decreases rows - r,
        {
            proof {
                self.lemma_view();
            }
            let ghost row_start = self@;
            let cols: usize = self.children[r].len();
            let mut c: usize = 0;
            while c < cols
                invariant
                    r < rows,
                    c <= cols,
                    rows == self.children@.len(),
                    rows == origin.children.len(),
                    cols == self.children@[r as int]@.len(),
                    cols == row_start.children[r as int].len(),
                    origin == old(self)@,
                    sound(self@),
                    same_frame(origin, self@),
                    wired(Ok(origin), r as nat) == Ok::<NodeView, TraverseError>(row_start),
                    wired_row(Ok(row_start), r as int, c as nat) == Ok::<NodeView, TraverseError>(self@),
                decreases cols - c,
            {
                proof {
                    self.lemma_view();
                }
                let ghost child_start = self@;
                let links: usize = self.children[r][c].mesh.edges.input_from_peer_output.len();
                let mut j: usize = 0;
                while j < links
                    invariant
                        r < rows,
                        c < cols,
                        j <= links,
                        rows == self.children@.len(),
                        rows == origin.children.len(),
                        cols == self.children@[r as int]@.len(),
                        cols == row_start.children[r as int].len(),
                        links == self@.children[r as int][c as int].mesh.edges.peers.len(),
                        links == child_start.children[r as int][c as int].mesh.edges.peers.len(),
                        origin == old(self)@,
                        sound(self@),
                        same_frame(origin, self@),
                        wired(Ok(origin), r as nat) == Ok::<NodeView, TraverseError>(row_start),
                        wired_row(Ok(row_start), r as int, c as nat) == Ok::<NodeView, TraverseError>(child_start),
                        pulled(Ok(child_start), r as int, c as int, j as nat) == Ok::<NodeView, TraverseError>(self@),
                    decreases links - j,
                {
                    proof {
                        self.lemma_view();
                        self.children@[r as int]@[c as int].lemma_view();
                    }
                    let ghost before = *self;
                    let link = &self.children[r][c].mesh.edges.input_from_peer_output[j];
                    let from_row: usize = link.row;
                    let from_column: usize = link.column;
                    let range = link.range.duplicate();
                    assert(self@.children[r as int][c as int].mesh.edges.peers[j as int] == link@);
                    let broken = from_row >= rows || from_column >= self.children[from_row].len() || (from_row == r
                        && from_column == c);
                    if broken {
                        proof {
                            assert(!link_sound(self@, r as int, c as int, link@));
                            assert(pull(self@, r as int, c as int, j as int) is Err);
                            assert(pulled(Ok(child_start), r as int, c as int, j as nat + 1) is Err);
                            lemma_pulled_failure(Ok(child_start), r as int, c as int, j as nat + 1, links as nat);
                            assert(wired_row(Ok(row_start), r as int, c as nat + 1) is Err);
                            lemma_wired_row_failure(Ok(row_start), r as int, c as nat + 1, cols as nat);
                            assert(wired(Ok(origin), r as nat + 1) is Err);
                            lemma_wired_failure(Ok(origin), r as nat + 1, rows as nat);
                        }
                        return Err(TraverseError::BrokenLink);
                    }
                    let sibling = &self.children[from_row][from_column];
                    proof {
                        sibling.lemma_view();
                        assert(sound_row(self@.children[from_row as int]));
                        assert(sound(self@.children[from_row as int][from_column as int]));
                        assert(sound_row(self@.children[r as int]));
                        assert(sound(self@.children[r as int][c as int]));
                    }
                    let last: usize = sibling.mesh.layers.len() - 1;
                    let source = sibling.mesh.layers[last].tensor.duplicate();
                    assert(source@ == last_store(self@.children[from_row as int][from_column as int]));
                    self.children[r][c].supply(&source, &range);
                    proof {
                        Node::lemma_child_replaced(before, *self, r as int, c as int);
                        assert(self@ == pull(before@, r as int, c as int, j as int)->Ok_0);
                        let fresh = self@.children[r as int][c as int];
                        assert(sound(fresh));
                        assert forall|i: int| 0 <= i < self@.children.len() implies sound_row(#[trigger] self@.children[i]) by {
                            assert(sound_row(before@.children[i]));
                            assert forall|k: int| 0 <= k < self@.children[i].len() implies sound(#[trigger] self@.children[i][k]) by {
                                if i == r && k == c {
                                } else {
                                    assert(self@.children[i][k] == before@.children[i][k]);
                                }
                            }
                        }
                        self.lemma_view();
                        self.children@[r as int]@[c as int].lemma_view();
                    }
                    j += 1;
                }
                c += 1;
            }
            r += 1;
        }
        Ok(())
    }
}

impl Node {
    /// Rebuilds a leaf: a new packed value buffer, and every layer built
    /// anew from the current widths.
    fn init_leaf(&mut self) -> (result: Result<Vec<Step>, TraverseError>)
        ensures
            final(self)@.children == old(self)@.children,
            final(self)@.uuid == old(self)@.uuid,
            final(self)@.mesh.layers.len() == old(self)@.mesh.layers.len(),
            outcome_of(result, final(self)@) == built_leaf(old(self)@),
    {
        proof {
            self.lemma_view();
        }
        let outcome = self.mesh.build(self.uuid, self.builds);
        proof {
            self.lemma_view();
            assert(self@.children =~~= old(self)@.children);
        }
        match outcome {
            Err(error) => Err(error),
            Ok(steps) => {
                self.builds = if self.builds == u64::MAX {
                    0
                } else {
                    self.builds + 1
                };
                proof {
                    self.lemma_view();
                    assert(self@.children =~~= old(self)@.children);
                }
                Ok(steps)
            },
        }
    }

    /// Takes in the child at `(row, column)`: traverses it on what the
    /// output layer holds, and merges what the child's last layer then holds
    /// into the output layer.
    fn assign_children_inputs(&mut self, row: usize, column: usize, build: bool) -> (result: Result<
        Vec<Step>,
        TraverseError,
    >)
        requires
            old(self).well_formed(),
            old(self)@.mesh.layers.len() >= 2,
            row < old(self)@.children.len(),
            column < old(self)@.children[row as int].len(),
        ensures
            final(self).well_formed(),
            same_frame(old(self)@, final(self)@),
            forall|r: int, c: int|
                0 <= r < old(self)@.children.len() && 0 <= c < old(self)@.children[r].len() && !(r == row && c
                    == column) ==> #[trigger] final(self)@.children[r][c] == old(self)@.children[r][c],
            match result {
                Ok(steps) => fed_child(
                    (old(self)@, Seq::empty()),
                    row as int,
                    column as int,
                    traversed(
                        old(self)@.children[row as int][column as int],
                        old(self)@.mesh.layers[1].tensor,
                        build,
                    ),
                ) == Ok::<(NodeView, Seq<StepView>), TraverseError>((final(self)@, step_views(steps@))),
                Err(error) => traversed(
                    old(self)@.children[row as int][column as int],
                    old(self)@.mesh.layers[1].tensor,
                    build,
                ) == Err::<(NodeView, Seq<StepView>), TraverseError>(error),
            },
        decreases old(self)@.children[row as int][column as int], 2int,
    {
        proof {
            self.lemma_view();
            assert(sound_row(self@.children[row as int]));
            assert(sound(self@.children[row as int][column as int]));
        }
        let ghost before = *self;
        let input = self.mesh.layers[1].tensor.duplicate();
        let outcome = self.children[row][column].traverse(&input, build);
        let ghost middle = *self;
        proof {
            Node::lemma_child_replaced(before, middle, row as int, column as int);
            self.lemma_view();
            assert forall|i: int| 0 <= i < self@.children.len() implies sound_row(#[trigger] self@.children[i]) by {
                assert(sound_row(before@.children[i]));
                assert forall|k: int| 0 <= k < self@.children[i].len() implies sound(#[trigger] self@.children[i][k]) by {
                    if i == row && k == column {
                    } else {
                        assert(self@.children[i][k] == before@.children[i][k]);
                    }
                }
            }
        }
        let steps = match outcome {
            Ok(steps) => steps,
            Err(error) => {
                return Err(error);
            },
        };
        let child = &self.children[row][column];
        proof {
            child.lemma_view();
        }
        let last: usize = child.mesh.layers.len() - 1;
        self.mesh.layers[1].tensor.merge(&child.mesh.layers[last].tensor, &child.mesh.edges.output_to_parent);
        proof {
            self.lemma_view();
            middle.lemma_view();
            let expected = fed_child(
                (before@, Seq::empty()),
                row as int,
                column as int,
                traversed(before@.children[row as int][column as int], before@.mesh.layers[1].tensor, build),
            )->Ok_0;
            assert(self@.children =~~= expected.0.children);
            assert(self@.mesh.layers =~= expected.0.mesh.layers);
            assert(self@ == expected.0);
            assert(step_views(steps@) =~= expected.1);
        }
        Ok(steps)
    }

    /// Traverses the node on the store `tensor`.
    ///
    /// The store is merged into the input layer through the node's filter
    /// from the parent. A leaf is then rebuilt if `build` is set, and its
    /// forward pass is planned. A vertex traverses its children in
    /// row-major order, each on what the vertex's output layer holds when the
    /// child's turn comes, merges what each child's last layer then holds
    /// into that layer, lets the children follow their peer links, and copies
    /// their outputs into its own value store.
    ///
    /// The steps returned are the numeric work of the traversal, in the
    /// order in which it is to be carried out. After an error the node is
    /// still well formed and has the frame it had, but how far the traversal
    /// came is not stated.
    pub fn traverse(&mut self, tensor: &Tensor, build: bool) -> (result: Result<Vec<Step>, TraverseError>)
        requires
            old(self).well_formed(),
        ensures
            final(self).well_formed(),
            same_frame(old(self)@, final(self)@),
            outcome_of(result, final(self)@) == traversed(old(self)@, tensor@, build),
        decreases old(self)@, 1int,
    {
        proof {
            self.lemma_view();
        }
        let range = self.mesh.edges.input_from_parent.duplicate();
        self.supply(tensor, &range);
        let ghost taken = self@;
        proof {
            self.lemma_view();
        }
        if self.children.len() == 0 {
            let mut steps: Vec<Step> = Vec::new();
            if build {
                match self.init_leaf() {
                    Ok(made) => {
                        steps = made;
                    },
                    Err(error) => {
                        return Err(error);
                    },
                }
            } else {
                assert(step_views(steps@) =~= Seq::<StepView>::empty());
            }
            proof {
                self.lemma_view();
            }
            match process(&self.mesh, tensor) {
                Ok(more) => {
                    let mut more = more;
                    let ghost before = step_views(steps@);
                    let ghost added = step_views(more@);
                    steps.append(&mut more);
                    assert(step_views(steps@) =~= before + added);
                    Ok(steps)
                },
                Err(error) => Err(error),
            }
        } else {
            let ghost start = Ok::<(NodeView, Seq<StepView>), TraverseError>((taken, Seq::<StepView>::empty()));
            let mut plan: Vec<Step> = Vec::new();
            assert(step_views(plan@) =~= Seq::<StepView>::empty());
            let rows: usize = self.children.len();
            let mut r: usize = 0;
            while r < rows
                invariant
                    r <= rows,
                    rows == self.children@.len(),
                    rows == taken.children.len(),
                    taken.children == old(self)@.children,
                    taken == supplied(old(self)@, tensor@, old(self)@.mesh.edges.input_from_parent),
                    start == Ok::<(NodeView, Seq<StepView>), TraverseError>((taken, Seq::<StepView>::empty())),
                    taken.mesh.layers.len() >= 2,
                    sound(self@),
                    same_frame(taken, self@),
                    same_frame(old(self)@, taken),
                    forall|i: int, j: int|
                        r <= i < rows && 0 <= j < taken.children[i].len() ==> #[trigger] self@.children[i][j]
                            == taken.children[i][j],
                    fed_grid(start, taken.children, build, r as nat) == Ok::<(NodeView, Seq<StepView>), TraverseError>(
                        (self@, step_views(plan@)),
                    ),
                decreases rows - r,
            {
                proof {
                    self.lemma_view();
                }
                let ghost row_start = (self@, step_views(plan@));
                let cols: usize = self.children[r].len();
                assert(self@.children[r as int].len() == cols);
                let mut c: usize = 0;
                while c < cols
                    invariant
                        r < rows,
                        c <= cols,
                        rows == self.children@.len(),
                        rows == taken.children.len(),
                        cols == taken.children[r as int].len(),
                        taken.children == old(self)@.children,
                        taken == supplied(old(self)@, tensor@, old(self)@.mesh.edges.input_from_parent),
                        start == Ok::<(NodeView, Seq<StepView>), TraverseError>((taken, Seq::<StepView>::empty())),
                        taken.mesh.layers.len() >= 2,
                        sound(self@),
                        same_frame(taken, self@),
                        same_frame(old(self)@, taken),
                        forall|i: int, j: int|
                            r < i < rows && 0 <= j < taken.children[i].len() ==> #[trigger] self@.children[i][j]
                                == taken.children[i][j],
                        forall|j: int| c <= j < cols ==> #[trigger] self@.children[r as int][j] == taken.children[r as int][j],
                        fed_grid(start, taken.children, build, r as nat) == Ok::<(NodeView, Seq<StepView>), TraverseError>(
                            row_start,
                        ),
                        fed_row(Ok(row_start), r as int, taken.children[r as int], build, c as nat) == Ok::<
                            (NodeView, Seq<StepView>),
                            TraverseError,
                        >((self@, step_views(plan@))),
                    decreases cols - c,
                {
                    proof {
                        assert(self@.children[r as int].len() == cols);
                        assert(self@.children[r as int][c as int] == taken.children[r as int][c as int]);
                    }
                    let ghost before = self@;
                    let ghost before_plan = step_views(plan@);
                    let ghost outcome = traversed(taken.children[r as int][c as int], before.mesh.layers[1].tensor, build);
                    let mut steps = match self.assign_children_inputs(r, c, build) {
                        Ok(steps) => steps,
                        Err(error) => {
                            proof {
                                assert(fed_child((before, before_plan), r as int, c as int, outcome) is Err);
                                assert(fed_row(Ok(row_start), r as int, taken.children[r as int], build, c as nat + 1) is Err);
                                lemma_fed_row_failure(
                                    Ok(row_start),
                                    r as int,
                                    taken.children[r as int],
                                    build,
                                    c as nat + 1,
                                    cols as nat,
                                );
                                assert(fed_grid(start, taken.children, build, r as nat + 1) is Err);
                                lemma_fed_grid_failure(start, taken.children, build, r as nat + 1, rows as nat);
                                lemma_same_frame_chain(taken, taken, before, self@);
                                lemma_same_frame_chain(old(self)@, old(self)@, taken, self@);
                            }
                            return Err(error);
                        },
                    };
                    let ghost added = step_views(steps@);
                    plan.append(&mut steps);
                    proof {
                        assert(step_views(plan@) =~= before_plan + added);
                        assert(before_plan + added =~= before_plan + (Seq::<StepView>::empty() + added));
                        lemma_same_frame_chain(taken, taken, before, self@);
                        self.lemma_view();
                    }
                    c += 1;
                }
                r += 1;
            }
            proof {
                self.lemma_view();
            }
            let ghost fed = self@;
            match self.assign_sibling_inputs() {
                Ok(_) => {},
                Err(error) => {
                    proof {
                        lemma_same_frame_chain(old(self)@, taken, fed, self@);
                    }
                    return Err(error);
                },
            }
            let ghost wired_up = self@;
            self.assign_parent_outputs();
            proof {
                self.lemma_view();
                lemma_same_frame_chain(old(self)@, taken, fed, wired_up);
            }
            Ok(plan)
        }
    }
}

/// The vertex after it adopted `child`: in a new row of its own, or at the
/// end of the row `index`.
pub open spec fn adopted(v: NodeView, child: NodeView, index: Option<usize>) -> NodeView {
    match index {
        None => NodeView { children: v.children.push(seq![child]), ..v },
        Some(row) => NodeView { children: v.children.update(row as int, v.children[row as int].push(child)), ..v },
    }
}

/// Whether the path `path`, from its entry `from` on, can be walked down
/// from `v`: every entry taken at a vertex names a place of that vertex's
/// grid, and a vertex is never left without an entry to take. The walk
/// ends at a leaf, wherever it meets one.
pub open spec fn walkable(v: NodeView, path: Seq<(usize, usize)>, from: nat) -> bool
    decreases path.len() - from,
{
    v.children.len() == 0 || {
        &&& from < path.len()
        &&& path[from as int].0 < v.children.len()
        &&& path[from as int].1 < v.children[path[from as int].0 as int].len()
        &&& (from + 1 < path.len() ==> walkable(
            v.children[path[from as int].0 as int][path[from as int].1 as int],
            path,
            from + 1,
        ))
    }
}

/// The node that the path `path`, from its entry `from` on, leads to from
/// `v`: each entry is the `(row, column)` of a child. There is none if the
/// walk comes to a leaf while it still has an entry to take.
pub open spec fn reached(v: NodeView, path: Seq<(usize, usize)>, from: nat) -> Option<NodeView>
    decreases path.len() - from,
{
    if v.children.len() == 0 || from >= path.len() {
        None
    } else {
        let child = v.children[path[from as int].0 as int][path[from as int].1 as int];
        if from + 1 == path.len() {
            Some(child)
        } else {
            reached(child, path, from + 1)
        }
    }
}

/// The node `v` after the node that `path` leads to, from its entry `from`
/// on, declared a link. There is none if the walk comes to a leaf while it
/// still has an entry to take.
pub open spec fn relinked(v: NodeView, path: Seq<(usize, usize)>, from: nat, link: LinkType, range: RangeView) -> Option<
    NodeView,
>
    decreases path.len() - from,
{
    if v.children.len() == 0 || from >= path.len() {
        None
    } else {
        let row = path[from as int].0 as int;
        let column = path[from as int].1 as int;
        let child = v.children[row][column];
        if from + 1 == path.len() {
            Some(
                with_child(
                    v,
                    row,
                    column,
                    NodeView {
                        mesh: MeshView { edges: linked(child.mesh.edges, link, range), ..child.mesh },
                        ..child
                    },
                ),
            )
        } else {
            match relinked(child, path, from + 1, link, range) {
                None => None,
                Some(changed) => Some(with_child(v, row, column, changed)),
            }
        }
    }
}

impl Node {
    /// Gives a vertex one more child: in a new row if `index` is `None`,
    /// else at the end of the row `index`. A leaf takes no child and stays
    /// as it is.
    pub fn add_child_to_parent(&mut self, child: Node, index: Option<usize>) -> (result: Result<(), &'static str>)
        requires
            old(self).well_formed(),
            child.well_formed(),
            old(self)@.children.len() > 0 ==> (index matches Some(row) ==> row < old(self)@.children.len()),
        ensures
            final(self).well_formed(),
            old(self)@.children.len() == 0 ==> result is Err && result->Err_0@ == "Unable to add child to leaf."@
                && final(self)@ == old(self)@,
            old(self)@.children.len() > 0 ==> result is Ok && final(self)@ == adopted(old(self)@, child@, index),
    {
        proof {
            self.lemma_view();
        }
        if self.children.len() == 0 {
            return Err("Unable to add child to leaf.");
        }
        match index {
            None => {
                let mut row: Vec<Node> = Vec::new();
                row.push(child);
                self.children.push(row);
            },
            Some(row) => {
                self.children[row].push(child);
            },
        }
        proof {
            self.lemma_view();
            let expected = adopted(old(self)@, child@, index);
            assert(self@.children =~~= expected.children);
            assert forall|i: int| 0 <= i < self@.children.len() implies sound_row(#[trigger] self@.children[i]) by {
                if i < old(self)@.children.len() {
                    assert(sound_row(old(self)@.children[i]));
                }
            }
        }
        Ok(())
    }

    /// Whether `indices` can be walked down from this node: what
    /// `index_into_node` and `link_into_node` ask of their caller.
    pub fn is_walkable(&self, indices: &[(usize, usize)]) -> (ok: bool)
        ensures
            ok == walkable(self@, indices@, 0),
    {
        let mut node: &Node = self;
        let mut at: usize = 0;
        loop
            invariant
                at <= indices@.len(),
                walkable(self@, indices@, 0) == walkable(node@, indices@, at as nat),
            decreases indices@.len() - at,
        {
            proof {
                node.lemma_view();
            }
            if node.children.len() == 0 {
                return true;
            }
            if at >= indices.len() {
                return false;
            }
            let place = indices[at];
            if place.0 >= node.children.len() {
                return false;
            }
            if place.1 >= node.children[place.0].len() {
                return false;
            }
            if at + 1 == indices.len() {
                return true;
            }
            let child = &node.children[place.0][place.1];
            proof {
                child.lemma_view();
            }
            node = child;
            at += 1;
        }
    }

    /// Walks down the tree: each entry of `indices` is the `(row, column)`
    /// of the child to step to. A leaf cannot be stepped from.
    pub fn index_into_node(&self, indices: &[(usize, usize)]) -> (result: Result<&Node, &'static str>)
        requires
            self.well_formed(),
            walkable(self@, indices@, 0),
        ensures
            match result {
                Ok(node) => reached(self@, indices@, 0) == Some(node@) && node.well_formed(),
                Err(reason) => reached(self@, indices@, 0) is None && reason@ == "Unable to index into leaf node."@,
            },
    {
        let mut node: &Node = self;
        let mut at: usize = 0;
        loop
            invariant
                at <= indices@.len(),
                node.well_formed(),
                walkable(node@, indices@, at as nat),
                reached(node@, indices@, at as nat) == reached(self@, indices@, 0),
                node@.children.len() > 0 ==> at < indices@.len(),
            decreases indices@.len() - at,
        {
            proof {
                node.lemma_view();
            }
            if node.children.len() == 0 {
                return Err("Unable to index into leaf node.");
            }
            let place = indices[at];
            let child = &node.children[place.0][place.1];
            proof {
                child.lemma_view();
                assert(sound_row(node@.children[place.0 as int]));
                assert(sound(node@.children[place.0 as int][place.1 as int]));
            }
            if at + 1 == indices.len() {
                return Ok(child);
            }
            node = child;
            at += 1;
        }
    }

    /// Declares a link of the node that `indices` leads to.
    pub fn link_into_node(&mut self, indices: &[(usize, usize)], link: LinkType, node_range: NodeRange) -> (result:
        Result<(), &'static str>)
        requires
            old(self).well_formed(),
            walkable(old(self)@, indices@, 0),
        ensures
            final(self).well_formed(),
            match result {
                Ok(_) => relinked(old(self)@, indices@, 0, link, node_range@) == Some(final(self)@),
                Err(reason) => relinked(old(self)@, indices@, 0, link, node_range@) is None && final(self)@ == old(
                    self,
                )@ && reason@ == "Unable to index into leaf node."@,
            },
    {
        self.link_from(indices, 0, link, node_range)
    }

    /// Declares a link of the node that `indices` leads to from its entry
    /// `from` on.
    fn link_from(&mut self, indices: &[(usize, usize)], from: usize, link: LinkType, node_range: NodeRange) -> (result:
        Result<(), &'static str>)
        requires
            old(self).well_formed(),
            from <= indices@.len(),
            walkable(old(self)@, indices@, from as nat),
        ensures
            final(self).well_formed(),
            match result {
                Ok(_) => relinked(old(self)@, indices@, from as nat, link, node_range@) == Some(final(self)@),
                Err(reason) => relinked(old(self)@, indices@, from as nat, link, node_range@) is None && final(self)@
                    == old(self)@ && reason@ == "Unable to index into leaf node."@,
            },
        decreases indices@.len() - from,
    {
        proof {
            self.lemma_view();
        }
        if self.children.len() == 0 {
            return Err("Unable to index into leaf node.");
        }
        let place = indices[from];
        let ghost before = *self;
        proof {
            self.children@[place.0 as int]@[place.1 as int].lemma_view();
            assert(sound_row(self@.children[place.0 as int]));
            assert(sound(self@.children[place.0 as int][place.1 as int]));
        }
        let result = if from + 1 == indices.len() {
            self.children[place.0][place.1].link(link, node_range)
        } else {
            self.children[place.0][place.1].link_from(indices, from + 1, link, node_range)
        };
        proof {
            Node::lemma_child_replaced(before, *self, place.0 as int, place.1 as int);
            self.lemma_view();
            if result is Err {
                assert(self@.children =~~= before@.children);
            }
            assert forall|i: int| 0 <= i < self@.children.len() implies sound_row(#[trigger] self@.children[i]) by {
                assert(sound_row(before@.children[i]));
                assert forall|k: int| 0 <= k < self@.children[i].len() implies sound(#[trigger] self@.children[i][k]) by {
                    if i == place.0 && k == place.1 {
                    } else {
                        assert(self@.children[i][k] == before@.children[i][k]);
                    }
                }
            }
        }
        result
    }
}

} // verus!
