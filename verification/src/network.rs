use vstd::prelude::*;
use vstd::string::StringExecFns;
use crate::edges::LinkType;
use crate::edges::NodeRange;
use crate::edges::linked;
use crate::mesh::MeshView;
use crate::node::Node;
use crate::node::adopted;
use crate::node::sound;
use crate::node::relinked;
use crate::node::same_frame;
use crate::node::walkable;
use crate::node::NodeView;
use crate::node::hyphenated;
use crate::plan::Step;
use crate::plan::TraverseError;
use crate::tensor::Tensor;
use crate::traversal::outcome_of;
use crate::traversal::traversed;

verus! {

/// The root of a tree of nodes.
pub struct Network {
    node: Node,
}

impl View for Network {
    type V = NodeView;

    closed spec fn view(&self) -> NodeView {
        self.node@
    }
}

/// The ending of the name of the file that a network is kept in.
pub open spec fn file_ending() -> Seq<char> {
    ".annml"@
}

impl Network {
    /// Whether the network's root satisfies what holds of every node.
    pub open spec fn well_formed(&self) -> bool {
        sound(self@)
    }

    /// A network over the root `node`.
    pub fn new(node: Node) -> (network: Self)
        requires
            node.well_formed(),
        ensures
            network@ == node@,
            network.well_formed(),
    {
        Network { node }
    }

    /// The root node.
    pub fn node(&self) -> (node: &Node)
        ensures
            node@ == self@,
    {
        &self.node
    }

    /// Gives the root node back.
    pub fn into_node(self) -> (node: Node)
        ensures
            node@ == self@,
    {
        self.node
    }

    /// Traverses the tree from the root on the store `tensor`.
    pub fn traverse(&mut self, tensor: &Tensor, build: bool) -> (result: Result<Vec<Step>, TraverseError>)
        requires
            old(self).well_formed(),
        ensures
            final(self).well_formed(),
            same_frame(old(self)@, final(self)@),
            outcome_of(result, final(self)@) == traversed(old(self)@, tensor@, build),
    {
        self.node.traverse(tensor, build)
    }

    /// Gives the root one more child: in a new row if `index` is `None`,
    /// else at the end of the row `index`. A root that is a leaf takes no
    /// child and stays as it is.
    pub fn add_child_to_parent(&mut self, child: Node, index: Option<usize>) -> (result: Result<(), &'static str>)
        requires
            old(self).well_formed(),
            child.well_formed(),
            old(self)@.children.len() > 0 ==> (index matches Some(row) ==> row < old(self)@.children.len()),
        ensures
            final(self).well_formed(),
            old(self)@.children.len() == 0 ==> result is Err && result->Err_0@ == "Unable to add child to leaf."@
                && final(self)@ == old(self)@,
            old(self)@.children.len() > 0 ==> result is Ok && final(self)@ == adopted(old(self)@, child@, index),
    {
        self.node.add_child_to_parent(child, index)
    }

    /// Declares a link of the root. This never fails.
    pub fn link(&mut self, link: LinkType, node_range: NodeRange) -> (result: Result<(), &'static str>)
        ensures
            result is Ok,
            old(self).well_formed() ==> final(self).well_formed(),
            final(self)@ == (NodeView {
                mesh: MeshView { edges: linked(old(self)@.mesh.edges, link, node_range@), ..old(self)@.mesh },
                ..old(self)@
            }),
    {
        self.node.link(link, node_range)
    }

    /// Declares a link of the node that `indices` leads to from the root.
    pub fn link_into_node(&mut self, indices: &[(usize, usize)], link: LinkType, node_range: NodeRange) -> (result:
        Result<(), &'static str>)
        requires
            old(self).well_formed(),
            walkable(old(self)@, indices@, 0),
        ensures
            final(self).well_formed(),
            match result {
                Ok(_) => relinked(old(self)@, indices@, 0, link, node_range@) == Some(final(self)@),
                Err(reason) => relinked(old(self)@, indices@, 0, link, node_range@) is None && final(self)@ == old(
                    self,
                )@ && reason@ == "Unable to index into leaf node."@,
            },
    {
        self.node.link_into_node(indices, link, node_range)
    }

    /// The name of the file that the network is kept in: the root's UUID in
    /// its hyphenated form, then the ending `.annml`.
    pub fn file_name(&self) -> (name: String)
        ensures
            name@ == hyphenated(self@.uuid) + file_ending(),
    {
        let mut name = self.node.name();
        name.append(".annml");
        name
    }
}

} // verus!
