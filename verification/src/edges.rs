use vstd::prelude::*;

verus! {

/// Which named tensors pass along a link.
#[derive(Clone, Debug)]
pub enum NodeRange {
    /// Only the tensors whose name is listed pass; the others are dropped.
    Selective(Vec<String>),
    /// Every tensor passes.
    All,
}

/// The three kinds of link a node can declare.
#[derive(Clone, Copy, Debug)]
pub enum LinkType {
    /// Pull in the output of the sibling at `(row, column)` of the parent's grid.
    InputsFromPeerOutputs((usize, usize)),
    InputsFromParent,
    OutputsToParent,
}

/// A filter over tensor names.
pub enum RangeView {
    Selective(Set<Seq<char>>),
    All,
}

impl RangeView {
    /// Whether a tensor of this name passes the filter.
    pub open spec fn admits(self, name: Seq<char>) -> bool {
        match self {
            RangeView::Selective(names) => names.contains(name),
            RangeView::All => true,
        }
    }
}

/// The set of the names listed in `names`.
pub open spec fn name_set(names: Seq<String>) -> Set<Seq<char>> {
    Set::new(|name: Seq<char>| exists|i: int| 0 <= i < names.len() && #[trigger] names[i]@ == name)
}

impl View for NodeRange {
    type V = RangeView;

    open spec fn view(&self) -> RangeView {
        match self {
            NodeRange::Selective(names) => RangeView::Selective(name_set(names@)),
            NodeRange::All => RangeView::All,
        }
    }
}

impl NodeRange {
    /// Whether a tensor called `name` passes this range.
    pub fn admits(&self, name: &str) -> (passes: bool)
        ensures
            passes == self@.admits(name@),
    {
        match self {
            NodeRange::All => true,
            NodeRange::Selective(names) => {
                let wanted: String = name.to_owned();
                let mut i: usize = 0;
                while i < names.len()
                    invariant
                        i <= names.len(),
                        wanted@ == name@,
                        self@ == RangeView::Selective(name_set(names@)),
                        forall|j: int| 0 <= j < i ==> (#[trigger] names@[j])@ != name@,
                    decreases names.len() - i,
                {
                    if names[i] == wanted {
                        assert(names@[i as int]@ == name@);
                        return true;
                    }
                    i += 1;
                }
                false
            },
        }
    }

    /// A copy of this range that admits the same names.
    pub fn duplicate(&self) -> (copy: NodeRange)
        ensures
            copy@ == self@,
    {
        match self {
            NodeRange::All => NodeRange::All,
            NodeRange::Selective(names) => {
                let mut list: Vec<String> = Vec::new();
                let mut i: usize = 0;
                while i < names.len()
                    invariant
                        i <= names.len(),
                        list.len() == i,
                        forall|j: int| 0 <= j < i ==> (#[trigger] list@[j])@ == names@[j]@,
                    decreases names.len() - i,
                {
                    list.push(names[i].clone());
                    i += 1;
                }
                assert(name_set(list@) =~= name_set(names@)) by {
                    assert forall|name: Seq<char>| name_set(list@).contains(name) implies name_set(names@).contains(name) by {
                        let j = choose|j: int| 0 <= j < list@.len() && #[trigger] list@[j]@ == name;
                        assert(names@[j]@ == name);
                    }
                    assert forall|name: Seq<char>| name_set(names@).contains(name) implies name_set(list@).contains(name) by {
                        let j = choose|j: int| 0 <= j < names@.len() && #[trigger] names@[j]@ == name;
                        assert(list@[j]@ == name);
                    }
                }
                NodeRange::Selective(list)
            },
        }
    }
}

/// One declared pull from a sibling: its place in the parent's grid and the
/// filter on what it sends.
pub struct PeerLink {
    pub row: usize,
    pub column: usize,
    pub range: NodeRange,
}

/// A peer link as a plain value.
pub struct PeerLinkView {
    pub row: nat,
    pub column: nat,
    pub range: RangeView,
}

impl View for PeerLink {
    type V = PeerLinkView;

    open spec fn view(&self) -> PeerLinkView {
        PeerLinkView { row: self.row as nat, column: self.column as nat, range: self.range@ }
    }
}

/// The routing table of one node.
pub struct Edges {
    pub input_from_parent: NodeRange,
    pub output_to_parent: NodeRange,
    pub input_from_peer_output: Vec<PeerLink>,
}

/// A routing table as plain values.
pub struct EdgesView {
    pub input_from_parent: RangeView,
    pub output_to_parent: RangeView,
    pub peers: Seq<PeerLinkView>,
}

impl View for Edges {
    type V = EdgesView;

    open spec fn view(&self) -> EdgesView {
        EdgesView {
            input_from_parent: self.input_from_parent@,
            output_to_parent: self.output_to_parent@,
            peers: Seq::new(self.input_from_peer_output@.len(), |i: int| self.input_from_peer_output@[i]@),
        }
    }
}

/// The table that results from declaring one more link.
///
/// The two parent links replace what was set before; a peer link is added
/// behind those already declared.
pub open spec fn linked(edges: EdgesView, link: LinkType, range: RangeView) -> EdgesView {
    match link {
        LinkType::InputsFromPeerOutputs(place) => EdgesView {
            peers: edges.peers.push(PeerLinkView { row: place.0 as nat, column: place.1 as nat, range }),
            ..edges
        },
        LinkType::InputsFromParent => EdgesView { input_from_parent: range, ..edges },
        LinkType::OutputsToParent => EdgesView { output_to_parent: range, ..edges },
    }
}

impl Edges {
    /// A table that takes everything from the parent, pulls from no sibling,
    /// and sends the parent what `output_to_parent` admits.
    pub fn new(output_to_parent: NodeRange) -> (edges: Self)
        ensures
            edges@ == (EdgesView {
                input_from_parent: RangeView::All,
                output_to_parent: output_to_parent@,
                peers: Seq::empty(),
            }),
    {
        let edges = Edges {
            input_from_parent: NodeRange::All,
            output_to_parent,
            input_from_peer_output: Vec::new(),
        };
        assert(edges@.peers =~= Seq::empty());
        edges
    }

    /// Declares a link. This never fails.
    pub fn link(&mut self, link: LinkType, node_range: NodeRange) -> (result: Result<(), &'static str>)
        ensures
            result is Ok,
            final(self)@ == linked(old(self)@, link, node_range@),
    {
        match link {
            LinkType::InputsFromPeerOutputs((row, column)) => {
                self.input_from_peer_output.push(PeerLink { row, column, range: node_range });
                assert(self@.peers =~= old(self)@.peers.push(
                    PeerLinkView { row: row as nat, column: column as nat, range: node_range@ },
                ));
            },
            LinkType::InputsFromParent => {
                self.input_from_parent = node_range;
            },
            LinkType::OutputsToParent => {
                self.output_to_parent = node_range;
            },
        }
        Ok(())
    }
}

} // verus!
