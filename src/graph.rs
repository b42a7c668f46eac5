use vstd::prelude::*;
use crate::attrs::{apply_pairs, merge_map_and_list, pairs_view, AttrMap};
use crate::edge::{Edge, EdgeView};
use crate::node::{Node, NodeView};

verus! {

/// A graph as contracts see it: its nodes and edges in stored order, and its
/// own attributes.
pub struct GraphView {
    pub nodes: Seq<NodeView>,
    pub edges: Seq<EdgeView>,
    pub attrs: Map<Seq<char>, Seq<char>>,
}

/// The views of a list of nodes.
pub open spec fn nodes_view(nodes: Seq<Node>) -> Seq<NodeView> {
    nodes.map_values(|n: Node| n@)
}

/// The views of a list of edges.
pub open spec fn edges_view(edges: Seq<Edge>) -> Seq<EdgeView> {
    edges.map_values(|e: Edge| e@)
}

/// Position `i` holds the first node called `name`.
pub open spec fn is_first_named(nodes: Seq<NodeView>, name: Seq<char>, i: int) -> bool {
    &&& 0 <= i < nodes.len()
    &&& nodes[i].name == name
    &&& forall|j: int| 0 <= j < i ==> nodes[j].name != name
}

/// No node is called `name`.
pub open spec fn none_named(nodes: Seq<NodeView>, name: Seq<char>) -> bool {
    forall|i: int| 0 <= i < nodes.len() ==> nodes[i].name != name
}

/// Appending two lists of nodes one after the other gives the same node
/// sequence as appending their concatenation at once.
pub proof fn lemma_with_nodes_associative(existing: Seq<NodeView>, first: Seq<Node>, second: Seq<Node>)
    ensures
        existing + nodes_view(first + second) == (existing + nodes_view(first)) + nodes_view(second),
{
    assert(existing + nodes_view(first + second) =~= (existing + nodes_view(first)) + nodes_view(
        second,
    ));
}

/// Appending two lists of edges one after the other gives the same edge
/// sequence as appending their concatenation at once.
pub proof fn lemma_with_edges_associative(existing: Seq<EdgeView>, first: Seq<Edge>, second: Seq<Edge>)
    ensures
        existing + edges_view(first + second) == (existing + edges_view(first)) + edges_view(second),
{
    assert(existing + edges_view(first + second) =~= (existing + edges_view(first)) + edges_view(
        second,
    ));
}

/// Appended nodes follow the existing ones, in the order given.
pub proof fn lemma_with_nodes_keeps_order(existing: Seq<NodeView>, n1: Node, n2: Node)
    ensures
        existing + nodes_view(seq![n1, n2]) == existing.push(n1@).push(n2@),
{
    assert(existing + nodes_view(seq![n1, n2]) =~= existing.push(n1@).push(n2@));
}

/// An ordered list of nodes, an ordered list of edges, and attributes of the
/// graph itself. Nodes may share a name; edges may name nodes that are absent.
#[derive(Debug)]
pub struct Graph {
    pub nodes: Vec<Node>,
    pub edges: Vec<Edge>,
    pub attrs: AttrMap,
}

impl View for Graph {
    type V = GraphView;

    open spec fn view(&self) -> GraphView {
        GraphView {
            nodes: nodes_view(self.nodes@),
            edges: edges_view(self.edges@),
            attrs: self.attrs@,
        }
    }
}

impl Graph {
    /// The empty graph.
    pub fn new() -> (r: Graph)
        ensures
            r@.nodes == Seq::<NodeView>::empty(),
            r@.edges == Seq::<EdgeView>::empty(),
            r@.attrs == Map::<Seq<char>, Seq<char>>::empty(),
    {
        let r = Graph { nodes: Vec::new(), edges: Vec::new(), attrs: AttrMap::new() };
        assert(r@.nodes =~= Seq::<NodeView>::empty());
        assert(r@.edges =~= Seq::<EdgeView>::empty());
        r
    }

    /// The graph with copies of `nodes` appended after its own, in order.
    pub fn with_nodes(self, nodes: &[Node]) -> (r: Graph)
        ensures
            r@.nodes == self@.nodes + nodes_view(nodes@),
            r@.edges == self@.edges,
            r@.attrs == self@.attrs,
    {
        let merged = concat_slices(self.nodes.as_slice(), nodes);
        let r = Graph { nodes: merged, edges: self.edges, attrs: self.attrs };
        assert forall|i: int| 0 <= i < r@.nodes.len() implies r@.nodes[i] == (self@.nodes
            + nodes_view(nodes@))[i] by {
            if i < self@.nodes.len() {
                assert(cloned(self.nodes@[i], merged@[i]));
                assert(vstd::pervasive::strictly_cloned(self.nodes@[i], merged@[i]) ==> merged@[i]@
                    == self.nodes@[i]@);
            } else {
                let j = i - self.nodes@.len();
                assert(cloned(nodes@[j], merged@[self.nodes@.len() + j]));
                assert(vstd::pervasive::strictly_cloned(nodes@[j], merged@[i]) ==> merged@[i]@
                    == nodes@[j]@);
            }
        }
        assert(r@.nodes =~= self@.nodes + nodes_view(nodes@));
        r
    }

    /// The graph with copies of `edges` appended after its own, in order.
    pub fn with_edges(self, edges: &[Edge]) -> (r: Graph)
        ensures
            r@.nodes == self@.nodes,
            r@.edges == self@.edges + edges_view(edges@),
            r@.attrs == self@.attrs,
    {
        let merged = concat_slices(self.edges.as_slice(), edges);
        let r = Graph { nodes: self.nodes, edges: merged, attrs: self.attrs };
        assert forall|i: int| 0 <= i < r@.edges.len() implies r@.edges[i] == (self@.edges
            + edges_view(edges@))[i] by {
            if i < self@.edges.len() {
                assert(cloned(self.edges@[i], merged@[i]));
                assert(vstd::pervasive::strictly_cloned(self.edges@[i], merged@[i]) ==> merged@[i]@
                    == self.edges@[i]@);
            } else {
                let j = i - self.edges@.len();
                assert(cloned(edges@[j], merged@[self.edges@.len() + j]));
                assert(vstd::pervasive::strictly_cloned(edges@[j], merged@[i]) ==> merged@[i]@
                    == edges@[j]@);
            }
        }
        assert(r@.edges =~= self@.edges + edges_view(edges@));
        r
    }

    /// The graph with `attrs` merged into its own attributes, in order, the
    /// last value given for a key winning.
    pub fn with_attrs(self, attrs: &[(&str, &str)]) -> (r: Graph)
        ensures
            r@.nodes == self@.nodes,
            r@.edges == self@.edges,
            r@.attrs == apply_pairs(self@.attrs, pairs_view(attrs@)),
    {
        let merged = merge_map_and_list(&self.attrs, attrs);
        Graph { nodes: self.nodes, edges: self.edges, attrs: merged }
    }

    /// The first node, in stored order, called `name`; `None` if there is none.
    pub fn node(&self, name: &str) -> (r: Option<&Node>)
        ensures
            match r {
                Some(n) => exists|i: int|
                    is_first_named(self@.nodes, name@, i) && #[trigger] self@.nodes[i] == n@,
                None => none_named(self@.nodes, name@),
            },
    {
        let r = find_node_by_name(self.nodes.as_slice(), name);
        if let Some(n) = r {
            let ghost i = choose|i: int|
                is_first_named(nodes_view(self.nodes@), name@, i) && #[trigger] self.nodes@[i] == *n;
            assert(self@.nodes[i] == n@);
        }
        r
    }
}

/// A new vector holding clones of the items of `a`, then of `b`, in order.
fn concat_slices<T: Clone>(a: &[T], b: &[T]) -> (r: Vec<T>)
    ensures
        r@.len() == a@.len() + b@.len(),
        forall|i: int| 0 <= i < a@.len() ==> cloned(a@[i], #[trigger] r@[i]),
        forall|i: int| 0 <= i < b@.len() ==> cloned(b@[i], #[trigger] r@[a@.len() + i]),
{
    let mut out: Vec<T> = Vec::new();
    let mut i: usize = 0;
    while i < a.len()
        invariant
            0 <= i <= a@.len(),
            out@.len() == i,
            forall|j: int| 0 <= j < i ==> cloned(a@[j], #[trigger] out@[j]),
        decreases a@.len() - i,
    {
        out.push(a[i].clone());
        i = i + 1;
    }
    let mut i: usize = 0;
    while i < b.len()
        invariant
            0 <= i <= b@.len(),
            out@.len() == a@.len() + i,
            forall|j: int| 0 <= j < a@.len() ==> cloned(a@[j], #[trigger] out@[j]),
            forall|j: int| 0 <= j < i ==> cloned(b@[j], #[trigger] out@[a@.len() + j]),
        decreases b@.len() - i,
    {
        out.push(b[i].clone());
        i = i + 1;
    }
    out
}

/// The first node of `nodes` called `name`, by a scan from the front.
fn find_node_by_name<'a>(nodes: &'a [Node], name: &str) -> (r: Option<&'a Node>)
    ensures
        match r {
            Some(n) => exists|i: int|
                is_first_named(nodes_view(nodes@), name@, i) && #[trigger] nodes@[i] == *n,
            None => none_named(nodes_view(nodes@), name@),
        },
{
    let target = name.to_owned();
    let mut i: usize = 0;
    while i < nodes.len()
        invariant
            0 <= i <= nodes@.len(),
            target@ == name@,
            forall|j: int| 0 <= j < i ==> (#[trigger] nodes@[j])@.name != name@,
        decreases nodes@.len() - i,
    {
        if nodes[i].has_name(&target) {
            assert(is_first_named(nodes_view(nodes@), name@, i as int));
            return Some(&nodes[i]);
        }
        i = i + 1;
    }
    None
}

/// Whether the two lists hold equal nodes, position by position.
fn same_nodes(a: &Vec<Node>, b: &Vec<Node>) -> (r: bool)
    ensures
        r == (nodes_view(a@) == nodes_view(b@)),
{
    if a.len() != b.len() {
        assert(nodes_view(a@).len() != nodes_view(b@).len());
        return false;
    }
    let mut i: usize = 0;
    while i < a.len()
        invariant
            a@.len() == b@.len(),
            0 <= i <= a@.len(),
            forall|j: int| 0 <= j < i ==> (#[trigger] a@[j])@ == b@[j]@,
        decreases a@.len() - i,
    {
        if a[i] != b[i] {
            assert(nodes_view(a@)[i as int] != nodes_view(b@)[i as int]);
            return false;
        }
        i = i + 1;
    }
    assert(nodes_view(a@) =~= nodes_view(b@));
    true
}

/// Whether the two lists hold equal edges, position by position.
fn same_edges(a: &Vec<Edge>, b: &Vec<Edge>) -> (r: bool)
    ensures
        r == (edges_view(a@) == edges_view(b@)),
{
    if a.len() != b.len() {
        assert(edges_view(a@).len() != edges_view(b@).len());
        return false;
    }
    let mut i: usize = 0;
    while i < a.len()
        invariant
            a@.len() == b@.len(),
            0 <= i <= a@.len(),
            forall|j: int| 0 <= j < i ==> (#[trigger] a@[j])@ == b@[j]@,
        decreases a@.len() - i,
    {
        if a[i] != b[i] {
            assert(edges_view(a@)[i as int] != edges_view(b@)[i as int]);
            return false;
        }
        i = i + 1;
    }
    assert(edges_view(a@) =~= edges_view(b@));
    true
}

impl PartialEq for Graph {
    fn eq(&self, other: &Graph) -> (r: bool) {
        same_nodes(&self.nodes, &other.nodes) && same_edges(&self.edges, &other.edges)
            && self.attrs == other.attrs
    }
}

impl vstd::std_specs::cmp::PartialEqSpecImpl for Graph {
    open spec fn obeys_eq_spec() -> bool {
        true
    }

    open spec fn eq_spec(&self, other: &Graph) -> bool {
        self@ == other@
    }
}

impl Eq for Graph {

}

} // verus!
