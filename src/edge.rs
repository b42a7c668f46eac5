use vstd::prelude::*;
use crate::attrs::{apply_pairs, merge_map_and_list, pairs_view, AttrMap};

verus! {

/// An edge as contracts see it: its two endpoint names, in order, and its
/// attributes.
pub struct EdgeView {
    pub node1: Seq<char>,
    pub node2: Seq<char>,
    pub attrs: Map<Seq<char>, Seq<char>>,
}

/// An edge from `node1` to `node2` with attributes. The endpoints are plain
/// names: nothing ties them to the nodes of a graph.
#[derive(Debug)]
pub struct Edge {
    node1: String,
    node2: String,
    attrs: AttrMap,
}

impl View for Edge {
    type V = EdgeView;

    closed spec fn view(&self) -> EdgeView {
        EdgeView { node1: self.node1@, node2: self.node2@, attrs: self.attrs@ }
    }
}

impl Edge {
    /// An edge between the two names, in the order given, without attributes.
    pub fn new(node1: &str, node2: &str) -> (r: Edge)
        ensures
            r@.node1 == node1@,
            r@.node2 == node2@,
            r@.attrs == Map::<Seq<char>, Seq<char>>::empty(),
    {
        Edge { node1: node1.to_owned(), node2: node2.to_owned(), attrs: AttrMap::new() }
    }

    /// The same edge with `attrs` merged into its attributes, in order, the
    /// last value given for a key winning.
    pub fn with_attrs(self, attrs: &[(&str, &str)]) -> (r: Edge)
        ensures
            r@.node1 == self@.node1,
            r@.node2 == self@.node2,
            r@.attrs == apply_pairs(self@.attrs, pairs_view(attrs@)),
    {
        let merged = merge_map_and_list(&self.attrs, attrs);
        Edge { node1: self.node1, node2: self.node2, attrs: merged }
    }

    /// The value of attribute `key`, if the edge has it.
    pub fn attr(&self, key: &str) -> (r: Option<&str>)
        ensures
            match r {
                Some(v) => self@.attrs.contains_key(key@) && v@ == self@.attrs[key@],
                None => !self@.attrs.contains_key(key@),
            },
    {
        self.attrs.get(key)
    }
}

impl Clone for Edge {
    fn clone(&self) -> (r: Edge)
        ensures
            r@ == self@,
    {
        Edge { node1: self.node1.clone(), node2: self.node2.clone(), attrs: self.attrs.clone() }
    }
}

impl PartialEq for Edge {
    fn eq(&self, other: &Edge) -> (r: bool) {
        self.node1 == other.node1 && self.node2 == other.node2 && self.attrs == other.attrs
    }
}

impl vstd::std_specs::cmp::PartialEqSpecImpl for Edge {
    open spec fn obeys_eq_spec() -> bool {
        true
    }

    open spec fn eq_spec(&self, other: &Edge) -> bool {
        self@ == other@
    }
}

impl Eq for Edge {

}

} // verus!
