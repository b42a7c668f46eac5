use vstd::prelude::*;
use crate::attrs::{apply_pairs, merge_map_and_list, pairs_view, AttrMap};

verus! {

/// A node as contracts see it: its name and its attributes.
pub struct NodeView {
    pub name: Seq<char>,
    pub attrs: Map<Seq<char>, Seq<char>>,
}

/// A named node with attributes. The name is fixed once the node is made.
#[derive(Debug)]
pub struct Node {
    name: String,
    attrs: AttrMap,
}

impl View for Node {
    type V = NodeView;

    closed spec fn view(&self) -> NodeView {
        NodeView { name: self.name@, attrs: self.attrs@ }
    }
}

impl Node {
    /// A node called `name`, without attributes. Any name is accepted.
    pub fn new(name: &str) -> (r: Node)
        ensures
            r@.name == name@,
            r@.attrs == Map::<Seq<char>, Seq<char>>::empty(),
    {
        Node { name: name.to_owned(), attrs: AttrMap::new() }
    }

    /// The same node with `attrs` merged into its attributes, in order, the
    /// last value given for a key winning.
    pub fn with_attrs(self, attrs: &[(&str, &str)]) -> (r: Node)
        ensures
            r@.name == self@.name,
            r@.attrs == apply_pairs(self@.attrs, pairs_view(attrs@)),
    {
        let merged = merge_map_and_list(&self.attrs, attrs);
        Node { name: self.name, attrs: merged }
    }

    /// The value of attribute `key`, if the node has it.
    pub fn attr(&self, key: &str) -> (r: Option<&str>)
        ensures
            match r {
                Some(v) => self@.attrs.contains_key(key@) && v@ == self@.attrs[key@],
                None => !self@.attrs.contains_key(key@),
            },
    {
        self.attrs.get(key)
    }

    /// The node's name.
    pub fn name(&self) -> (r: &str)
        ensures
            r@ == self@.name,
    {
        self.name.as_str()
    }

    /// Whether the node is called `name`.
    pub(crate) fn has_name(&self, name: &String) -> (r: bool)
        ensures
            r == (self@.name == name@),
    {
        self.name == *name
    }
}

impl Clone for Node {
    fn clone(&self) -> (r: Node)
        ensures
            r@ == self@,
    {
        Node { name: self.name.clone(), attrs: self.attrs.clone() }
    }
}

impl PartialEq for Node {
    fn eq(&self, other: &Node) -> (r: bool) {
        self.name == other.name && self.attrs == other.attrs
    }
}

impl vstd::std_specs::cmp::PartialEqSpecImpl for Node {
    open spec fn obeys_eq_spec() -> bool {
        true
    }

    open spec fn eq_spec(&self, other: &Node) -> bool {
        self@ == other@
    }
}

impl Eq for Node {

}

} // verus!
