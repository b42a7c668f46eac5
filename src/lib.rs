//! Immutable, builder-style descriptions of graphs: named nodes, edges between
//! names, and string attributes on all three, merged last-write-wins.

pub mod attrs;
pub mod edge;
pub mod graph;
pub mod node;

pub use attrs::{merge_map_and_list, AttrMap};
pub use edge::Edge;
pub use graph::Graph;
pub use node::Node;
