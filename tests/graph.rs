use dot_dsl::{merge_map_and_list, AttrMap, Edge, Graph, Node};

#[test]
fn empty_graph() {
    let g = Graph::new();
    assert!(g.nodes.is_empty());
    assert!(g.edges.is_empty());
    assert_eq!(g.attrs.get("anything"), None);
}

#[test]
fn find_node_by_name_in_graph() {
    let g = Graph::new().with_nodes(&[Node::new("a"), Node::new("b")]);
    assert_eq!(g.node("b").map(|n| n.name()), Some("b"));
}

#[test]
fn missing_node_is_none() {
    let g = Graph::new().with_nodes(&[Node::new("a")]);
    assert!(g.node("z").is_none());
}

#[test]
fn first_of_duplicate_names_is_found() {
    let first = Node::new("a").with_attrs(&[("rank", "1")]);
    let second = Node::new("a").with_attrs(&[("rank", "2")]);
    let g = Graph::new().with_nodes(&[first.clone(), second]);
    assert_eq!(g.nodes.len(), 2);
    assert_eq!(g.node("a"), Some(&first));
    assert_eq!(g.node("a").and_then(|n| n.attr("rank")), Some("1"));
}

#[test]
fn nodes_keep_order() {
    let g = Graph::new()
        .with_nodes(&[Node::new("x")])
        .with_nodes(&[Node::new("n1"), Node::new("n2")]);
    let names: Vec<&str> = g.nodes.iter().map(|n| n.name()).collect();
    assert_eq!(names, vec!["x", "n1", "n2"]);
}

#[test]
fn with_nodes_in_one_call_or_two() {
    let a = Node::new("a");
    let b = Node::new("b");
    let at_once = Graph::new().with_nodes(&[a.clone(), b.clone()]);
    let in_two = Graph::new().with_nodes(&[a]).with_nodes(&[b]);
    assert_eq!(at_once, in_two);
}

#[test]
fn with_edges_in_one_call_or_two() {
    let e1 = Edge::new("a", "b");
    let e2 = Edge::new("b", "c").with_attrs(&[("color", "blue")]);
    let at_once = Graph::new().with_edges(&[e1.clone(), e2.clone()]);
    let in_two = Graph::new().with_edges(&[e1.clone()]).with_edges(&[e2.clone()]);
    assert_eq!(at_once, in_two);
    assert_eq!(at_once.edges, vec![e1, e2]);
}

#[test]
fn edges_need_no_matching_nodes() {
    let g = Graph::new().with_edges(&[Edge::new("p", "q")]);
    assert_eq!(g.edges.len(), 1);
    assert!(g.nodes.is_empty());
}

#[test]
fn graph_attrs_merge() {
    let g = Graph::new()
        .with_attrs(&[("foo", "1"), ("bar", "true")])
        .with_attrs(&[("foo", "2")]);
    assert_eq!(g.attrs.get("foo"), Some("2"));
    assert_eq!(g.attrs.get("bar"), Some("true"));
    assert_eq!(g.attrs.get("baz"), None);
}

#[test]
fn graph_with_attrs_leaves_nodes_and_edges() {
    let g = Graph::new()
        .with_nodes(&[Node::new("a")])
        .with_edges(&[Edge::new("a", "b")])
        .with_attrs(&[("rankdir", "LR")]);
    assert_eq!(g.nodes, vec![Node::new("a")]);
    assert_eq!(g.edges, vec![Edge::new("a", "b")]);
}

#[test]
fn graphs_differ_by_node_order() {
    let g1 = Graph::new().with_nodes(&[Node::new("a"), Node::new("b")]);
    let g2 = Graph::new().with_nodes(&[Node::new("b"), Node::new("a")]);
    assert_ne!(g1, g2);
}

#[test]
fn merge_leaves_source_unchanged() {
    let g1 = Graph::new().with_attrs(&[("foo", "1")]);
    let merged = merge_map_and_list(&g1.attrs, &[("foo", "2"), ("new", "x")]);
    assert_eq!(g1.attrs.get("foo"), Some("1"));
    assert_eq!(g1.attrs.get("new"), None);
    assert_eq!(merged.get("foo"), Some("2"));
    assert_eq!(merged.get("new"), Some("x"));
}

#[test]
fn merge_into_empty_map() {
    let m = merge_map_and_list(&AttrMap::new(), &[("k", "1"), ("j", "2"), ("k", "3")]);
    assert_eq!(m.get("k"), Some("3"));
    assert_eq!(m.get("j"), Some("2"));
    let same = merge_map_and_list(&m, &[]);
    assert_eq!(same, m);
}

#[test]
fn merge_order_of_distinct_keys_is_irrelevant() {
    let base = merge_map_and_list(&AttrMap::new(), &[("a", "0")]);
    let m1 = merge_map_and_list(&base, &[("a", "1"), ("b", "2")]);
    let m2 = merge_map_and_list(&base, &[("b", "2"), ("a", "1")]);
    assert_eq!(m1, m2);
    assert_ne!(m1, base);
}
