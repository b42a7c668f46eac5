use dot_dsl::{Edge, Node};

#[test]
fn node_without_attrs_has_none() {
    assert_eq!(Node::new("a").attr("foo"), None);
}

#[test]
fn node_attr_is_set() {
    let n = Node::new("a").with_attrs(&[("foo", "1")]);
    assert_eq!(n.attr("foo"), Some("1"));
}

#[test]
fn node_later_call_overrides() {
    let n = Node::new("a")
        .with_attrs(&[("foo", "1")])
        .with_attrs(&[("foo", "2")]);
    assert_eq!(n.attr("foo"), Some("2"));
}

#[test]
fn node_last_occurrence_in_one_list_wins() {
    let n = Node::new("a").with_attrs(&[("foo", "1"), ("bar", "x"), ("foo", "3")]);
    assert_eq!(n.attr("foo"), Some("3"));
    assert_eq!(n.attr("bar"), Some("x"));
}

#[test]
fn node_untouched_keys_keep_values() {
    let n = Node::new("a")
        .with_attrs(&[("color", "red"), ("shape", "box")])
        .with_attrs(&[("shape", "circle")]);
    assert_eq!(n.attr("color"), Some("red"));
    assert_eq!(n.attr("shape"), Some("circle"));
}

#[test]
fn node_name_is_kept() {
    let n = Node::new("start").with_attrs(&[("k", "v")]);
    assert_eq!(n.name(), "start");
    assert_eq!(Node::new("").name(), "");
}

#[test]
fn node_empty_list_changes_nothing() {
    let n = Node::new("a").with_attrs(&[("foo", "1")]);
    let m = n.clone().with_attrs(&[]);
    assert_eq!(n, m);
}

#[test]
fn node_earlier_value_is_independent() {
    let n1 = Node::new("a").with_attrs(&[("foo", "1")]);
    let n2 = n1.clone().with_attrs(&[("foo", "2")]);
    assert_eq!(n1.attr("foo"), Some("1"));
    assert_eq!(n2.attr("foo"), Some("2"));
}

#[test]
fn node_equality_ignores_attr_order() {
    let a = Node::new("a").with_attrs(&[("x", "1"), ("y", "2")]);
    let b = Node::new("a").with_attrs(&[("y", "2"), ("x", "1")]);
    assert_eq!(a, b);
    let c = Node::new("a").with_attrs(&[("y", "2"), ("x", "9")]);
    assert_ne!(a, c);
    assert_ne!(Node::new("a"), Node::new("b"));
    assert_ne!(Node::new("a"), Node::new("a").with_attrs(&[("x", "1")]));
}

#[test]
fn edge_attr_is_set_and_missing_is_none() {
    let e = Edge::new("a", "b").with_attrs(&[("weight", "5")]);
    assert_eq!(e.attr("weight"), Some("5"));
    assert_eq!(e.attr("missing"), None);
}

#[test]
fn edge_endpoint_order_matters() {
    assert_ne!(Edge::new("a", "b"), Edge::new("b", "a"));
    assert_eq!(Edge::new("a", "b"), Edge::new("a", "b"));
}

#[test]
fn edge_later_value_wins() {
    let e = Edge::new("a", "b")
        .with_attrs(&[("weight", "5"), ("style", "dashed")])
        .with_attrs(&[("weight", "7"), ("weight", "8")]);
    assert_eq!(e.attr("weight"), Some("8"));
    assert_eq!(e.attr("style"), Some("dashed"));
}
