use diagramma::layout::flowchart::{assign_layers, reorder_layers, tier_rows};
use diagramma::model::{
    ArrowStyle, ColorRamp, Direction, Edge, EdgeStyle, FlowchartSpec, Node, NodeId, NodeShape,
    Theme,
};

fn node(id: &str) -> Node {
    Node {
        id: NodeId::new(id),
        label: id.to_string(),
        subtitle: None,
        color: ColorRamp::Blue,
        shape: NodeShape::Rect,
    }
}

fn edge(from: &str, to: &str) -> Edge {
    Edge {
        from: NodeId::new(from),
        to: NodeId::new(to),
        label: None,
        style: EdgeStyle::Solid,
        arrow: ArrowStyle::Closed,
    }
}

fn spec(nodes: &[&str], edges: &[(&str, &str)]) -> FlowchartSpec {
    FlowchartSpec {
        direction: Direction::TopDown,
        nodes: nodes.iter().map(|id| node(id)).collect(),
        edges: edges.iter().map(|(f, t)| edge(f, t)).collect(),
        theme: Theme::Light,
    }
}

fn names(layers: &[Vec<NodeId>]) -> Vec<Vec<String>> {
    layers
        .iter()
        .map(|layer| layer.iter().map(|id| id.as_str().to_string()).collect())
        .collect()
}

fn expect(rows: &[&[&str]]) -> Vec<Vec<String>> {
    rows.iter()
        .map(|row| row.iter().map(|s| s.to_string()).collect())
        .collect()
}

#[test]
fn assign_layers_two_connected_nodes() {
    let s = spec(&["n1", "n2"], &[("n1", "n2")]);
    assert_eq!(names(&assign_layers(&s)), expect(&[&["n1"], &["n2"]]));
}

#[test]
fn assign_layers_empty_spec_has_no_layer() {
    let s = spec(&[], &[]);
    assert!(assign_layers(&s).is_empty());
}

#[test]
fn assign_layers_two_cycle_reverses_back_edge() {
    let s = spec(&["a", "b"], &[("a", "b"), ("b", "a")]);
    assert_eq!(names(&assign_layers(&s)), expect(&[&["a"], &["b"]]));
}

#[test]
fn assign_layers_three_cycle_places_every_node() {
    let s = spec(&["a", "b", "c"], &[("a", "b"), ("b", "c"), ("c", "a")]);
    assert_eq!(names(&assign_layers(&s)), expect(&[&["a"], &["b"], &["c"]]));
}

#[test]
fn assign_layers_longest_path() {
    let s = spec(&["a", "b", "c"], &[("a", "b"), ("b", "c"), ("a", "c")]);
    assert_eq!(names(&assign_layers(&s)), expect(&[&["a"], &["b"], &["c"]]));
    let s = spec(
        &["d", "c", "b", "a"],
        &[("a", "d"), ("a", "b"), ("b", "c"), ("c", "d")],
    );
    assert_eq!(
        names(&assign_layers(&s)),
        expect(&[&["a"], &["b"], &["c"], &["d"]])
    );
}

#[test]
fn assign_layers_ignores_self_loops_and_unknown_ends() {
    let s = spec(&["a", "b"], &[("a", "a"), ("a", "zz"), ("zz", "b")]);
    assert_eq!(names(&assign_layers(&s)), expect(&[&["a", "b"]]));
}

#[test]
fn assign_layers_places_each_node_once() {
    let s = spec(
        &["a", "b", "c", "d"],
        &[("a", "b"), ("a", "b"), ("a", "c"), ("b", "d"), ("c", "d")],
    );
    assert_eq!(
        names(&assign_layers(&s)),
        expect(&[&["a"], &["b", "c"], &["d"]])
    );
}

#[test]
fn assign_layers_sources_in_node_order() {
    let s = spec(&["x", "a", "b"], &[("a", "x")]);
    assert_eq!(names(&assign_layers(&s)), expect(&[&["a", "b"], &["x"]]));
}

#[test]
fn reorder_layers_respects_barycenter_ordering() {
    let s = spec(&["n1", "n2", "n3", "n4"], &[("n1", "n4"), ("n2", "n3")]);
    let mut layers = assign_layers(&s);
    reorder_layers(&mut layers, &s);
    assert_eq!(names(&layers), expect(&[&["n1", "n2"], &["n4", "n3"]]));
}

#[test]
fn reorder_layers_moves_nodes_toward_their_predecessors() {
    let s = spec(
        &["a", "c", "y", "x", "m", "n"],
        &[("a", "y"), ("c", "y"), ("a", "x"), ("y", "m"), ("x", "n")],
    );
    let mut layers = assign_layers(&s);
    assert_eq!(
        names(&layers),
        expect(&[&["a", "c"], &["y", "x"], &["m", "n"]])
    );
    reorder_layers(&mut layers, &s);
    assert_eq!(
        names(&layers),
        expect(&[&["a", "c"], &["x", "y"], &["n", "m"]])
    );
}

#[test]
fn reorder_layers_keeps_ties_in_place() {
    let s = spec(&["a", "p", "q"], &[("a", "p"), ("a", "q")]);
    let mut layers = assign_layers(&s);
    reorder_layers(&mut layers, &s);
    assert_eq!(names(&layers), expect(&[&["a"], &["p", "q"]]));
}

#[test]
fn reorder_layers_leaves_empty_input_alone() {
    let s = spec(&[], &[]);
    let mut layers: Vec<Vec<NodeId>> = Vec::new();
    reorder_layers(&mut layers, &s);
    assert!(layers.is_empty());
}

#[test]
fn tier_rows_wrap_after_four_nodes() {
    let layer: Vec<NodeId> = (1..=6).map(|i| NodeId::new(&format!("n{i}"))).collect();
    let rows = tier_rows(&layer);
    assert_eq!(
        names(&rows),
        expect(&[&["n1", "n2", "n3", "n4"], &["n5", "n6"]])
    );
}

#[test]
fn tier_rows_exactly_four_is_one_row() {
    let layer: Vec<NodeId> = (1..=4).map(|i| NodeId::new(&format!("n{i}"))).collect();
    assert_eq!(tier_rows(&layer).len(), 1);
    assert!(tier_rows(&Vec::new()).is_empty());
}

#[test]
fn layer_starts_in_breadth_first_meeting_order() {
    let s = spec(&["a", "x", "y"], &[("a", "y"), ("a", "x")]);
    let mut layers = assign_layers(&s);
    assert_eq!(names(&layers), expect(&[&["a"], &["y", "x"]]));
    reorder_layers(&mut layers, &s);
    assert_eq!(names(&layers), expect(&[&["a"], &["y", "x"]]));
}

#[test]
fn unmet_nodes_follow_in_node_order() {
    let s = spec(&["c", "s", "b", "t"], &[("s", "t"), ("b", "c"), ("c", "b")]);
    assert_eq!(names(&assign_layers(&s)), expect(&[&["s", "c"], &["t", "b"]]));
}
