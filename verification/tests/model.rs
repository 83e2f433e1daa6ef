use diagramma::model::{
    default_arrow_style, validate_spec, ArrowStyle, ColorRamp, Container, Control, DiagramSpec,
    Direction, Edge, EdgeStyle, Element, FlowchartSpec, IllustrativeSpec, InteractiveSpec, Node,
    NodeId, NodeShape, StructureSpec, Theme, ValidationError,
};

fn node(id: &str, label: &str) -> Node {
    Node {
        id: NodeId::new(id),
        label: label.to_string(),
        subtitle: None,
        color: ColorRamp::Purple,
        shape: NodeShape::Rect,
    }
}

fn edge(from: &str, to: &str) -> Edge {
    Edge {
        from: NodeId::new(from),
        to: NodeId::new(to),
        label: None,
        style: EdgeStyle::Solid,
        arrow: ArrowStyle::Closed,
    }
}

fn flowchart(nodes: Vec<Node>, edges: Vec<Edge>) -> DiagramSpec {
    DiagramSpec::Flowchart(FlowchartSpec {
        direction: Direction::TopDown,
        nodes,
        edges,
        theme: Theme::Light,
    })
}

fn make_container(levels: usize) -> Container {
    Container {
        id: NodeId::new(&format!("lvl{levels}")),
        label: format!("lvl{levels}"),
        color: ColorRamp::Green,
        children: if levels == 0 {
            Vec::new()
        } else {
            vec![Element::Container(make_container(levels - 1))]
        },
    }
}

#[test]
fn version_is_set() {
    assert!(!diagramma::model::version().is_empty());
    assert_eq!(diagramma::model::version(), "0.2.1");
    assert_eq!(diagramma::layout::version(), "0.2.1");
    assert_eq!(diagramma::svg::version(), "0.2.1");
}

#[test]
fn flowchart_validation_handles_missing_nodes() {
    let nodes = vec![Node {
        id: NodeId::new("a"),
        label: "A".to_string(),
        subtitle: None,
        color: ColorRamp::Purple,
        shape: NodeShape::Rect,
    }];
    let edges = vec![Edge {
        from: NodeId::new("a"),
        to: NodeId::new("b"),
        label: None,
        style: EdgeStyle::Solid,
        arrow: ArrowStyle::Closed,
    }];
    let spec = DiagramSpec::Flowchart(FlowchartSpec {
        direction: Direction::TopDown,
        nodes,
        edges,
        theme: Theme::Light,
    });
    let err = validate_spec(&spec).unwrap_err();
    assert!(matches!(err, ValidationError::MissingReference(id) if id == NodeId::new("b")));
}

#[test]
fn structural_depth_limit_triggered() {
    let deep = make_container(8);
    let spec = DiagramSpec::Structure(StructureSpec {
        containers: vec![deep],
        edges: vec![],
        theme: Theme::Dark,
    });
    assert!(matches!(
        validate_spec(&spec).unwrap_err(),
        ValidationError::ContainerDepth { .. }
    ));
}

#[test]
fn test_validate_self_referencing_edge() {
    let nodes = vec![Node {
        id: NodeId::new("a"),
        label: "A".to_string(),
        subtitle: None,
        color: ColorRamp::Blue,
        shape: NodeShape::Rect,
    }];
    let edges = vec![Edge {
        from: NodeId::new("a"),
        to: NodeId::new("a"),
        label: None,
        style: EdgeStyle::Solid,
        arrow: ArrowStyle::Closed,
    }];
    let spec = DiagramSpec::Flowchart(FlowchartSpec {
        direction: Direction::TopDown,
        nodes,
        edges,
        theme: Theme::Light,
    });
    let err = validate_spec(&spec).unwrap_err();
    assert!(
        matches!(err, ValidationError::InvalidEdge(msg) if msg.contains("Self-referencing edge"))
    );
}

#[test]
fn valid_flowchart_passes() {
    let spec = flowchart(vec![node("a", "A"), node("b", "B")], vec![edge("a", "b")]);
    assert_eq!(validate_spec(&spec), Ok(()));
}

#[test]
fn duplicate_flowchart_node_is_reported() {
    let spec = flowchart(vec![node("a", "A"), node("b", "B"), node("a", "C")], vec![]);
    assert_eq!(validate_spec(&spec), Err(ValidationError::DuplicateId(NodeId::new("a"))));
}

#[test]
fn duplicate_is_reported_before_edge_problems() {
    let spec = flowchart(vec![node("a", "A"), node("a", "B")], vec![edge("x", "x")]);
    assert_eq!(validate_spec(&spec), Err(ValidationError::DuplicateId(NodeId::new("a"))));
}

#[test]
fn first_bad_edge_decides() {
    let spec = flowchart(
        vec![node("a", "A"), node("b", "B")],
        vec![edge("a", "b"), edge("q", "b"), edge("a", "a")],
    );
    assert_eq!(validate_spec(&spec), Err(ValidationError::MissingReference(NodeId::new("q"))));
    let spec = flowchart(vec![node("a", "A")], vec![edge("a", "z")]);
    assert_eq!(validate_spec(&spec), Err(ValidationError::MissingReference(NodeId::new("z"))));
    let spec = flowchart(vec![node("a", "A")], vec![edge("b", "b")]);
    assert_eq!(
        validate_spec(&spec),
        Err(ValidationError::InvalidEdge("Self-referencing edge: b".to_string()))
    );
}

#[test]
fn structure_nesting_limits() {
    // Containers at depth 0..=5 are accepted, one more level is refused.
    let ok = DiagramSpec::Structure(StructureSpec {
        containers: vec![make_container(5)],
        edges: vec![],
        theme: Theme::Light,
    });
    assert_eq!(validate_spec(&ok), Ok(()));
    let too_deep = DiagramSpec::Structure(StructureSpec {
        containers: vec![make_container(6)],
        edges: vec![],
        theme: Theme::Light,
    });
    assert_eq!(validate_spec(&too_deep), Err(ValidationError::ContainerDepth { limit: 6 }));
}

#[test]
fn structure_edges_use_all_ids() {
    let tree = Container {
        id: NodeId::new("root"),
        label: "System".to_string(),
        color: ColorRamp::Blue,
        children: vec![
            Element::Node(node("api", "API")),
            Element::Container(Container {
                id: NodeId::new("svc"),
                label: "Services".to_string(),
                color: ColorRamp::Purple,
                children: vec![Element::Node(node("svc-a", "Service A"))],
            }),
        ],
    };
    let spec = DiagramSpec::Structure(StructureSpec {
        containers: vec![tree],
        edges: vec![edge("api", "svc-a"), edge("root", "svc")],
        theme: Theme::Light,
    });
    assert_eq!(validate_spec(&spec), Ok(()));

    let dup = DiagramSpec::Structure(StructureSpec {
        containers: vec![Container {
            id: NodeId::new("root"),
            label: "R".to_string(),
            color: ColorRamp::Blue,
            children: vec![Element::Node(node("root", "again"))],
        }],
        edges: vec![],
        theme: Theme::Light,
    });
    assert_eq!(validate_spec(&dup), Err(ValidationError::DuplicateId(NodeId::new("root"))));
}

#[test]
fn illustrative_rules() {
    let empty = DiagramSpec::Illustrative(IllustrativeSpec {
        elements: vec![],
        annotations: vec!["note".to_string()],
        theme: Theme::Auto,
    });
    assert_eq!(validate_spec(&empty), Err(ValidationError::EmptyDiagram));
    let one = DiagramSpec::Illustrative(IllustrativeSpec {
        elements: vec![Element::Node(node("x", "X")), Element::Node(node("y", "Y"))],
        annotations: vec![],
        theme: Theme::Auto,
    });
    assert_eq!(validate_spec(&one), Ok(()));
    let dup = DiagramSpec::Illustrative(IllustrativeSpec {
        elements: vec![Element::Node(node("x", "X")), Element::Node(node("x", "Y"))],
        annotations: vec![],
        theme: Theme::Auto,
    });
    assert_eq!(validate_spec(&dup), Err(ValidationError::DuplicateId(NodeId::new("x"))));
}

#[test]
fn interactive_checks_base_then_controls() {
    let base = flowchart(vec![node("a", "A")], vec![]);
    let spec = DiagramSpec::Interactive(InteractiveSpec {
        base: Box::new(base),
        controls: vec![
            Control::Toggle { id: NodeId::new("a"), label: "Show".to_string() },
            Control::Slider {
                id: NodeId::new("s"),
                label: "Speed".to_string(),
                min: 0,
                max: 10,
                step: Some(1),
            },
        ],
    });
    // Control ids live apart from the diagram's ids.
    assert_eq!(validate_spec(&spec), Ok(()));

    let dup_controls = DiagramSpec::Interactive(InteractiveSpec {
        base: Box::new(flowchart(vec![node("a", "A")], vec![])),
        controls: vec![
            Control::Toggle { id: NodeId::new("t"), label: "One".to_string() },
            Control::Toggle { id: NodeId::new("t"), label: "Two".to_string() },
        ],
    });
    assert_eq!(
        validate_spec(&dup_controls),
        Err(ValidationError::DuplicateControlId(NodeId::new("t")))
    );

    let bad_base = DiagramSpec::Interactive(InteractiveSpec {
        base: Box::new(flowchart(vec![node("a", "A")], vec![edge("a", "b")])),
        controls: vec![
            Control::Toggle { id: NodeId::new("t"), label: "One".to_string() },
            Control::Toggle { id: NodeId::new("t"), label: "Two".to_string() },
        ],
    });
    assert_eq!(validate_spec(&bad_base), Err(ValidationError::MissingReference(NodeId::new("b"))));
}

#[test]
fn node_id_basics() {
    let a = NodeId::new("alpha");
    assert_eq!(a.as_str(), "alpha");
    assert!(a.same_as(&NodeId::new("alpha")));
    assert!(!a.same_as(&NodeId::new("beta")));
    assert_eq!(a.clone(), a);
    assert_eq!(default_arrow_style(), ArrowStyle::Closed);
    assert_eq!(EdgeStyle::default(), EdgeStyle::Solid);
}
