use lao::graph::{GraphEdge, GraphNode, WorkflowGraph};
use lao::validate::{validate, ValidationError};

fn graph(ids: &[&str], edges: &[(&str, &str)]) -> WorkflowGraph {
    WorkflowGraph {
        nodes: ids
            .iter()
            .map(|id| GraphNode::new(id.to_string(), "EchoPlugin".to_string()))
            .collect(),
        edges: edges
            .iter()
            .map(|(a, b)| GraphEdge { from: a.to_string(), to: b.to_string() })
            .collect(),
    }
}

#[test]
fn empty_graph_is_valid() {
    assert_eq!(validate(&graph(&[], &[])).unwrap(), Vec::<usize>::new());
}

#[test]
fn linear_graph_levels() {
    let g = graph(&["a", "b", "c"], &[("a", "b"), ("b", "c")]);
    assert_eq!(validate(&g).unwrap(), vec![0, 1, 2]);
}

#[test]
fn diamond_graph_levels() {
    let g = graph(&["a", "b", "c", "d"], &[("a", "b"), ("a", "c"), ("b", "d"), ("c", "d")]);
    assert_eq!(validate(&g).unwrap(), vec![0, 1, 1, 2]);
}

#[test]
fn level_is_one_more_than_deepest_predecessor() {
    let g = graph(&["d", "a", "b", "c"], &[("a", "b"), ("b", "c"), ("a", "d"), ("c", "d")]);
    assert_eq!(validate(&g).unwrap(), vec![3, 0, 1, 2]);
}

#[test]
fn independent_nodes_share_wave_zero() {
    let g = graph(&["x", "y", "z"], &[]);
    assert_eq!(validate(&g).unwrap(), vec![0, 0, 0]);
}

#[test]
fn cycle_is_rejected_with_its_nodes() {
    let g = graph(&["a", "b", "c", "d"], &[("a", "b"), ("b", "c"), ("c", "b"), ("c", "d")]);
    match validate(&g) {
        Err(ValidationError::Cycle(ids)) => assert_eq!(ids, vec!["b", "c", "d"]),
        other => panic!("expected a cycle, got {:?}", other),
    }
}

#[test]
fn self_loop_is_a_cycle() {
    let g = graph(&["a"], &[("a", "a")]);
    assert!(matches!(validate(&g), Err(ValidationError::Cycle(ids)) if ids == vec!["a"]));
}

#[test]
fn duplicate_id_is_rejected() {
    let g = graph(&["a", "b", "a"], &[("a", "b")]);
    assert!(matches!(validate(&g), Err(ValidationError::DuplicateId(id)) if id == "a"));
}

#[test]
fn unknown_edge_end_is_rejected() {
    let g = graph(&["a", "b"], &[("a", "b"), ("b", "ghost")]);
    assert!(matches!(validate(&g), Err(ValidationError::UnknownNode(id)) if id == "ghost"));
    let g = graph(&["a"], &[("nowhere", "a")]);
    assert!(matches!(validate(&g), Err(ValidationError::UnknownNode(id)) if id == "nowhere"));
}

#[test]
fn duplicate_is_reported_before_dangling_edge() {
    let g = graph(&["a", "a"], &[("a", "ghost")]);
    assert!(matches!(validate(&g), Err(ValidationError::DuplicateId(_))));
}
