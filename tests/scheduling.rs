use lao::engine::{Execution, NodeEvent, Outcome, RunGuard, Step};
use lao::graph::{GraphEdge, GraphNode, NodeStatus, WorkflowGraph};
use lao::validate::ValidationError;

fn node(id: &str, plugin: &str, input: Option<&str>) -> GraphNode {
    let mut n = GraphNode::new(id.to_string(), plugin.to_string());
    n.input = input.map(|s| s.to_string());
    n
}

fn graph(nodes: Vec<GraphNode>, edges: &[(&str, &str)]) -> WorkflowGraph {
    WorkflowGraph {
        nodes,
        edges: edges
            .iter()
            .map(|(a, b)| GraphEdge { from: a.to_string(), to: b.to_string() })
            .collect(),
    }
}

fn invoked(step: Step) -> (String, String) {
    match step {
        Step::Invoke { plugin, input } => (plugin, input),
        other => panic!("expected an invocation, got {:?}", other),
    }
}

fn status(x: &Execution, v: usize) -> NodeStatus {
    x.graph.nodes[v].status
}

#[test]
fn linear_chain_with_exhausted_retries_skips_the_rest() {
    let g = graph(
        vec![node("A", "Echo", Some("seed")), node("B", "Flaky", None), node("C", "Echo", None)],
        &[("A", "B"), ("B", "C")],
    );
    let mut x = Execution::new(&g, 2).unwrap();
    let (plugin, input) = invoked(x.prepare(0));
    assert_eq!((plugin.as_str(), input.as_str()), ("Echo", "seed"));
    assert!(matches!(x.record(0, Outcome::Output("seed!".to_string())), Step::Done));
    let (_, input) = invoked(x.prepare(1));
    assert_eq!(input, "seed!");
    for attempt in 1..=2u32 {
        let (_, again) = invoked(x.record(1, Outcome::Failed("timeout".to_string())));
        assert_eq!(again, "seed!");
        assert_eq!(x.graph.nodes[1].attempt, attempt);
        assert_eq!(status(&x, 1), NodeStatus::Running);
    }
    assert!(matches!(x.record(1, Outcome::Failed("timeout".to_string())), Step::Done));
    assert_eq!(status(&x, 1), NodeStatus::Error);
    assert_eq!(x.graph.nodes[1].attempt, 3);
    assert_eq!(x.graph.nodes[1].error.as_deref(), Some("timeout"));
    assert!(matches!(x.prepare(2), Step::Skipped));
    assert_eq!(status(&x, 2), NodeStatus::Error);
    assert!(x.graph.nodes[2].error.as_ref().map_or(false, |e| !e.is_empty()));
    assert!(!x.events.iter().any(|e| e.node == 2 && e.status == NodeStatus::Running));
    assert_eq!(x.finish().map(|r| r.success), Some(false));
}

#[test]
fn diamond_runs_middle_wave_together() {
    let g = graph(
        vec![
            node("A", "Echo", Some("in")),
            node("B", "Upper", None),
            node("C", "Lower", None),
            node("D", "Join", None),
        ],
        &[("A", "B"), ("A", "C"), ("B", "D"), ("C", "D")],
    );
    let mut x = Execution::new(&g, 0).unwrap();
    assert_eq!(x.wave_count(), 3);
    assert_eq!(x.wave(0), vec![0]);
    assert_eq!(x.wave(1), vec![1, 2]);
    assert_eq!(x.wave(2), vec![3]);
    assert!(matches!(x.prepare(1), Step::Wait));
    invoked(x.prepare(0));
    x.record(0, Outcome::Output("a".to_string()));
    let (_, in_b) = invoked(x.prepare(1));
    let (_, in_c) = invoked(x.prepare(2));
    assert_eq!((in_b.as_str(), in_c.as_str()), ("a", "a"));
    assert_eq!((status(&x, 1), status(&x, 2)), (NodeStatus::Running, NodeStatus::Running));
    assert!(matches!(x.prepare(3), Step::Wait));
    x.record(2, Outcome::Output("c".to_string()));
    assert!(matches!(x.prepare(3), Step::Wait));
    assert_eq!(x.finish(), None);
    x.record(1, Outcome::Output("b".to_string()));
    let (_, in_d) = invoked(x.prepare(3));
    assert_eq!(in_d, "b");
    x.record(3, Outcome::Output("d".to_string()));
    assert_eq!(x.finish().map(|r| r.success), Some(true));
    let d_start = x.events.iter().position(|e| *e == NodeEvent { node: 3, status: NodeStatus::Running });
    let b_end = x.events.iter().position(|e| *e == NodeEvent { node: 1, status: NodeStatus::Success });
    let c_end = x.events.iter().position(|e| *e == NodeEvent { node: 2, status: NodeStatus::Success });
    assert!(d_start > b_end && d_start > c_end);
}

#[test]
fn retried_node_succeeds_with_attempt_count() {
    let g = graph(vec![node("N", "Flaky", Some("x"))], &[]);
    let mut x = Execution::new(&g, 3).unwrap();
    invoked(x.prepare(0));
    invoked(x.record(0, Outcome::Failed("e1".to_string())));
    invoked(x.record(0, Outcome::Failed("e2".to_string())));
    assert!(matches!(x.record(0, Outcome::Output("ok".to_string())), Step::Done));
    assert_eq!(status(&x, 0), NodeStatus::Success);
    assert_eq!(x.graph.nodes[0].attempt, 2);
    assert_eq!(x.graph.nodes[0].output.as_deref(), Some("ok"));
    assert_eq!(x.graph.nodes[0].error, None);
}

#[test]
fn failing_one_more_than_the_limit_ends_in_error() {
    let g = graph(vec![node("N", "Flaky", Some("x"))], &[]);
    let mut x = Execution::new(&g, 1).unwrap();
    invoked(x.prepare(0));
    invoked(x.record(0, Outcome::Failed("e1".to_string())));
    assert!(matches!(x.record(0, Outcome::Failed(String::new())), Step::Done));
    assert_eq!(status(&x, 0), NodeStatus::Error);
    assert_eq!(x.graph.nodes[0].attempt, 2);
    assert_eq!(x.graph.nodes[0].error.as_deref(), Some("plugin invocation failed"));
    assert_eq!(x.graph.nodes[0].output, None);
}

#[test]
fn identical_invocation_is_served_from_cache() {
    let g = graph(
        vec![node("X", "Echo", Some("hi")), node("Y", "Echo", Some("hi")), node("Z", "Other", Some("hi"))],
        &[],
    );
    let mut x = Execution::new(&g, 0).unwrap();
    let mut calls = 0;
    if let Step::Invoke { .. } = x.prepare(0) {
        calls += 1;
        x.record(0, Outcome::Output("hi back".to_string()));
    }
    if let Step::Invoke { .. } = x.prepare(1) {
        calls += 1;
    }
    assert_eq!(calls, 1);
    assert_eq!(status(&x, 1), NodeStatus::Cache);
    assert_eq!(x.graph.nodes[1].output.as_deref(), Some("hi back"));
    assert!(matches!(x.prepare(2), Step::Invoke { .. }));
    assert_eq!(x.cache.len(), 1);
}

#[test]
fn refused_input_fails_node_and_dependents() {
    let g = graph(
        vec![node("A", "Echo", None), node("B", "Echo", None), node("C", "Echo", None), node("D", "Echo", Some("free"))],
        &[("A", "B"), ("B", "C")],
    );
    let mut x = Execution::new(&g, 5).unwrap();
    let (_, input) = invoked(x.prepare(0));
    assert_eq!(input, "");
    assert!(matches!(x.record(0, Outcome::Rejected), Step::Done));
    assert_eq!(x.graph.nodes[0].attempt, 0);
    assert!(matches!(x.prepare(1), Step::Skipped));
    assert!(matches!(x.prepare(2), Step::Skipped));
    invoked(x.prepare(3));
    x.record(3, Outcome::Output("done".to_string()));
    assert_eq!(
        (status(&x, 0), status(&x, 1), status(&x, 2), status(&x, 3)),
        (NodeStatus::Error, NodeStatus::Error, NodeStatus::Error, NodeStatus::Success)
    );
    assert_eq!(x.finish().map(|r| r.success), Some(false));
}

#[test]
fn steps_out_of_turn_change_nothing() {
    let g = graph(vec![node("A", "Echo", Some("a")), node("B", "Echo", None)], &[("A", "B")]);
    let mut x = Execution::new(&g, 0).unwrap();
    assert!(matches!(x.record(0, Outcome::Output("early".to_string())), Step::Wait));
    assert!(matches!(x.prepare(1), Step::Wait));
    invoked(x.prepare(0));
    assert!(matches!(x.prepare(0), Step::Wait));
    assert!(x.events.len() == 1 && x.cache.is_empty());
}

#[test]
fn first_incoming_edge_feeds_the_input() {
    let g = graph(
        vec![node("P", "Echo", Some("p")), node("Q", "Echo", Some("q")), node("R", "Echo", Some("r"))],
        &[("Q", "R"), ("P", "R")],
    );
    let mut x = Execution::new(&g, 0).unwrap();
    invoked(x.prepare(0));
    x.record(0, Outcome::Output("from p".to_string()));
    invoked(x.prepare(1));
    x.record(1, Outcome::Output("from q".to_string()));
    let (_, input) = invoked(x.prepare(2));
    assert_eq!(input, "from q");
}

#[test]
fn run_resets_previous_results() {
    let mut a = node("A", "Echo", Some("a"));
    a.status = NodeStatus::Error;
    a.error = Some("old".to_string());
    a.attempt = 4;
    a.message = Some("stale".to_string());
    let x = Execution::new(&graph(vec![a], &[]), 0).unwrap();
    assert_eq!(x.graph.nodes[0].message, None);
    assert_eq!(x.graph.nodes[0].input.as_deref(), Some("a"));
    assert_eq!(status(&x, 0), NodeStatus::Pending);
    assert_eq!((x.graph.nodes[0].attempt, x.graph.nodes[0].error.clone()), (0, None));
    assert!(x.events.is_empty());
}

#[test]
fn invalid_graph_never_starts() {
    let g = graph(vec![node("A", "Echo", None), node("B", "Echo", None)], &[("A", "B"), ("B", "A")]);
    assert!(matches!(Execution::new(&g, 0), Err(ValidationError::Cycle(_))));
    assert!(g.nodes.iter().all(|n| n.status == NodeStatus::Pending));
}

#[test]
fn second_run_is_refused_while_one_is_active() {
    let mut guard = RunGuard::new();
    assert!(guard.try_begin());
    assert!(!guard.try_begin());
    guard.end();
    assert!(guard.try_begin());
}

#[test]
fn status_names() {
    assert_eq!(NodeStatus::Cache.as_str(), "cache");
    assert_eq!(NodeStatus::Pending.as_str(), "pending");
}

#[test]
fn sequential_order_follows_dependencies() {
    let g = graph(
        vec![node("C", "Echo", None), node("A", "Echo", Some("a")), node("B", "Echo", None)],
        &[("A", "B"), ("B", "C")],
    );
    let mut x = Execution::new(&g, 0).unwrap();
    let mut order = Vec::new();
    while let Some(v) = x.next_ready() {
        order.push(v);
        if let Step::Invoke { input, .. } = x.prepare(v) {
            x.record(v, Outcome::Output(format!("{}+", input)));
        }
    }
    assert_eq!(order, vec![1, 2, 0]);
    assert_eq!(x.graph.nodes[0].output.as_deref(), Some("a+++"));
    assert_eq!(x.finish().map(|r| r.success), Some(true));
}

#[test]
fn empty_workflow_finishes_at_once() {
    let x = Execution::new(&graph(vec![], &[]), 0).unwrap();
    assert_eq!(x.wave_count(), 0);
    assert_eq!(x.next_ready(), None);
    assert_eq!(x.finish().map(|r| r.success), Some(true));
}
