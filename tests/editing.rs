use lao::editor::{connect, make_primary, remove_node, InspectorAction, LaoApp};
use lao::graph::{GraphEdge, GraphNode, WorkflowGraph};

fn graph(ids: &[&str], edges: &[(&str, &str)]) -> WorkflowGraph {
    WorkflowGraph {
        nodes: ids
            .iter()
            .map(|id| GraphNode::new(id.to_string(), "EchoPlugin".to_string()))
            .collect(),
        edges: edges
            .iter()
            .map(|(a, b)| GraphEdge { from: a.to_string(), to: b.to_string() })
            .collect(),
    }
}

fn pairs(g: &WorkflowGraph) -> Vec<(String, String)> {
    g.edges.iter().map(|e| (e.from.clone(), e.to.clone())).collect()
}

fn ids(g: &WorkflowGraph) -> Vec<String> {
    g.nodes.iter().map(|n| n.id.clone()).collect()
}

fn s(a: &str, b: &str) -> (String, String) {
    (a.to_string(), b.to_string())
}

#[test]
fn removing_a_node_drops_its_edges() {
    let mut g = graph(&["a", "b", "c"], &[("a", "b"), ("b", "c"), ("a", "c")]);
    remove_node(&mut g, &"b".to_string());
    assert_eq!(ids(&g), vec!["a", "c"]);
    assert_eq!(pairs(&g), vec![s("a", "c")]);
    remove_node(&mut g, &"zzz".to_string());
    assert_eq!(ids(&g), vec!["a", "c"]);
}

#[test]
fn connect_skips_self_edges_and_duplicates() {
    let mut g = graph(&["a", "b"], &[]);
    assert!(connect(&mut g, &"a".to_string(), &"b".to_string()));
    assert!(!connect(&mut g, &"a".to_string(), &"b".to_string()));
    assert!(!connect(&mut g, &"a".to_string(), &"a".to_string()));
    assert!(connect(&mut g, &"b".to_string(), &"a".to_string()));
    assert_eq!(pairs(&g), vec![s("a", "b"), s("b", "a")]);
}

#[test]
fn chosen_source_becomes_first_incoming_edge() {
    let mut g = graph(&["x", "p", "q", "t"], &[("x", "q"), ("p", "t"), ("x", "p"), ("q", "t")]);
    make_primary(&mut g.edges, &"t".to_string(), &"q".to_string());
    assert_eq!(pairs(&g), vec![s("x", "q"), s("q", "t"), s("p", "t"), s("x", "p")]);
    make_primary(&mut g.edges, &"t".to_string(), &"q".to_string());
    assert_eq!(pairs(&g), vec![s("x", "q"), s("q", "t"), s("p", "t"), s("x", "p")]);
    make_primary(&mut g.edges, &"t".to_string(), &"nobody".to_string());
    assert_eq!(pairs(&g), vec![s("x", "q"), s("q", "t"), s("p", "t"), s("x", "p")]);
}

#[test]
fn app_selects_connects_and_deletes() {
    let mut app = LaoApp::new();
    assert!(app.graph.is_none());
    app.new_workflow();
    {
        let g = app.graph.as_mut().unwrap();
        g.nodes.push(GraphNode::new("a".to_string(), "Echo".to_string()));
        g.nodes.push(GraphNode::new("b".to_string(), "Echo".to_string()));
    }
    assert!(!app.click_node(&"a".to_string()));
    assert_eq!(app.selected_node.as_deref(), Some("a"));
    app.connecting_from = Some("a".to_string());
    assert!(app.click_node(&"b".to_string()));
    assert!(app.connecting_from.is_none());
    assert_eq!(pairs(app.graph.as_ref().unwrap()), vec![s("a", "b")]);
    app.apply(InspectorAction::Keep);
    assert_eq!(app.selected_node.as_deref(), Some("a"));
    app.apply(InspectorAction::DeleteNode);
    assert!(app.selected_node.is_none());
    let g = app.graph.as_ref().unwrap();
    assert_eq!(ids(g), vec!["b"]);
    assert!(g.edges.is_empty());
}

#[test]
fn delete_without_selection_does_nothing() {
    let mut app = LaoApp::new();
    app.new_workflow();
    app.graph.as_mut().unwrap().nodes.push(GraphNode::new("a".to_string(), "Echo".to_string()));
    app.delete_selected();
    assert_eq!(app.graph.as_ref().unwrap().nodes.len(), 1);
}
