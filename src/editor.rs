//! Edits that the graph editor makes on a workflow between runs.

use vstd::prelude::*;
use crate::graph::{GraphEdge, GraphNode, WorkflowGraph};

verus! {

/// What the node inspector asks for.
#[derive(Clone, Copy, Debug, PartialEq, Eq, Structural)]
pub enum InspectorAction {
    /// Nothing to do.
    Keep,
    DeleteNode,
}

pub open spec fn keeps_node(id: Seq<char>) -> spec_fn(GraphNode) -> bool {
    |n: GraphNode| n.id@ != id
}

pub open spec fn keeps_edge(id: Seq<char>) -> spec_fn(GraphEdge) -> bool {
    |e: GraphEdge| e.from@ != id && e.to@ != id
}

/// Removes the node with id `id` and every edge that touches it.
pub fn remove_node(g: &mut WorkflowGraph, id: &String)
    ensures
        final(g).nodes@ == old(g).nodes@.filter(keeps_node(id@)),
        final(g).edges@ == old(g).edges@.filter(keeps_edge(id@)),
{
    let mut nodes: Vec<GraphNode> = Vec::new();
    let mut i: usize = 0;
    proof {
        reveal(Seq::filter);
        assert(g.nodes@.take(0) =~= Seq::<GraphNode>::empty());
    }
    while i < g.nodes.len()
        invariant
            i <= g.nodes@.len(),
            nodes@ == g.nodes@.take(i as int).filter(keeps_node(id@)),
        decreases g.nodes@.len() - i,
    {
        proof {
            reveal(Seq::filter);
            assert(g.nodes@.take(i + 1).drop_last() =~= g.nodes@.take(i as int));
        }
        if g.nodes[i].id != *id {
            nodes.push(g.nodes[i].duplicate());
        }
        i = i + 1;
    }
    let mut edges: Vec<GraphEdge> = Vec::new();
    let mut e: usize = 0;
    proof {
        reveal(Seq::filter);
        assert(g.edges@.take(0) =~= Seq::<GraphEdge>::empty());
    }
    while e < g.edges.len()
        invariant
            e <= g.edges@.len(),
            edges@ == g.edges@.take(e as int).filter(keeps_edge(id@)),
        decreases g.edges@.len() - e,
    {
        proof {
            reveal(Seq::filter);
            assert(g.edges@.take(e + 1).drop_last() =~= g.edges@.take(e as int));
        }
        if g.edges[e].from != *id && g.edges[e].to != *id {
            edges.push(g.edges[e].duplicate());
        }
        e = e + 1;
    }
    proof {
        assert(g.nodes@.take(g.nodes@.len() as int) =~= g.nodes@);
        assert(g.edges@.take(g.edges@.len() as int) =~= g.edges@);
    }
    g.nodes = nodes;
    g.edges = edges;
}

pub open spec fn has_link(edges: Seq<GraphEdge>, from: Seq<char>, to: Seq<char>) -> bool {
    exists|e: int| 0 <= e < edges.len() && #[trigger] edges[e].from@ == from && edges[e].to@ == to
}

/// Adds an edge from `from` to `to`, unless the two are the same node or the
/// edge is already there.
pub fn connect(g: &mut WorkflowGraph, from: &String, to: &String) -> (added: bool)
    ensures
        added == (from@ != to@ && !has_link(old(g).edges@, from@, to@)),
        final(g).nodes@ == old(g).nodes@,
        added ==> final(g).edges@.len() == old(g).edges@.len() + 1 && final(g).edges@.drop_last()
            == old(g).edges@ && final(g).edges@.last().from@ == from@ && final(g).edges@.last().to@
            == to@,
        !added ==> final(g).edges@ == old(g).edges@,
{
    if *from == *to {
        return false;
    }
    let mut e: usize = 0;
    while e < g.edges.len()
        invariant
            e <= g.edges@.len(),
            forall|f: int| 0 <= f < e ==> !(g.edges@[f].from@ == from@ && g.edges@[f].to@ == to@),
        decreases g.edges@.len() - e,
    {
        if g.edges[e].from == *from && g.edges[e].to == *to {
            return false;
        }
        e = e + 1;
    }
    g.edges.push(GraphEdge { from: from.clone(), to: to.clone() });
    proof {
        assert(g.edges@.drop_last() =~= old(g).edges@);
    }
    true
}

pub open spec fn is_pipe(e: GraphEdge, node: Seq<char>, source: Seq<char>) -> bool {
    e.to@ == node && e.from@ == source
}

/// Makes the edge from `source` into `node` the first of the edges into
/// `node`, so that `source` feeds `node`'s input; the order of all other
/// edges is kept.
pub fn make_primary(edges: &mut Vec<GraphEdge>, node: &String, source: &String)
    ensures
        (forall|i: int| 0 <= i < old(edges)@.len() ==> !is_pipe(#[trigger] old(edges)@[i], node@, source@))
            ==> final(edges)@ == old(edges)@,
        forall|pos: int, ip: int|
            0 <= pos < old(edges)@.len() && is_pipe(#[trigger] old(edges)@[pos], node@, source@) && (
            forall|j: int| 0 <= j < pos ==> !is_pipe(#[trigger] old(edges)@[j], node@, source@)) && 0
                <= ip <= pos && (ip < pos ==> #[trigger] old(edges)@.remove(pos)[ip].to@ == node@) && (
            forall|j: int| 0 <= j < ip ==> (#[trigger] old(edges)@.remove(pos)[j]).to@ != node@)
                ==> final(edges)@ == old(edges)@.remove(pos).insert(ip, old(edges)@[pos]),
{
    let pos = first_pipe(edges, node, source);
    if pos == edges.len() {
        return;
    }
    let ghost before = edges@;
    let edge = edges.remove(pos);
    proof {
        assert(edges@ == before.remove(pos as int));
    }
    let ip = first_into(edges, node, pos);
    edges.insert(ip, edge);
}

fn first_pipe(edges: &Vec<GraphEdge>, node: &String, source: &String) -> (r: usize)
    ensures
        r <= edges@.len(),
        forall|j: int| 0 <= j < r ==> !is_pipe(#[trigger] edges@[j], node@, source@),
        r < edges@.len() ==> is_pipe(edges@[r as int], node@, source@),
{
    let mut pos: usize = 0;
    while pos < edges.len()
        invariant
            pos <= edges@.len(),
            forall|j: int| 0 <= j < pos ==> !is_pipe(#[trigger] edges@[j], node@, source@),
        decreases edges@.len() - pos,
    {
        if edges[pos].to == *node && edges[pos].from == *source {
            return pos;
        }
        pos = pos + 1;
    }
    pos
}

fn first_into(edges: &Vec<GraphEdge>, node: &String, limit: usize) -> (r: usize)
    requires
        limit <= edges@.len(),
    ensures
        r <= limit,
        forall|j: int| 0 <= j < r ==> (#[trigger] edges@[j]).to@ != node@,
        r < limit ==> edges@[r as int].to@ == node@,
{
    let mut ip: usize = 0;
    while ip < limit
        invariant
            ip <= limit <= edges@.len(),
            forall|j: int| 0 <= j < ip ==> (#[trigger] edges@[j]).to@ != node@,
        decreases limit - ip,
    {
        if edges[ip].to == *node {
            return ip;
        }
        ip = ip + 1;
    }
    ip
}

/// The editor's model of the application: the workflow being edited and
/// what the user has picked.
#[derive(Debug)]
pub struct LaoApp {
    pub graph: Option<WorkflowGraph>,
    pub selected_node: Option<String>,
    /// Source picked for a new edge, awaiting its target.
    pub connecting_from: Option<String>,
}

impl LaoApp {
    pub fn new() -> (r: LaoApp)
        ensures
            r.graph is None,
            r.selected_node is None,
            r.connecting_from is None,
    {
        LaoApp { graph: None, selected_node: None, connecting_from: None }
    }

    /// Starts an empty workflow.
    pub fn new_workflow(&mut self)
        ensures
            (final(self).graph matches Some(g) && g.nodes@.len() == 0 && g.edges@.len() == 0),
            final(self).selected_node is None,
            final(self).connecting_from == old(self).connecting_from,
    {
        self.graph = Some(WorkflowGraph { nodes: Vec::new(), edges: Vec::new() });
        self.selected_node = None;
    }

    /// Deletes the selected node with its edges and clears the selection.
    pub fn delete_selected(&mut self)
        ensures
            final(self).connecting_from == old(self).connecting_from,
            match (old(self).selected_node, old(self).graph) {
                (Some(id), Some(g)) => {
                    &&& final(self).selected_node is None
                    &&& (final(self).graph matches Some(h) && h.nodes@ == g.nodes@.filter(
                        keeps_node(id@),
                    ) && h.edges@ == g.edges@.filter(keeps_edge(id@)))
                },
                _ => final(self).selected_node == old(self).selected_node && final(self).graph
                    == old(self).graph,
            },
    {
        match (&self.selected_node, &mut self.graph) {
            (Some(id), Some(g)) => {
                remove_node(g, id);
            },
            _ => {
                return;
            },
        }
        self.selected_node = None;
    }

    /// Carries out what the inspector asked for.
    pub fn apply(&mut self, action: InspectorAction)
        ensures
            action is Keep ==> final(self).graph == old(self).graph && final(self).selected_node
                == old(self).selected_node,
            final(self).connecting_from == old(self).connecting_from,
            action is DeleteNode ==> match (old(self).selected_node, old(self).graph) {
                (Some(id), Some(g)) => {
                    &&& final(self).selected_node is None
                    &&& (final(self).graph matches Some(h) && h.nodes@ == g.nodes@.filter(
                        keeps_node(id@),
                    ) && h.edges@ == g.edges@.filter(keeps_edge(id@)))
                },
                _ => final(self).selected_node == old(self).selected_node && final(self).graph
                    == old(self).graph,
            },
    {
        match action {
            InspectorAction::DeleteNode => self.delete_selected(),
            InspectorAction::Keep => {},
        }
    }

    /// A click on node `id`: completes a pending connection, else selects it.
    pub fn click_node(&mut self, id: &String) -> (added: bool)
        ensures
            final(self).connecting_from is None,
            match old(self).connecting_from {
                Some(from) => {
                    &&& final(self).selected_node == old(self).selected_node
                    &&& match old(self).graph {
                        Some(g) => (final(self).graph matches Some(h) && h.nodes@ == g.nodes@ && added
                            == (from@ != id@ && !has_link(g.edges@, from@, id@)) && (added
                            ==> h.edges@.drop_last() == g.edges@ && h.edges@.last().from@ == from@
                            && h.edges@.last().to@ == id@) && (!added ==> h.edges@ == g.edges@)),
                        None => !added && final(self).graph is None,
                    }
                },
                None => !added && final(self).graph == old(self).graph && (final(self).selected_node matches Some(s) && s@ == id@),
            },
    {
        let from = self.connecting_from.take();
        match from {
            Some(from) => match &mut self.graph {
                Some(g) => connect(g, &from, id),
                None => false,
            },
            None => {
                self.selected_node = Some(id.clone());
                false
            },
        }
    }
}

} // verus!
