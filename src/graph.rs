//! The node/edge model of a workflow.

use vstd::prelude::*;

verus! {

/// Where a node stands in a run.
#[derive(Clone, Copy, Debug, PartialEq, Eq, Structural)]
pub enum NodeStatus {
    Pending,
    Running,
    Success,
    Error,
    Cache,
}

impl NodeStatus {
    /// A terminal status never changes again within a run.
    pub open spec fn is_terminal(self) -> bool {
        self is Success || self is Error || self is Cache
    }

    /// A status that carries an output.
    pub open spec fn has_output(self) -> bool {
        self is Success || self is Cache
    }

    pub fn terminal(&self) -> (r: bool)
        ensures
            r == self.is_terminal(),
    {
        match self {
            NodeStatus::Success | NodeStatus::Error | NodeStatus::Cache => true,
            _ => false,
        }
    }

    pub fn produced_output(&self) -> (r: bool)
        ensures
            r == self.has_output(),
    {
        match self {
            NodeStatus::Success | NodeStatus::Cache => true,
            _ => false,
        }
    }

    pub fn is_pending(&self) -> (r: bool)
        ensures
            r == (*self is Pending),
    {
        match self {
            NodeStatus::Pending => true,
            _ => false,
        }
    }

    pub fn is_running(&self) -> (r: bool)
        ensures
            r == (*self is Running),
    {
        match self {
            NodeStatus::Running => true,
            _ => false,
        }
    }

    pub fn failed(&self) -> (r: bool)
        ensures
            r == (*self is Error),
    {
        match self {
            NodeStatus::Error => true,
            _ => false,
        }
    }

    pub open spec fn name(self) -> Seq<char> {
        match self {
            NodeStatus::Pending => "pending"@,
            NodeStatus::Running => "running"@,
            NodeStatus::Success => "success"@,
            NodeStatus::Error => "error"@,
            NodeStatus::Cache => "cache"@,
        }
    }

    /// The lower-case name of the status.
    pub fn as_str(&self) -> (r: &'static str)
        ensures
            r@ == self.name(),
    {
        match self {
            NodeStatus::Pending => "pending",
            NodeStatus::Running => "running",
            NodeStatus::Success => "success",
            NodeStatus::Error => "error",
            NodeStatus::Cache => "cache",
        }
    }
}

/// One plugin invocation within a workflow.
#[derive(Clone, Debug)]
pub struct GraphNode {
    pub id: String,
    /// Name of the plugin to invoke.
    pub run: String,
    /// Input used when no predecessor feeds this node.
    pub input: Option<String>,
    pub input_type: Option<String>,
    pub output_type: Option<String>,
    pub status: NodeStatus,
    pub message: Option<String>,
    pub output: Option<String>,
    pub error: Option<String>,
    pub attempt: u32,
}

/// `to` must not run before `from` has reached a terminal status.
#[derive(Clone, Debug)]
pub struct GraphEdge {
    pub from: String,
    pub to: String,
}

#[derive(Clone, Debug)]
pub struct WorkflowGraph {
    pub nodes: Vec<GraphNode>,
    pub edges: Vec<GraphEdge>,
}

/// The aggregate outcome of a run.
#[derive(Clone, Copy, Debug, PartialEq, Eq, Structural)]
pub struct WorkflowResult {
    pub success: bool,
}

impl GraphNode {
    /// A node that has not run yet.
    pub fn new(id: String, run: String) -> (r: GraphNode)
        ensures
            r.id == id,
            r.run == run,
            r.input is None,
            r.status is Pending,
            r.output is None,
            r.error is None,
            r.attempt == 0,
    {
        GraphNode {
            id,
            run,
            input: None,
            input_type: None,
            output_type: None,
            status: NodeStatus::Pending,
            message: None,
            output: None,
            error: None,
            attempt: 0,
        }
    }
}

impl GraphNode {
    /// A field-by-field copy.
    pub fn duplicate(&self) -> (r: GraphNode)
        ensures
            r == *self,
    {
        GraphNode {
            id: self.id.clone(),
            run: self.run.clone(),
            input: copy_text(&self.input),
            input_type: copy_text(&self.input_type),
            output_type: copy_text(&self.output_type),
            status: self.status,
            message: copy_text(&self.message),
            output: copy_text(&self.output),
            error: copy_text(&self.error),
            attempt: self.attempt,
        }
    }
}

impl GraphEdge {
    /// A field-by-field copy.
    pub fn duplicate(&self) -> (r: GraphEdge)
        ensures
            r == *self,
    {
        GraphEdge { from: self.from.clone(), to: self.to.clone() }
    }
}

fn copy_text(o: &Option<String>) -> (r: Option<String>)
    ensures
        r == *o,
{
    match o {
        Some(s) => Some(s.clone()),
        None => None,
    }
}

impl WorkflowGraph {
    /// Edge `e` leads from node `i` to node `j`.
    pub open spec fn joins(&self, e: int, i: int, j: int) -> bool {
        &&& 0 <= e < self.edges@.len()
        &&& 0 <= i < self.nodes@.len()
        &&& 0 <= j < self.nodes@.len()
        &&& self.nodes@[i].id@ == self.edges@[e].from@
        &&& self.nodes@[j].id@ == self.edges@[e].to@
    }

    pub open spec fn ids_distinct(&self) -> bool {
        forall|i: int, j: int|
            0 <= i < self.nodes@.len() && 0 <= j < self.nodes@.len() && i != j
                ==> #[trigger] self.nodes@[i].id@ != #[trigger] self.nodes@[j].id@
    }

    pub open spec fn has_id(&self, s: Seq<char>) -> bool {
        exists|i: int| 0 <= i < self.nodes@.len() && #[trigger] self.nodes@[i].id@ == s
    }

    pub open spec fn edges_resolve(&self) -> bool {
        forall|e: int|
            0 <= e < self.edges@.len() ==> self.has_id(#[trigger] self.edges@[e].from@)
                && self.has_id(self.edges@[e].to@)
    }

    /// Ranks that strictly increase along every edge.
    pub open spec fn is_ranking(&self, rank: Seq<nat>) -> bool {
        &&& rank.len() == self.nodes@.len()
        &&& forall|e: int, i: int, j: int| #[trigger] self.joins(e, i, j) ==> rank[i] < rank[j]
    }

    /// The edge relation has no cycle: some ranking of the nodes respects it.
    pub open spec fn is_acyclic(&self) -> bool {
        exists|rank: Seq<nat>| self.is_ranking(rank)
    }

    /// `level` is each node's wave: 0 without predecessors, else one more
    /// than the highest wave among its predecessors.
    pub open spec fn is_wave_map(&self, level: Seq<usize>) -> bool {
        &&& level.len() == self.nodes@.len()
        &&& forall|e: int, i: int, j: int| #[trigger] self.joins(e, i, j) ==> level[i] < level[j]
        &&& forall|j: int|
            0 <= j < self.nodes@.len() && #[trigger] level[j] > 0 ==> exists|e: int, i: int|
                #[trigger] self.joins(e, i, j) && level[i] + 1 == level[j]
    }
}

} // verus!
