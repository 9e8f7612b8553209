//! The scheduler: a state machine over a validated graph. The driver asks it
//! what to do with a node (`prepare`), performs the plugin call, and hands the
//! outcome back (`record`); the machine decides retries, skips and caching.

use vstd::prelude::*;
use crate::graph::{GraphEdge, GraphNode, NodeStatus, WorkflowGraph, WorkflowResult};
use crate::validate::{compute_levels, ids_of, link_waves, links_match, resolve_edges, ValidationError};

verus! {

/// A recorded successful invocation within a run.
#[derive(Clone, Debug)]
pub struct CacheEntry {
    pub plugin: String,
    pub input: String,
    pub output: String,
}

/// One status transition of one node.
#[derive(Clone, Copy, Debug, PartialEq, Eq, Structural)]
pub struct NodeEvent {
    pub node: usize,
    pub status: NodeStatus,
}

/// What the driver is to do next with a node.
#[derive(Clone, Debug)]
pub enum Step {
    /// The node cannot move now.
    Wait,
    /// A predecessor failed: the node was marked `error` without running.
    Skipped,
    /// An earlier invocation with the same plugin and input supplied the output.
    Cached,
    /// Invoke `plugin` on `input` and report the outcome.
    Invoke { plugin: String, input: String },
    /// The node reached a terminal status.
    Done,
}

/// What came of one invocation.
#[derive(Clone, Debug)]
pub enum Outcome {
    /// The plugin returned this text.
    Output(String),
    /// The plugin's validation refused the input; `run` was not called.
    Rejected,
    /// The call could not be completed.
    Failed(String),
}

/// A run in progress: a private working copy of the graph and the state
/// that the scheduler keeps about it.
pub struct Execution {
    pub graph: WorkflowGraph,
    /// Edges as indices of their ends, in edge order.
    pub links: Vec<(usize, usize)>,
    /// Each node's wave.
    pub levels: Vec<usize>,
    pub cache: Vec<CacheEntry>,
    /// How many failed attempts are retried.
    pub retry_limit: u32,
    /// Every status transition so far, in order.
    pub events: Vec<NodeEvent>,
}

/// Tracks whether a run of a workflow is in progress, so that a second run
/// request is refused instead of interleaved with the first.
#[derive(Debug)]
pub struct RunGuard {
    pub active: bool,
}

impl RunGuard {
    pub fn new() -> (r: RunGuard)
        ensures
            !r.active,
    {
        RunGuard { active: false }
    }

    /// Claims the workflow for a run; false when a run is already active.
    pub fn try_begin(&mut self) -> (r: bool)
        ensures
            r == !old(self).active,
            final(self).active,
    {
        if self.active {
            false
        } else {
            self.active = true;
            true
        }
    }

    pub fn end(&mut self)
        ensures
            !final(self).active,
    {
        self.active = false;
    }
}

/// Output and error fields agree with the status.
pub open spec fn node_consistent(n: GraphNode) -> bool {
    &&& n.status.has_output() <==> n.output is Some
    &&& n.status is Error <==> n.error is Some
    &&& n.error matches Some(e) ==> e@.len() > 0
}

/// The source of the primary input edge of node `v`: the first edge into it.
pub open spec fn primary_source(links: Seq<(usize, usize)>, v: int) -> Option<int>
    decreases links.len(),
{
    if links.len() == 0 {
        None
    } else if links[0].1 == v {
        Some(links[0].0 as int)
    } else {
        primary_source(links.drop_first(), v)
    }
}

/// The cache as (plugin, input, output) triples.
pub open spec fn cache_view(cache: Seq<CacheEntry>) -> Seq<(Seq<char>, Seq<char>, Seq<char>)> {
    cache.map_values(|c: CacheEntry| (c.plugin@, c.input@, c.output@))
}

/// The output of the first recorded invocation of `plugin` on `input`.
pub open spec fn cached_output(
    cache: Seq<(Seq<char>, Seq<char>, Seq<char>)>,
    plugin: Seq<char>,
    input: Seq<char>,
) -> Option<Seq<char>>
    decreases cache.len(),
{
    if cache.len() == 0 {
        None
    } else if cache[0].0 == plugin && cache[0].1 == input {
        Some(cache[0].2)
    } else {
        cached_output(cache.drop_first(), plugin, input)
    }
}

/// A node's status and attempt count after one more outcome, from running.
pub open spec fn next_state(attempt: nat, succeeded: bool, limit: nat) -> (NodeStatus, nat) {
    if succeeded {
        (NodeStatus::Success, attempt)
    } else if attempt + 1 <= limit {
        (NodeStatus::Running, attempt + 1)
    } else {
        (NodeStatus::Error, attempt + 1)
    }
}

pub open spec fn with_state(
    n: GraphNode,
    status: NodeStatus,
    output: Option<String>,
    error: Option<String>,
    attempt: u32,
) -> GraphNode {
    GraphNode { status, output, error, attempt, ..n }
}

/// `n` is `before` made ready for a new run.
pub open spec fn reset_of(n: GraphNode, before: GraphNode) -> bool {
    &&& same_identity(n, before)
    &&& n.status is Pending
    &&& n.output is None
    &&& n.error is None
    &&& n.message is None
    &&& n.attempt == 0
}

pub open spec fn same_identity(a: GraphNode, b: GraphNode) -> bool {
    &&& a.id == b.id
    &&& a.run == b.run
    &&& a.input == b.input
    &&& a.input_type == b.input_type
    &&& a.output_type == b.output_type
}

/// `primary_source` names the source of the first edge into `v`.
pub proof fn lemma_primary_source(links: Seq<(usize, usize)>, v: int)
    ensures
        match primary_source(links, v) {
            Some(u) => exists|e: int|
                0 <= e < links.len() && (#[trigger] links[e]).1 == v && links[e].0 == u && forall|f: int|
                    0 <= f < e ==> (#[trigger] links[f]).1 != v,
            None => forall|e: int| 0 <= e < links.len() ==> (#[trigger] links[e]).1 != v,
        },
    decreases links.len(),
{
    if links.len() > 0 {
        let rest = links.drop_first();
        lemma_primary_source(rest, v);
        if links[0].1 == v {
            assert(links[0].1 == v);
        } else {
            match primary_source(rest, v) {
                Some(u) => {
                    let e = choose|e: int|
                        0 <= e < rest.len() && (#[trigger] rest[e]).1 == v && rest[e].0 == u && forall|
                            f: int,
                        | 0 <= f < e ==> (#[trigger] rest[f]).1 != v;
                    assert(links[e + 1] == rest[e]);
                    assert forall|f: int| 0 <= f < e + 1 implies (#[trigger] links[f]).1 != v by {
                        if f > 0 {
                            assert(links[f] == rest[f - 1]);
                        }
                    }
                },
                None => {
                    assert forall|e: int| 0 <= e < links.len() implies (#[trigger] links[e]).1 != v by {
                        if e > 0 {
                            assert(links[e] == rest[e - 1]);
                        }
                    }
                },
            }
        }
    }
}

/// The source of the first edge into `v`.
pub fn primary_source_of(links: &Vec<(usize, usize)>, v: usize) -> (r: Option<usize>)
    ensures
        match r {
            Some(u) => primary_source(links@, v as int) == Some(u as int),
            None => primary_source(links@, v as int) is None,
        },
{
    proof {
        assert(links@.subrange(0, links@.len() as int) =~= links@);
    }
    let mut e: usize = 0;
    while e < links.len()
        invariant
            e <= links@.len(),
            primary_source(links@, v as int) == primary_source(
                links@.subrange(e as int, links@.len() as int),
                v as int,
            ),
        decreases links@.len() - e,
    {
        let ghost rest = links@.subrange(e as int, links@.len() as int);
        proof {
            assert(rest.drop_first() =~= links@.subrange(e + 1, links@.len() as int));
        }
        if links[e].1 == v {
            return Some(links[e].0);
        }
        e = e + 1;
    }
    None
}

impl Execution {
    pub open spec fn n(&self) -> nat {
        self.graph.nodes@.len()
    }

    pub open spec fn status(&self, v: int) -> NodeStatus {
        self.graph.nodes@[v].status
    }

    pub open spec fn default_input(&self, v: int) -> Seq<char> {
        match self.graph.nodes@[v].input {
            Some(s) => s@,
            None => Seq::empty(),
        }
    }

    /// The text handed to node `v`: its primary source's output where that
    /// source produced one, else the node's own input.
    pub open spec fn resolved_input(&self, v: int) -> Seq<char> {
        match primary_source(self.links@, v) {
            Some(u) => match self.graph.nodes@[u].output {
                Some(o) => if self.status(u).has_output() {
                    o@
                } else {
                    self.default_input(v)
                },
                None => self.default_input(v),
            },
            None => self.default_input(v),
        }
    }

    pub open spec fn preds_terminal(&self, v: int) -> bool {
        forall|e: int|
            0 <= e < self.links@.len() && (#[trigger] self.links@[e]).1 == v
                ==> self.status(self.links@[e].0 as int).is_terminal()
    }

    pub open spec fn some_pred_failed(&self, v: int) -> bool {
        exists|e: int|
            0 <= e < self.links@.len() && (#[trigger] self.links@[e]).1 == v && self.status(
                self.links@[e].0 as int,
            ) is Error
    }

    /// Along every edge: the target has left `pending` only after the source
    /// became terminal, and a failed source means a failed target.
    pub open spec fn edges_respected(&self) -> bool {
        forall|e: int|
            0 <= e < self.links@.len() && !(self.status((#[trigger] self.links@[e]).1 as int) is Pending)
                ==> self.status(self.links@[e].0 as int).is_terminal() && (self.status(
                self.links@[e].0 as int,
            ) is Error ==> self.status(self.links@[e].1 as int) is Error)
    }

    pub open spec fn wf(&self) -> bool {
        &&& self.graph.ids_distinct()
        &&& links_match(self.graph, self.links@)
        &&& link_waves(self.n(), self.links@, self.levels@)
        &&& forall|v: int| 0 <= v < self.n() ==> #[trigger] self.levels@[v] < self.n()
        &&& self.retry_limit < u32::MAX
        &&& forall|v: int| 0 <= v < self.n() ==> node_consistent(#[trigger] self.graph.nodes@[v])
        &&& forall|v: int|
            0 <= v < self.n() && #[trigger] self.status(v) is Running
                ==> self.graph.nodes@[v].attempt <= self.retry_limit
        &&& forall|v: int|
            0 <= v < self.n() && #[trigger] self.status(v) is Pending ==> self.graph.nodes@[v].attempt
                == 0
        &&& self.edges_respected()
    }

    /// Nodes other than `v` are as in `other`, and `v` keeps its identity.
    pub open spec fn touches_only(&self, other: &Execution, v: int) -> bool {
        &&& forall|w: int|
            0 <= w < self.n() && w != v ==> #[trigger] self.graph.nodes@[w] == other.graph.nodes@[w]
        &&& same_identity(self.graph.nodes@[v], other.graph.nodes@[v])
    }

    /// What a step leaves alone.
    pub open spec fn same_frame(&self, other: &Execution) -> bool {
        &&& self.graph.edges@ == other.graph.edges@
        &&& self.graph.nodes@.len() == other.graph.nodes@.len()
        &&& self.links@ == other.links@
        &&& self.levels@ == other.levels@
        &&& self.retry_limit == other.retry_limit
    }

    /// Starts a run on a copy of `graph` with every node reset to `pending`.
    pub fn new(graph: &WorkflowGraph, retry_limit: u32) -> (r: Result<Execution, ValidationError>)
        requires
            retry_limit < u32::MAX,
        ensures
            r is Ok <==> graph.ids_distinct() && graph.edges_resolve() && graph.is_acyclic(),
            r matches Err(ValidationError::DuplicateId(_)) ==> !graph.ids_distinct(),
            r matches Err(ValidationError::UnknownNode(_)) ==> graph.ids_distinct()
                && !graph.edges_resolve(),
            r matches Err(ValidationError::Cycle(_)) ==> graph.ids_distinct() && graph.edges_resolve()
                && !graph.is_acyclic(),
            r matches Ok(x) ==> {
                &&& x.wf()
                &&& x.graph.edges@ == graph.edges@
                &&& x.graph.nodes@.len() == graph.nodes@.len()
                &&& x.graph.is_wave_map(x.levels@)
                &&& x.retry_limit == retry_limit
                &&& x.cache@.len() == 0
                &&& x.events@.len() == 0
                &&& forall|v: int|
                    0 <= v < graph.nodes@.len() ==> reset_of(#[trigger] x.graph.nodes@[v], graph.nodes@[v])
            },
    {
        let links = match resolve_edges(graph) {
            Ok(links) => links,
            Err(e) => {
                return Err(e);
            },
        };
        proof {
            crate::validate::lemma_ranking_links(*graph, links@);
        }
        let levels = match compute_levels(graph.nodes.len(), &links) {
            Ok(levels) => levels,
            Err(rest) => {
                return Err(ValidationError::Cycle(ids_of(graph, &rest)));
            },
        };
        proof {
            crate::validate::lemma_waves_links(*graph, links@, levels@);
        }
        let mut nodes: Vec<GraphNode> = Vec::new();
        let mut i: usize = 0;
        while i < graph.nodes.len()
            invariant
                i <= graph.nodes@.len(),
                nodes@.len() == i,
                forall|v: int| 0 <= v < i ==> reset_of(#[trigger] nodes@[v], graph.nodes@[v]),
            decreases graph.nodes@.len() - i,
        {
            let mut node = graph.nodes[i].duplicate();
            node.status = NodeStatus::Pending;
            node.output = None;
            node.error = None;
            node.attempt = 0;
            node.message = None;
            nodes.push(node);
            i = i + 1;
        }
        let mut edges: Vec<GraphEdge> = Vec::new();
        let mut e: usize = 0;
        while e < graph.edges.len()
            invariant
                e <= graph.edges@.len(),
                edges@.len() == e,
                forall|f: int| 0 <= f < e ==> #[trigger] edges@[f] == graph.edges@[f],
            decreases graph.edges@.len() - e,
        {
            edges.push(graph.edges[e].duplicate());
            e = e + 1;
        }
        proof {
            assert(edges@ =~= graph.edges@);
        }
        let x = Execution {
            graph: WorkflowGraph { nodes, edges },
            links,
            levels,
            cache: Vec::new(),
            retry_limit,
            events: Vec::new(),
        };
        proof {
            assert(x.graph.edges@ == graph.edges@);
            assert forall|v: int| 0 <= v < x.n() implies #[trigger] x.status(v) is Pending by {
                assert(reset_of(x.graph.nodes@[v], graph.nodes@[v]));
            }
            assert forall|v: int| 0 <= v < x.n() implies node_consistent(#[trigger] x.graph.nodes@[v]) by {
                assert(reset_of(x.graph.nodes@[v], graph.nodes@[v]));
            }
            assert(x.edges_respected());
            assert forall|a: int, b: int|
                0 <= a < x.n() && 0 <= b < x.n() && a != b implies #[trigger] x.graph.nodes@[a].id@
                != #[trigger] x.graph.nodes@[b].id@ by {
                assert(x.graph.nodes@[a].id == graph.nodes@[a].id);
                assert(x.graph.nodes@[b].id == graph.nodes@[b].id);
            }
            assert forall|f: int| 0 <= f < x.links@.len() implies x.graph.nodes@[(
            #[trigger] x.links@[f]).0 as int].id@ == x.graph.edges@[f].from@
                && x.graph.nodes@[x.links@[f].1 as int].id@ == x.graph.edges@[f].to@ by {
                assert(x.graph.nodes@[x.links@[f].0 as int].id == graph.nodes@[x.links@[f].0 as int].id);
                assert(x.graph.nodes@[x.links@[f].1 as int].id == graph.nodes@[x.links@[f].1 as int].id);
            }
            assert(x.graph.is_wave_map(x.levels@)) by {
                assert forall|e: int, a: int, b: int| #[trigger] x.graph.joins(e, a, b) implies graph.joins(e, a, b) by {
                    assert(x.graph.nodes@[a].id == graph.nodes@[a].id);
                    assert(x.graph.nodes@[b].id == graph.nodes@[b].id);
                }
                assert forall|e: int, a: int, b: int| #[trigger] graph.joins(e, a, b) implies x.graph.joins(e, a, b) by {
                    assert(x.graph.nodes@[a].id == graph.nodes@[a].id);
                    assert(x.graph.nodes@[b].id == graph.nodes@[b].id);
                }
            }
        }
        Ok(x)
    }

    fn set_node(
        &mut self,
        v: usize,
        status: NodeStatus,
        output: Option<String>,
        error: Option<String>,
        attempt: u32,
    )
        requires
            v < old(self).n(),
        ensures
            final(self).graph.nodes@ == old(self).graph.nodes@.update(
                v as int,
                with_state(old(self).graph.nodes@[v as int], status, output, error, attempt),
            ),
            final(self).graph.edges@ == old(self).graph.edges@,
            final(self).links@ == old(self).links@,
            final(self).levels@ == old(self).levels@,
            final(self).cache@ == old(self).cache@,
            final(self).events@ == old(self).events@,
            final(self).retry_limit == old(self).retry_limit,
    {
        let mut node = self.graph.nodes[v].duplicate();
        node.status = status;
        node.output = output;
        node.error = error;
        node.attempt = attempt;
        self.graph.nodes.set(v, node);
    }

    /// Whether every predecessor of `v` is terminal, and whether one failed.
    fn pred_summary(&self, v: usize) -> (r: (bool, bool))
        requires
            links_match(self.graph, self.links@),
        ensures
            r.0 == self.preds_terminal(v as int),
            r.1 == self.some_pred_failed(v as int),
    {
        let mut all_terminal = true;
        let mut failed = false;
        let mut e: usize = 0;
        while e < self.links.len()
            invariant
                links_match(self.graph, self.links@),
                e <= self.links@.len(),
                all_terminal == forall|f: int|
                    0 <= f < e && (#[trigger] self.links@[f]).1 == v ==> self.status(
                        self.links@[f].0 as int,
                    ).is_terminal(),
                failed == exists|f: int|
                    0 <= f < e && (#[trigger] self.links@[f]).1 == v && self.status(
                        self.links@[f].0 as int,
                    ) is Error,
            decreases self.links@.len() - e,
        {
            let (a, b) = self.links[e];
            if b == v {
                if !self.graph.nodes[a].status.terminal() {
                    all_terminal = false;
                }
                if self.graph.nodes[a].status.failed() {
                    failed = true;
                }
            }
            e = e + 1;
        }
        (all_terminal, failed)
    }

    /// The input text for node `v`.
    pub fn input_for(&self, v: usize) -> (r: String)
        requires
            links_match(self.graph, self.links@),
            v < self.n(),
        ensures
            r@ == self.resolved_input(v as int),
    {
        proof {
            lemma_primary_source(self.links@, v as int);
        }
        match primary_source_of(&self.links, v) {
            Some(u) => {
                let n = &self.graph.nodes[u];
                if n.status.produced_output() {
                    match &n.output {
                        Some(o) => {
                            return o.clone();
                        },
                        None => {},
                    }
                }
            },
            None => {},
        }
        match &self.graph.nodes[v].input {
            Some(s) => s.clone(),
            None => String::new(),
        }
    }

    /// The output of the first recorded invocation of `plugin` on `input`.
    pub fn lookup_cache(&self, plugin: &String, input: &String) -> (r: Option<String>)
        ensures
            match r {
                Some(o) => cached_output(cache_view(self.cache@), plugin@, input@) == Some(o@),
                None => cached_output(cache_view(self.cache@), plugin@, input@) is None,
            },
    {
        proof {
            assert(cache_view(self.cache@).subrange(0, self.cache@.len() as int) =~= cache_view(
                self.cache@,
            ));
        }
        let mut k: usize = 0;
        while k < self.cache.len()
            invariant
                k <= self.cache@.len(),
                cached_output(cache_view(self.cache@), plugin@, input@) == cached_output(
                    cache_view(self.cache@).subrange(k as int, self.cache@.len() as int),
                    plugin@,
                    input@,
                ),
            decreases self.cache@.len() - k,
        {
            let ghost rest = cache_view(self.cache@).subrange(k as int, self.cache@.len() as int);
            proof {
                assert(rest.drop_first() =~= cache_view(self.cache@).subrange(
                    k + 1,
                    self.cache@.len() as int,
                ));
            }
            let c = &self.cache[k];
            if c.plugin == *plugin && c.input == *input {
                return Some(c.output.clone());
            }
            k = k + 1;
        }
        None
    }

    /// Decides what happens to node `v`, which must be pending with every
    /// predecessor terminal: it fails without running when a predecessor
    /// failed, takes the output of an earlier identical invocation, or starts
    /// running.
    pub fn prepare(&mut self, v: usize) -> (r: Step)
        requires
            old(self).wf(),
            v < old(self).n(),
        ensures
            final(self).wf(),
            final(self).same_frame(old(self)),
            final(self).touches_only(old(self), v as int),
            final(self).cache@ == old(self).cache@,
            r is Wait <==> !(old(self).status(v as int) is Pending && old(self).preds_terminal(v as int)),
            r is Wait ==> final(self).graph.nodes@ == old(self).graph.nodes@ && final(self).events@
                == old(self).events@,
            r is Skipped <==> !(r is Wait) && old(self).some_pred_failed(v as int),
            r is Skipped ==> final(self).status(v as int) is Error && final(self).events@
                == old(self).events@.push(NodeEvent { node: v, status: NodeStatus::Error }),
            r is Cached <==> !(r is Wait) && !old(self).some_pred_failed(v as int) && cached_output(
                cache_view(old(self).cache@),
                old(self).graph.nodes@[v as int].run@,
                old(self).resolved_input(v as int),
            ) is Some,
            r is Cached ==> final(self).status(v as int) is Cache && (final(self).graph.nodes@[v as int].output matches Some(o) && cached_output(
                cache_view(old(self).cache@),
                old(self).graph.nodes@[v as int].run@,
                old(self).resolved_input(v as int),
            ) == Some(o@)) && final(self).events@ == old(self).events@.push(
                NodeEvent { node: v, status: NodeStatus::Cache },
            ),
            r matches Step::Invoke { plugin, input } ==> {
                &&& plugin@ == old(self).graph.nodes@[v as int].run@
                &&& input@ == old(self).resolved_input(v as int)
                &&& final(self).status(v as int) is Running
                &&& final(self).graph.nodes@[v as int].attempt == 0
                &&& final(self).events@ == old(self).events@.push(
                    NodeEvent { node: v, status: NodeStatus::Running },
                )
            },
            !(r is Done),
    {
        if !self.graph.nodes[v].status.is_pending() {
            return Step::Wait;
        }
        let (ready, failed) = self.pred_summary(v);
        if !ready {
            return Step::Wait;
        }
        let ghost old_self = *self;
        if failed {
            self.set_node(v, NodeStatus::Error, None, Some(String::from_str("a predecessor failed")), 0);
            self.events.push(NodeEvent { node: v, status: NodeStatus::Error });
            proof {
                reveal_strlit("a predecessor failed");
                self.lemma_step_keeps_wf(&old_self, v as int);
            }
            return Step::Skipped;
        }
        let input = self.input_for(v);
        let plugin = self.graph.nodes[v].run.clone();
        match self.lookup_cache(&plugin, &input) {
            Some(out) => {
                self.set_node(v, NodeStatus::Cache, Some(out), None, 0);
                self.events.push(NodeEvent { node: v, status: NodeStatus::Cache });
                proof {
                    self.lemma_step_keeps_wf(&old_self, v as int);
                }
                Step::Cached
            },
            None => {
                self.set_node(v, NodeStatus::Running, None, None, 0);
                self.events.push(NodeEvent { node: v, status: NodeStatus::Running });
                proof {
                    self.lemma_step_keeps_wf(&old_self, v as int);
                }
                Step::Invoke { plugin, input }
            },
        }
    }

    /// Takes the outcome of invoking running node `v`. An output makes it
    /// succeed and is recorded for later identical invocations; a failed call
    /// is retried while the attempt count stays within the limit, after
    /// which the node fails; a refused input fails the node at once.
    pub fn record(&mut self, v: usize, outcome: Outcome) -> (r: Step)
        requires
            old(self).wf(),
            v < old(self).n(),
        ensures
            final(self).wf(),
            final(self).same_frame(old(self)),
            final(self).touches_only(old(self), v as int),
            r is Wait <==> !(old(self).status(v as int) is Running),
            r is Wait ==> final(self).graph.nodes@ == old(self).graph.nodes@ && final(self).events@
                == old(self).events@ && final(self).cache@ == old(self).cache@,
            !(r is Wait) ==> match outcome {
                Outcome::Output(text) => {
                    &&& r is Done
                    &&& final(self).status(v as int) is Success
                    &&& final(self).graph.nodes@[v as int].output == Some(text)
                    &&& final(self).graph.nodes@[v as int].attempt == old(self).graph.nodes@[v as int].attempt
                    &&& cache_view(final(self).cache@) == cache_view(old(self).cache@).push(
                        (
                            old(self).graph.nodes@[v as int].run@,
                            old(self).resolved_input(v as int),
                            text@,
                        ),
                    )
                    &&& final(self).events@ == old(self).events@.push(
                        NodeEvent { node: v, status: NodeStatus::Success },
                    )
                },
                Outcome::Rejected => {
                    &&& r is Done
                    &&& final(self).status(v as int) is Error
                    &&& final(self).graph.nodes@[v as int].attempt == old(self).graph.nodes@[v as int].attempt
                    &&& final(self).cache@ == old(self).cache@
                    &&& final(self).events@ == old(self).events@.push(
                        NodeEvent { node: v, status: NodeStatus::Error },
                    )
                },
                Outcome::Failed(_) => {
                    &&& (final(self).status(v as int), final(self).graph.nodes@[v as int].attempt as nat)
                        == next_state(
                        old(self).graph.nodes@[v as int].attempt as nat,
                        false,
                        old(self).retry_limit as nat,
                    )
                    &&& final(self).cache@ == old(self).cache@
                    &&& final(self).status(v as int) is Running ==> {
                        &&& final(self).events@ == old(self).events@
                        &&& r matches Step::Invoke { plugin, input } && plugin@ == old(
                            self,
                        ).graph.nodes@[v as int].run@ && input@ == old(self).resolved_input(v as int)
                    }
                    &&& final(self).status(v as int) is Error ==> {
                        &&& r is Done
                        &&& final(self).events@ == old(self).events@.push(
                            NodeEvent { node: v, status: NodeStatus::Error },
                        )
                    }
                },
            },
    {
        if !self.graph.nodes[v].status.is_running() {
            return Step::Wait;
        }
        let ghost old_self = *self;
        let attempt = self.graph.nodes[v].attempt;
        match outcome {
            Outcome::Output(text) => {
                let input = self.input_for(v);
                let plugin = self.graph.nodes[v].run.clone();
                let kept = text.clone();
                self.set_node(v, NodeStatus::Success, Some(text), None, attempt);
                self.cache.push(CacheEntry { plugin, input, output: kept });
                self.events.push(NodeEvent { node: v, status: NodeStatus::Success });
                proof {
                    assert(cache_view(self.cache@) =~= cache_view(old_self.cache@).push(
                        (
                            old_self.graph.nodes@[v as int].run@,
                            old_self.resolved_input(v as int),
                            self.cache@.last().output@,
                        ),
                    ));
                    self.lemma_step_keeps_wf(&old_self, v as int);
                }
                Step::Done
            },
            Outcome::Rejected => {
                self.set_node(
                    v,
                    NodeStatus::Error,
                    None,
                    Some(String::from_str("input rejected by the plugin")),
                    attempt,
                );
                self.events.push(NodeEvent { node: v, status: NodeStatus::Error });
                proof {
                    reveal_strlit("input rejected by the plugin");
                    self.lemma_step_keeps_wf(&old_self, v as int);
                }
                Step::Done
            },
            Outcome::Failed(msg) => {
                let next = attempt + 1;
                if next <= self.retry_limit {
                    let input = self.input_for(v);
                    let plugin = self.graph.nodes[v].run.clone();
                    self.set_node(v, NodeStatus::Running, None, None, next);
                    proof {
                        self.lemma_step_keeps_wf(&old_self, v as int);
                    }
                    Step::Invoke { plugin, input }
                } else {
                    let detail = if !msg.as_str().is_empty() {
                        msg
                    } else {
                        String::from_str("plugin invocation failed")
                    };
                    proof {
                        reveal_strlit("plugin invocation failed");
                    }
                    self.set_node(v, NodeStatus::Error, None, Some(detail), next);
                    self.events.push(NodeEvent { node: v, status: NodeStatus::Error });
                    proof {
                        self.lemma_step_keeps_wf(&old_self, v as int);
                    }
                    Step::Done
                }
            },
        }
    }

    /// A change of node `v` alone keeps the invariant when the new node is
    /// consistent and, if it left `pending`, its predecessors allow it.
    proof fn lemma_step_keeps_wf(&self, old_self: &Execution, v: int)
        requires
            old_self.wf(),
            0 <= v < old_self.n(),
            self.same_frame(old_self),
            self.touches_only(old_self, v),
            node_consistent(self.graph.nodes@[v]),
            self.status(v) is Running ==> self.graph.nodes@[v].attempt <= self.retry_limit,
            self.status(v) is Pending ==> self.graph.nodes@[v].attempt == 0,
            old_self.status(v).is_terminal() ==> self.status(v) == old_self.status(v),
            !(self.status(v) is Pending) ==> old_self.preds_terminal(v),
            !(self.status(v) is Pending) && old_self.some_pred_failed(v) ==> self.status(v) is Error,
            !(old_self.status(v) is Pending) || self.status(v) is Pending || forall|e: int|
                0 <= e < self.links@.len() && (#[trigger] self.links@[e]).0 == v ==> old_self.status(
                    self.links@[e].1 as int,
                ) is Pending,
        ensures
            self.wf(),
    {
        assert(self.graph.nodes@.len() == old_self.graph.nodes@.len());
        assert forall|a: int, b: int|
            0 <= a < self.n() && 0 <= b < self.n() && a != b implies #[trigger] self.graph.nodes@[a].id@
            != #[trigger] self.graph.nodes@[b].id@ by {
            assert(self.graph.nodes@[a].id == old_self.graph.nodes@[a].id);
            assert(self.graph.nodes@[b].id == old_self.graph.nodes@[b].id);
        }
        assert forall|f: int| 0 <= f < self.links@.len() implies self.graph.nodes@[(
        #[trigger] self.links@[f]).0 as int].id@ == self.graph.edges@[f].from@
            && self.graph.nodes@[self.links@[f].1 as int].id@ == self.graph.edges@[f].to@ by {
            assert(self.graph.nodes@[self.links@[f].0 as int].id == old_self.graph.nodes@[self.links@[f].0 as int].id);
            assert(self.graph.nodes@[self.links@[f].1 as int].id == old_self.graph.nodes@[self.links@[f].1 as int].id);
        }
        assert forall|w: int| 0 <= w < self.n() implies node_consistent(#[trigger] self.graph.nodes@[w]) by {
            if w != v {
                assert(self.graph.nodes@[w] == old_self.graph.nodes@[w]);
            }
        }
        assert forall|w: int| 0 <= w < self.n() && #[trigger] self.status(w) is Running implies self.graph.nodes@[w].attempt <= self.retry_limit by {
            if w != v {
                assert(self.graph.nodes@[w] == old_self.graph.nodes@[w]);
                assert(old_self.status(w) == self.status(w));
            }
        }
        assert forall|w: int| 0 <= w < self.n() && #[trigger] self.status(w) is Pending implies self.graph.nodes@[w].attempt == 0 by {
            if w != v {
                assert(self.graph.nodes@[w] == old_self.graph.nodes@[w]);
                assert(old_self.status(w) == self.status(w));
            }
        }
        assert forall|e: int|
            0 <= e < self.links@.len() && !(self.status((#[trigger] self.links@[e]).1 as int) is Pending)
            implies self.status(self.links@[e].0 as int).is_terminal() && (self.status(
                self.links@[e].0 as int,
            ) is Error ==> self.status(self.links@[e].1 as int) is Error) by {
            let a = self.links@[e].0 as int;
            let b = self.links@[e].1 as int;
            assert(old_self.links@[e] == self.links@[e]);
            if a != v {
                assert(self.graph.nodes@[a] == old_self.graph.nodes@[a]);
            }
            if b != v {
                assert(self.graph.nodes@[b] == old_self.graph.nodes@[b]);
            }
            if b == v {
                assert(old_self.status(a).is_terminal());
                if old_self.status(a) is Error {
                    assert(old_self.some_pred_failed(v));
                }
            }
        }
    }

    /// The lowest-numbered node that can be prepared now: pending, with every
    /// predecessor terminal. Running nodes one at a time in this order is the
    /// sequential mode.
    pub fn next_ready(&self) -> (r: Option<usize>)
        requires
            links_match(self.graph, self.links@),
        ensures
            r matches Some(v) ==> v < self.n() && self.status(v as int) is Pending
                && self.preds_terminal(v as int),
            forall|w: int|
                0 <= w < self.n() && (r matches Some(v) ==> w < v) ==> !(#[trigger] self.status(w) is Pending
                    && self.preds_terminal(w)),
    {
        let mut v: usize = 0;
        while v < self.graph.nodes.len()
            invariant
                links_match(self.graph, self.links@),
                v <= self.n(),
                forall|w: int|
                    0 <= w < v ==> !(#[trigger] self.status(w) is Pending && self.preds_terminal(w)),
            decreases self.n() - v,
        {
            if self.graph.nodes[v].status.is_pending() {
                let (ready, _) = self.pred_summary(v);
                if ready {
                    return Some(v);
                }
            }
            v = v + 1;
        }
        None
    }

    /// The nodes of wave `k`, in index order. Nodes of one wave do not
    /// depend on each other and may run concurrently once every earlier wave
    /// is terminal.
    pub fn wave(&self, k: usize) -> (r: Vec<usize>)
        requires
            self.levels@.len() == self.n(),
        ensures
            forall|j: int| 0 <= j < r@.len() ==> #[trigger] r@[j] < self.n() && self.levels@[r@[j] as int] == k,
            forall|j: int, l: int| 0 <= j < l < r@.len() ==> r@[j] < r@[l],
            forall|v: int|
                0 <= v < self.n() && #[trigger] self.levels@[v] == k ==> exists|j: int|
                    0 <= j < r@.len() && r@[j] == v,
    {
        let mut r: Vec<usize> = Vec::new();
        let mut v: usize = 0;
        while v < self.levels.len()
            invariant
                self.levels@.len() == self.n(),
                v <= self.n(),
                forall|j: int| 0 <= j < r@.len() ==> #[trigger] r@[j] < v && self.levels@[r@[j] as int] == k,
                forall|j: int, l: int| 0 <= j < l < r@.len() ==> r@[j] < r@[l],
                forall|w: int|
                    0 <= w < v && #[trigger] self.levels@[w] == k ==> exists|j: int|
                        0 <= j < r@.len() && r@[j] == w,
            decreases self.n() - v,
        {
            let ghost r0 = r@;
            if self.levels[v] == k {
                r.push(v);
                proof {
                    assert(r@[r@.len() - 1] == v);
                    assert forall|w: int|
                        0 <= w < v && #[trigger] self.levels@[w] == k implies exists|j: int|
                            0 <= j < r@.len() && r@[j] == w by {
                        let j = choose|j: int| 0 <= j < r0.len() && r0[j] == w;
                        assert(r@[j] == r0[j]);
                    }
                }
            }
            v = v + 1;
        }
        r
    }

    /// The number of waves.
    pub fn wave_count(&self) -> (r: usize)
        requires
            self.levels@.len() == self.n(),
            forall|v: int| 0 <= v < self.n() ==> #[trigger] self.levels@[v] < self.n(),
        ensures
            forall|v: int| 0 <= v < self.n() ==> #[trigger] self.levels@[v] < r,
            self.n() > 0 ==> exists|v: int| 0 <= v < self.n() && self.levels@[v] + 1 == r,
            self.n() == 0 ==> r == 0,
    {
        let mut r: usize = 0;
        let mut v: usize = 0;
        while v < self.levels.len()
            invariant
                self.levels@.len() == self.n(),
                forall|w: int| 0 <= w < self.n() ==> #[trigger] self.levels@[w] < self.n(),
                v <= self.n(),
                forall|w: int| 0 <= w < v ==> #[trigger] self.levels@[w] < r,
                v > 0 ==> exists|w: int| 0 <= w < v && self.levels@[w] + 1 == r,
                v == 0 ==> r == 0,
            decreases self.n() - v,
        {
            if self.levels[v] + 1 > r {
                r = self.levels[v] + 1;
            }
            v = v + 1;
        }
        r
    }

    /// The aggregate result, once every node is terminal.
    pub fn finish(&self) -> (r: Option<WorkflowResult>)
        ensures
            r is Some <==> forall|v: int| 0 <= v < self.n() ==> (#[trigger] self.status(v)).is_terminal(),
            r matches Some(res) ==> res.success == forall|v: int|
                0 <= v < self.n() ==> !(#[trigger] self.status(v) is Error),
    {
        let mut ok = true;
        let mut v: usize = 0;
        while v < self.graph.nodes.len()
            invariant
                v <= self.n(),
                forall|w: int| 0 <= w < v ==> (#[trigger] self.status(w)).is_terminal(),
                ok == !exists|w: int| 0 <= w < v && #[trigger] self.status(w) is Error,
            decreases self.n() - v,
        {
            if !self.graph.nodes[v].status.terminal() {
                assert(!self.status(v as int).is_terminal());
                return None;
            }
            if self.graph.nodes[v].status.failed() {
                assert(self.status(v as int) is Error);
                ok = false;
            }
            v = v + 1;
        }
        Some(WorkflowResult { success: ok })
    }
}

} // verus!
