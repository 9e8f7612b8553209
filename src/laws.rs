//! Properties of runs that span several steps of the scheduler.

use vstd::prelude::*;
use crate::engine::{cached_output, next_state, Execution};
use crate::graph::NodeStatus;

verus! {

/// A node that has left `pending` did so only after every predecessor became
/// terminal; and it runs, or has run, only if no predecessor failed.
pub proof fn lemma_start_after_predecessors(x: &Execution, e: int)
    requires
        x.wf(),
        0 <= e < x.links@.len(),
        !(x.status(x.links@[e].1 as int) is Pending),
    ensures
        x.status(x.links@[e].0 as int).is_terminal(),
        x.status(x.links@[e].1 as int) is Running ==> !(x.status(x.links@[e].0 as int) is Error),
        x.status(x.links@[e].1 as int).has_output() ==> !(x.status(x.links@[e].0 as int) is Error),
{
}

/// Some edge of the run's graph leads from node `a` to node `b`.
pub open spec fn has_edge(x: &Execution, a: usize, b: usize) -> bool {
    exists|e: int| 0 <= e < x.links@.len() && #[trigger] x.links@[e] == (a, b)
}

/// `path` follows edges of the run's graph.
pub open spec fn is_path(x: &Execution, path: Seq<usize>) -> bool {
    forall|k: int| 0 <= k < path.len() - 1 ==> #[trigger] has_edge(x, path[k], path[k + 1])
}

/// Once a run is over, a failed node has failed every node downstream of it.
pub proof fn lemma_failure_spreads(x: &Execution, path: Seq<usize>)
    requires
        x.wf(),
        path.len() > 0,
        is_path(x, path),
        forall|v: int| 0 <= v < x.n() ==> (#[trigger] x.status(v)).is_terminal(),
        x.status(path[0] as int) is Error,
    ensures
        x.status(path.last() as int) is Error,
    decreases path.len(),
{
    if path.len() > 1 {
        let front = path.drop_last();
        assert forall|k: int| 0 <= k < front.len() - 1 implies #[trigger] has_edge(
            x,
            front[k],
            front[k + 1],
        ) by {
            assert(front[k] == path[k] && front[k + 1] == path[k + 1]);
            assert(has_edge(x, path[k], path[k + 1]));
        }
        lemma_failure_spreads(x, front);
        let k = path.len() - 2;
        assert(has_edge(x, path[k], path[k + 1]));
        let e = choose|e: int|
            0 <= e < x.links@.len() && #[trigger] x.links@[e] == (path[k], path[k + 1]);
        assert(x.links@[e].1 < x.n());
        assert(x.status(x.links@[e].1 as int).is_terminal());
    }
}

/// Status and attempt count of a running node with `attempt` failed attempts
/// behind it, after the given outcomes (true: success) until it stops running.
pub open spec fn after_outcomes(attempt: nat, outcomes: Seq<bool>, limit: nat) -> (NodeStatus, nat)
    decreases outcomes.len(),
{
    if outcomes.len() == 0 {
        (NodeStatus::Running, attempt)
    } else {
        let (status, next) = next_state(attempt, outcomes[0], limit);
        if status is Running {
            after_outcomes(next, outcomes.drop_first(), limit)
        } else {
            (status, next)
        }
    }
}

/// A node that fails `k` times, `k` at most the retry limit, and then
/// succeeds, ends `success` with `k` attempts counted.
pub proof fn lemma_retried_success(k: nat, limit: nat)
    requires
        k <= limit,
    ensures
        after_outcomes(0, Seq::new(k, |i: int| false).push(true), limit) == (NodeStatus::Success, k),
{
    lemma_retries_from(0, k, limit);
}

proof fn lemma_retries_from(a: nat, m: nat, limit: nat)
    requires
        a + m <= limit,
    ensures
        after_outcomes(a, Seq::new(m, |i: int| false).push(true), limit) == (NodeStatus::Success, a + m),
    decreases m,
{
    let s = Seq::new(m, |i: int| false).push(true);
    if m > 0 {
        assert(s.drop_first() =~= Seq::new((m - 1) as nat, |i: int| false).push(true));
        lemma_retries_from(a + 1, (m - 1) as nat, limit);
    }
}

/// A node that fails one time more than the retry limit ends `error`.
pub proof fn lemma_retries_exhausted(limit: nat)
    ensures
        after_outcomes(0, Seq::new(limit + 1, |i: int| false), limit).0 is Error,
{
    lemma_failures_from(0, limit + 1, limit);
}

proof fn lemma_failures_from(a: nat, m: nat, limit: nat)
    requires
        a + m == limit + 1,
        m > 0,
    ensures
        after_outcomes(a, Seq::new(m, |i: int| false), limit) == (NodeStatus::Error, limit + 1),
    decreases m,
{
    let s = Seq::new(m, |i: int| false);
    if m > 1 {
        assert(s.drop_first() =~= Seq::new((m - 1) as nat, |i: int| false));
        lemma_failures_from(a + 1, (m - 1) as nat, limit);
    }
}

/// Once an invocation of `plugin` on `input` has been recorded, a later node
/// with the same pair is served the recorded output; an earlier record of the
/// pair keeps precedence.
pub proof fn lemma_cache_replays(
    cache: Seq<(Seq<char>, Seq<char>, Seq<char>)>,
    plugin: Seq<char>,
    input: Seq<char>,
    output: Seq<char>,
)
    ensures
        cached_output(cache, plugin, input) is None ==> cached_output(
            cache.push((plugin, input, output)),
            plugin,
            input,
        ) == Some(output),
        cached_output(cache, plugin, input) is Some ==> cached_output(
            cache.push((plugin, input, output)),
            plugin,
            input,
        ) == cached_output(cache, plugin, input),
    decreases cache.len(),
{
    let pushed = cache.push((plugin, input, output));
    if cache.len() > 0 {
        assert(pushed.drop_first() =~= cache.drop_first().push((plugin, input, output)));
        lemma_cache_replays(cache.drop_first(), plugin, input, output);
    }
}

} // verus!
