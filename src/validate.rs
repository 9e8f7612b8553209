//! Checks a workflow graph before a run and groups its nodes into waves.

use vstd::prelude::*;
use crate::graph::WorkflowGraph;

verus! {

/// Why a graph cannot run.
#[derive(Clone, Debug)]
pub enum ValidationError {
    /// Two nodes share this id.
    DuplicateId(String),
    /// An edge names this id, which no node has.
    UnknownNode(String),
    /// These nodes lie on a cycle or downstream of one.
    Cycle(Vec<String>),
}

/// Edges as pairs of node indices.
pub open spec fn links_valid(n: nat, links: Seq<(usize, usize)>) -> bool {
    forall|e: int| 0 <= e < links.len() ==> (#[trigger] links[e]).0 < n && links[e].1 < n
}

/// `links[e]` holds the indices of the two ends of edge `e`.
pub open spec fn links_match(g: WorkflowGraph, links: Seq<(usize, usize)>) -> bool {
    &&& links.len() == g.edges@.len()
    &&& links_valid(g.nodes@.len(), links)
    &&& forall|e: int|
        0 <= e < links.len() ==> g.nodes@[(#[trigger] links[e]).0 as int].id@ == g.edges@[e].from@
            && g.nodes@[links[e].1 as int].id@ == g.edges@[e].to@
}

pub open spec fn link_ranking(n: nat, links: Seq<(usize, usize)>, rank: Seq<nat>) -> bool {
    &&& rank.len() == n
    &&& forall|e: int|
        0 <= e < links.len() ==> rank[(#[trigger] links[e]).0 as int] < rank[links[e].1 as int]
}

/// Wave numbers over index pairs (see `WorkflowGraph::is_wave_map`).
pub open spec fn link_waves(n: nat, links: Seq<(usize, usize)>, level: Seq<usize>) -> bool {
    &&& level.len() == n
    &&& forall|e: int|
        0 <= e < links.len() ==> level[(#[trigger] links[e]).0 as int] < level[links[e].1 as int]
    &&& forall|j: int|
        0 <= j < n && #[trigger] level[j] > 0 ==> exists|e: int|
            0 <= e < links.len() && (#[trigger] links[e]).1 == j && level[links[e].0 as int] + 1
                == level[j]
}

pub open spec fn count_true(s: Seq<bool>) -> nat
    decreases s.len(),
{
    if s.len() == 0 {
        0
    } else {
        count_true(s.drop_last()) + if s.last() {
            1nat
        } else {
            0nat
        }
    }
}

proof fn lemma_count_bounds(s: Seq<bool>)
    ensures
        count_true(s) <= s.len(),
        (forall|i: int| 0 <= i < s.len() ==> s[i]) ==> count_true(s) == s.len(),
        (forall|i: int| 0 <= i < s.len() ==> !s[i]) ==> count_true(s) == 0,
    decreases s.len(),
{
    if s.len() > 0 {
        lemma_count_bounds(s.drop_last());
        if forall|i: int| 0 <= i < s.len() ==> s[i] {
            assert forall|i: int| 0 <= i < s.drop_last().len() implies s.drop_last()[i] by {
                assert(s[i]);
            }
        }
        if forall|i: int| 0 <= i < s.len() ==> !s[i] {
            assert forall|i: int| 0 <= i < s.drop_last().len() implies !s.drop_last()[i] by {
                assert(!s[i]);
            }
        }
    }
}

proof fn lemma_count_set(s: Seq<bool>, k: int)
    requires
        0 <= k < s.len(),
        !s[k],
    ensures
        count_true(s.update(k, true)) == count_true(s) + 1,
    decreases s.len(),
{
    let t = s.update(k, true);
    if k == s.len() - 1 {
        assert(t.drop_last() =~= s.drop_last());
    } else {
        assert(t.drop_last() =~= s.drop_last().update(k, true));
        lemma_count_set(s.drop_last(), k);
    }
}

/// Under a ranking, no non-empty set of nodes can give each of its members a
/// predecessor inside the set.
proof fn lemma_rank_floor(
    n: nat,
    links: Seq<(usize, usize)>,
    done: Seq<bool>,
    rank: Seq<nat>,
    k: nat,
)
    requires
        done.len() == n,
        links_valid(n, links),
        link_ranking(n, links, rank),
        forall|v: int|
            0 <= v < n && !#[trigger] done[v] ==> exists|e: int|
                0 <= e < links.len() && (#[trigger] links[e]).1 == v && !done[links[e].0 as int],
    ensures
        forall|v: int| 0 <= v < n && !#[trigger] done[v] ==> rank[v] >= k,
    decreases k,
{
    if k > 0 {
        lemma_rank_floor(n, links, done, rank, (k - 1) as nat);
        assert forall|v: int| 0 <= v < n && !#[trigger] done[v] implies rank[v] >= k by {
            let e = choose|e: int|
                0 <= e < links.len() && (#[trigger] links[e]).1 == v && !done[links[e].0 as int];
            assert(rank[links[e].0 as int] >= k - 1);
        }
    }
}

proof fn lemma_stuck_is_cyclic(n: nat, links: Seq<(usize, usize)>, done: Seq<bool>, v0: int)
    requires
        done.len() == n,
        links_valid(n, links),
        0 <= v0 < n,
        !done[v0],
        forall|v: int|
            0 <= v < n && !#[trigger] done[v] ==> exists|e: int|
                0 <= e < links.len() && (#[trigger] links[e]).1 == v && !done[links[e].0 as int],
    ensures
        !exists|rank: Seq<nat>| link_ranking(n, links, rank),
{
    if exists|rank: Seq<nat>| link_ranking(n, links, rank) {
        let rank = choose|rank: Seq<nat>| link_ranking(n, links, rank);
        lemma_rank_floor(n, links, done, rank, rank[v0] + 1);
    }
}

/// Every predecessor of node `x` is placed.
pub open spec fn preds_placed(links: Seq<(usize, usize)>, done: Seq<bool>, x: int) -> bool {
    forall|f: int| 0 <= f < links.len() && (#[trigger] links[f]).1 == x ==> done[links[f].0 as int]
}

/// What holds between rounds of `compute_levels`.
#[verifier::opaque]
spec fn peel_state(
    n: nat,
    links: Seq<(usize, usize)>,
    done: Seq<bool>,
    level: Seq<usize>,
    round: nat,
) -> bool {
    &&& done.len() == n
    &&& level.len() == n
    &&& links_valid(n, links)
    &&& forall|v: int| 0 <= v < n && #[trigger] done[v] ==> level[v] < round
    &&& forall|e: int|
        0 <= e < links.len() && done[(#[trigger] links[e]).1 as int] ==> done[links[e].0 as int]
            && level[links[e].0 as int] < level[links[e].1 as int]
    &&& forall|j: int|
        0 <= j < n && done[j] && #[trigger] level[j] > 0 ==> exists|e: int|
            0 <= e < links.len() && (#[trigger] links[e]).1 == j && level[links[e].0 as int] + 1
                == level[j]
    &&& forall|j: int|
        0 <= j < n && !#[trigger] done[j] && round > 0 ==> exists|e: int|
            0 <= e < links.len() && (#[trigger] links[e]).1 == j && (!done[links[e].0 as int]
                || level[links[e].0 as int] + 1 == round)
}

proof fn lemma_round_step(
    n: nat,
    links: Seq<(usize, usize)>,
    done0: Seq<bool>,
    level0: Seq<usize>,
    ready: Seq<bool>,
    round: nat,
    done: Seq<bool>,
    level: Seq<usize>,
)
    requires
        peel_state(n, links, done0, level0, round),
        ready.len() == n,
        forall|x: int|
            0 <= x < n ==> #[trigger] ready[x] == (!done0[x] && preds_placed(links, done0, x)),
        done.len() == n,
        level.len() == n,
        forall|x: int| 0 <= x < n ==> #[trigger] done[x] == (done0[x] || ready[x]),
        forall|x: int|
            0 <= x < n ==> #[trigger] level[x] == if ready[x] {
                round as int
            } else {
                level0[x] as int
            },
    ensures
        peel_state(n, links, done, level, round + 1),
{
    reveal(peel_state);
    assert forall|e: int|
        0 <= e < links.len() && done[(#[trigger] links[e]).1 as int] implies done[links[e].0 as int]
            && level[links[e].0 as int] < level[links[e].1 as int] by {
        let a = links[e].0 as int;
        let b = links[e].1 as int;
        if ready[b] {
            assert(preds_placed(links, done0, b));
            assert(done0[a]);
        }
    }
    assert forall|j: int| 0 <= j < n && done[j] && #[trigger] level[j] > 0 implies exists|e: int|
        0 <= e < links.len() && (#[trigger] links[e]).1 == j && level[links[e].0 as int] + 1
            == level[j] by {
        if ready[j] {
            let e = choose|e: int|
                0 <= e < links.len() && (#[trigger] links[e]).1 == j && (!done0[links[e].0 as int]
                    || level0[links[e].0 as int] + 1 == round);
            assert(preds_placed(links, done0, j));
            assert(done0[links[e].0 as int]);
            assert(!ready[links[e].0 as int]);
        } else {
            let e = choose|e: int|
                0 <= e < links.len() && (#[trigger] links[e]).1 == j && level0[links[e].0 as int] + 1
                    == level0[j];
            assert(done0[links[e].0 as int]);
            assert(!ready[links[e].0 as int]);
        }
    }
    assert forall|j: int| 0 <= j < n && !#[trigger] done[j] && round + 1 > 0 implies exists|e: int|
        0 <= e < links.len() && (#[trigger] links[e]).1 == j && (!done[links[e].0 as int]
            || level[links[e].0 as int] + 1 == round + 1) by {
        assert(!ready[j]);
        assert(!preds_placed(links, done0, j));
        let e = choose|e: int|
            0 <= e < links.len() && (#[trigger] links[e]).1 == j && !done0[links[e].0 as int];
        assert(0 <= e < links.len() && links[e].1 == j);
    }
}

proof fn lemma_all_placed(
    n: nat,
    links: Seq<(usize, usize)>,
    done: Seq<bool>,
    level: Seq<usize>,
    round: nat,
)
    requires
        peel_state(n, links, done, level, round),
        count_true(done) == n,
        round <= n,
    ensures
        link_waves(n, links, level),
        forall|v: int| 0 <= v < n ==> #[trigger] level[v] < n,
        link_ranking(n, links, Seq::new(n, |v: int| level[v] as nat)),
{
    reveal(peel_state);
    assert forall|j: int| 0 <= j < n implies done[j] by {
        if !done[j] {
            lemma_count_bounds(done.update(j, true));
            lemma_count_set(done, j);
        }
    }
}

proof fn lemma_stuck(n: nat, links: Seq<(usize, usize)>, done: Seq<bool>, ready: Seq<bool>)
    requires
        done.len() == n,
        links_valid(n, links),
        count_true(done) < n,
        ready.len() == n,
        forall|x: int|
            0 <= x < n ==> #[trigger] ready[x] == (!done[x] && preds_placed(links, done, x)),
        forall|x: int| 0 <= x < n ==> !#[trigger] ready[x],
    ensures
        exists|y: int| 0 <= y < n && !#[trigger] done[y],
        !exists|rank: Seq<nat>| link_ranking(n, links, rank),
{
    lemma_count_bounds(done);
    let v0 = choose|v0: int| 0 <= v0 < n && !done[v0];
    assert forall|j: int| 0 <= j < n && !#[trigger] done[j] implies exists|f: int|
        0 <= f < links.len() && (#[trigger] links[f]).1 == j && !done[links[f].0 as int] by {
        assert(!ready[j]);
        assert(!preds_placed(links, done, j));
    }
    lemma_stuck_is_cyclic(n, links, done, v0);
}

/// For each node, whether it is unplaced with all predecessors placed.
fn ready_nodes(n: usize, links: &Vec<(usize, usize)>, done: &Vec<bool>) -> (ready: Vec<bool>)
    requires
        done@.len() == n,
        links_valid(n as nat, links@),
    ensures
        ready@.len() == n,
        forall|x: int|
            0 <= x < n ==> #[trigger] ready@[x] == (!done@[x] && preds_placed(links@, done@, x)),
{
    let mut ready: Vec<bool> = Vec::new();
    let mut v: usize = 0;
    while v < n
        invariant
            v <= n,
            done@.len() == n,
            ready@.len() == v,
            forall|w: int| 0 <= w < v ==> #[trigger] ready@[w] == !done@[w],
        decreases n - v,
    {
        ready.push(!done[v]);
        v = v + 1;
    }
    let mut e: usize = 0;
    while e < links.len()
        invariant
            e <= links@.len(),
            done@.len() == n,
            ready@.len() == n,
            links_valid(n as nat, links@),
            forall|w: int|
                0 <= w < n ==> #[trigger] ready@[w] == (!done@[w] && forall|f: int|
                    0 <= f < e && (#[trigger] links@[f]).1 == w ==> done@[links@[f].0 as int]),
        decreases links@.len() - e,
    {
        let (a, b) = links[e];
        if !done[a] {
            ready.set(b, false);
        }
        e = e + 1;
    }
    ready
}

/// Places every ready node in wave `round`; returns whether any was placed.
fn place_ready(
    done: &mut Vec<bool>,
    level: &mut Vec<usize>,
    ready: &Vec<bool>,
    round: usize,
    count: &mut usize,
) -> (placed: bool)
    requires
        old(done)@.len() == ready@.len(),
        old(level)@.len() == ready@.len(),
        *old(count) == count_true(old(done)@),
        forall|x: int| 0 <= x < ready@.len() && #[trigger] ready@[x] ==> !old(done)@[x],
    ensures
        final(done)@.len() == ready@.len(),
        final(level)@.len() == ready@.len(),
        *final(count) == count_true(final(done)@),
        placed ==> *final(count) > *old(count),
        placed == exists|x: int| 0 <= x < ready@.len() && #[trigger] ready@[x],
        forall|x: int|
            0 <= x < ready@.len() ==> #[trigger] final(done)@[x] == (old(done)@[x] || ready@[x]),
        forall|x: int|
            0 <= x < ready@.len() ==> #[trigger] final(level)@[x] == if ready@[x] {
                round
            } else {
                old(level)@[x]
            },
{
    let n = ready.len();
    let ghost done0 = done@;
    let ghost level0 = level@;
    let mut placed: bool = false;
    let mut w: usize = 0;
    while w < n
        invariant
            n == ready@.len(),
            w <= n,
            done@.len() == n,
            level@.len() == n,
            done0.len() == n,
            level0.len() == n,
            *count == count_true(done@),
            *count >= count_true(done0),
            placed ==> *count > count_true(done0),
            forall|x: int| 0 <= x < w ==> #[trigger] done@[x] == (done0[x] || ready@[x]),
            forall|x: int|
                0 <= x < w ==> #[trigger] level@[x] == if ready@[x] {
                    round
                } else {
                    level0[x]
                },
            forall|x: int| w <= x < n ==> #[trigger] done@[x] == done0[x],
            forall|x: int| w <= x < n ==> #[trigger] level@[x] == level0[x],
            forall|x: int| 0 <= x < n && #[trigger] ready@[x] ==> !done0[x],
            placed == exists|x: int| 0 <= x < w && #[trigger] ready@[x],
        decreases n - w,
    {
        if ready[w] {
            proof {
                lemma_count_set(done@, w as int);
                lemma_count_bounds(done@.update(w as int, true));
            }
            done.set(w, true);
            level.set(w, round);
            *count = *count + 1;
            placed = true;
        }
        w = w + 1;
    }
    placed
}

/// Groups nodes `0..n` into waves by repeatedly taking every node whose
/// predecessors are all placed. On a cycle, returns the nodes left over.
pub fn compute_levels(n: usize, links: &Vec<(usize, usize)>) -> (r: Result<Vec<usize>, Vec<usize>>)
    requires
        links_valid(n as nat, links@),
    ensures
        r is Ok <==> exists|rank: Seq<nat>| link_ranking(n as nat, links@, rank),
        r matches Ok(level) ==> link_waves(n as nat, links@, level@) && forall|v: int|
            0 <= v < n ==> #[trigger] level@[v] < n,
        r matches Err(rest) ==> rest@.len() > 0 && forall|k: int|
            0 <= k < rest@.len() ==> #[trigger] rest@[k] < n,
{
    let mut done: Vec<bool> = Vec::new();
    let mut level: Vec<usize> = Vec::new();
    let mut i: usize = 0;
    while i < n
        invariant
            i <= n,
            done@.len() == i,
            level@.len() == i,
            forall|v: int| 0 <= v < i ==> !done@[v],
        decreases n - i,
    {
        done.push(false);
        level.push(0);
        i = i + 1;
    }
    proof {
        lemma_count_bounds(done@);
        reveal(peel_state);
    }
    let mut count: usize = 0;
    let mut round: usize = 0;
    loop
        invariant
            peel_state(n as nat, links@, done@, level@, round as nat),
            done@.len() == n,
            level@.len() == n,
            links_valid(n as nat, links@),
            count == count_true(done@),
            count <= n,
            round <= count,
        decreases n - count,
    {
        if count == n {
            proof {
                lemma_all_placed(n as nat, links@, done@, level@, round as nat);
            }
            return Ok(level);
        }
        let ready = ready_nodes(n, links, &done);
        let ghost done0 = done@;
        let ghost level0 = level@;
        let placed = place_ready(&mut done, &mut level, &ready, round, &mut count);
        proof {
            lemma_count_bounds(done@);
        }
        if !placed {
            proof {
                assert(done@ =~= done0);
                lemma_stuck(n as nat, links@, done@, ready@);
            }
            let mut rest: Vec<usize> = Vec::new();
            let mut x: usize = 0;
            while x < n
                invariant
                    x <= n,
                    done@.len() == n,
                    forall|k: int| 0 <= k < rest@.len() ==> #[trigger] rest@[k] < n,
                    (exists|y: int| 0 <= y < x && !#[trigger] done@[y]) ==> rest@.len() > 0,
                    exists|y: int| 0 <= y < n && !#[trigger] done@[y],
                decreases n - x,
            {
                if !done[x] {
                    rest.push(x);
                }
                x = x + 1;
            }
            return Err(rest);
        }
        proof {
            lemma_round_step(n as nat, links@, done0, level0, ready@, round as nat, done@, level@);
        }
        round = round + 1;
    }
}

/// The index of the node with id `id`, if there is one.
pub fn node_index(g: &WorkflowGraph, id: &String) -> (r: Option<usize>)
    ensures
        r matches Some(i) ==> i < g.nodes@.len() && g.nodes@[i as int].id@ == id@,
        r is None <==> !g.has_id(id@),
{
    let mut i: usize = 0;
    while i < g.nodes.len()
        invariant
            i <= g.nodes@.len(),
            forall|k: int| 0 <= k < i ==> g.nodes@[k].id@ != id@,
        decreases g.nodes@.len() - i,
    {
        if g.nodes[i].id == *id {
            return Some(i);
        }
        i = i + 1;
    }
    None
}

/// Checks that ids are distinct and that every edge names existing nodes,
/// and turns each edge into the indices of its two ends.
pub fn resolve_edges(g: &WorkflowGraph) -> (r: Result<Vec<(usize, usize)>, ValidationError>)
    ensures
        r is Ok <==> g.ids_distinct() && g.edges_resolve(),
        r matches Ok(links) ==> links_match(*g, links@),
        r matches Err(ValidationError::DuplicateId(s)) ==> !g.ids_distinct() && exists|i: int, j: int|
            0 <= i < j < g.nodes@.len() && g.nodes@[i].id@ == s@ && g.nodes@[j].id@ == s@,
        r matches Err(ValidationError::UnknownNode(s)) ==> g.ids_distinct() && !g.edges_resolve()
            && !g.has_id(s@) && exists|e: int|
            0 <= e < g.edges@.len() && (g.edges@[e].from@ == s@ || g.edges@[e].to@ == s@),
        !(r matches Err(ValidationError::Cycle(_))),
{
    let n = g.nodes.len();
    let mut i: usize = 0;
    while i < n
        invariant
            n == g.nodes@.len(),
            i <= n,
            forall|a: int, b: int|
                0 <= a < i && 0 <= b < i && a != b ==> #[trigger] g.nodes@[a].id@
                    != #[trigger] g.nodes@[b].id@,
        decreases n - i,
    {
        let mut j: usize = 0;
        while j < i
            invariant
                n == g.nodes@.len(),
                j <= i < n,
                forall|b: int| 0 <= b < j ==> g.nodes@[b].id@ != g.nodes@[i as int].id@,
            decreases i - j,
        {
            if g.nodes[j].id == g.nodes[i].id {
                return Err(ValidationError::DuplicateId(g.nodes[i].id.clone()));
            }
            j = j + 1;
        }
        i = i + 1;
    }
    let mut links: Vec<(usize, usize)> = Vec::new();
    let mut e: usize = 0;
    while e < g.edges.len()
        invariant
            n == g.nodes@.len(),
            g.ids_distinct(),
            e <= g.edges@.len(),
            links@.len() == e,
            links_valid(n as nat, links@),
            forall|f: int|
                0 <= f < e ==> g.nodes@[(#[trigger] links@[f]).0 as int].id@ == g.edges@[f].from@
                    && g.nodes@[links@[f].1 as int].id@ == g.edges@[f].to@,
            forall|f: int| 0 <= f < e ==> #[trigger] edge_known(*g, f),
        decreases g.edges@.len() - e,
    {
        let a = match node_index(g, &g.edges[e].from) {
            Some(a) => a,
            None => {
                return Err(ValidationError::UnknownNode(g.edges[e].from.clone()));
            },
        };
        let b = match node_index(g, &g.edges[e].to) {
            Some(b) => b,
            None => {
                return Err(ValidationError::UnknownNode(g.edges[e].to.clone()));
            },
        };
        proof {
            assert(g.has_id(g.edges@[e as int].from@));
            assert(g.has_id(g.edges@[e as int].to@));
            assert(edge_known(*g, e as int));
        }
        links.push((a, b));
        e = e + 1;
    }
    proof {
        assert forall|f: int| 0 <= f < g.edges@.len() implies g.has_id(#[trigger] g.edges@[f].from@)
            && g.has_id(g.edges@[f].to@) by {
            assert(edge_known(*g, f));
        }
    }
    Ok(links)
}

spec fn edge_known(g: WorkflowGraph, f: int) -> bool {
    g.has_id(g.edges@[f].from@) && g.has_id(g.edges@[f].to@)
}

proof fn lemma_joins_links(g: WorkflowGraph, links: Seq<(usize, usize)>)
    requires
        g.ids_distinct(),
        links_match(g, links),
    ensures
        forall|e: int, i: int, j: int|
            #[trigger] g.joins(e, i, j) <==> 0 <= e < links.len() && i == links[e].0 && j
                == links[e].1,
{
    assert forall|e: int, i: int, j: int| #[trigger] g.joins(e, i, j) implies 0 <= e < links.len()
        && i == links[e].0 && j == links[e].1 by {
        assert(g.nodes@[links[e].0 as int].id@ == g.edges@[e].from@);
        assert(g.nodes@[links[e].1 as int].id@ == g.edges@[e].to@);
    }
}

pub(crate) proof fn lemma_ranking_links(g: WorkflowGraph, links: Seq<(usize, usize)>)
    requires
        g.ids_distinct(),
        links_match(g, links),
    ensures
        g.is_acyclic() <==> exists|rank: Seq<nat>| link_ranking(g.nodes@.len(), links, rank),
{
    lemma_joins_links(g, links);
    if g.is_acyclic() {
        let rank = choose|rank: Seq<nat>| g.is_ranking(rank);
        assert forall|e: int| 0 <= e < links.len() implies rank[(#[trigger] links[e]).0 as int]
            < rank[links[e].1 as int] by {
            assert(g.joins(e, links[e].0 as int, links[e].1 as int));
        }
        assert(link_ranking(g.nodes@.len(), links, rank));
    }
    if exists|rank: Seq<nat>| link_ranking(g.nodes@.len(), links, rank) {
        let rank = choose|rank: Seq<nat>| link_ranking(g.nodes@.len(), links, rank);
        assert(g.is_ranking(rank));
    }
}

pub(crate) proof fn lemma_waves_links(g: WorkflowGraph, links: Seq<(usize, usize)>, level: Seq<usize>)
    requires
        g.ids_distinct(),
        links_match(g, links),
        link_waves(g.nodes@.len(), links, level),
    ensures
        g.is_wave_map(level),
{
    lemma_joins_links(g, links);
    assert forall|j: int| 0 <= j < g.nodes@.len() && #[trigger] level[j] > 0 implies exists|
        e: int,
        i: int,
    | #[trigger] g.joins(e, i, j) && level[i] + 1 == level[j] by {
        let e = choose|e: int|
            0 <= e < links.len() && (#[trigger] links[e]).1 == j && level[links[e].0 as int] + 1
                == level[j];
        assert(g.joins(e, links[e].0 as int, j));
    }
}

/// Checks a graph before a run: distinct ids, edges that name existing
/// nodes, no cycle. On success returns each node's wave.
pub fn validate(g: &WorkflowGraph) -> (r: Result<Vec<usize>, ValidationError>)
    ensures
        r is Ok <==> g.ids_distinct() && g.edges_resolve() && g.is_acyclic(),
        r matches Ok(level) ==> g.is_wave_map(level@),
        r matches Err(ValidationError::DuplicateId(s)) ==> !g.ids_distinct() && exists|i: int, j: int|
            0 <= i < j < g.nodes@.len() && g.nodes@[i].id@ == s@ && g.nodes@[j].id@ == s@,
        r matches Err(ValidationError::UnknownNode(s)) ==> g.ids_distinct() && !g.edges_resolve()
            && !g.has_id(s@) && exists|e: int|
            0 <= e < g.edges@.len() && (g.edges@[e].from@ == s@ || g.edges@[e].to@ == s@),
        r matches Err(ValidationError::Cycle(ids)) ==> g.ids_distinct() && g.edges_resolve()
            && !g.is_acyclic() && ids@.len() > 0 && forall|k: int|
            0 <= k < ids@.len() ==> g.has_id(#[trigger] ids@[k]@),
{
    let links = resolve_edges(g)?;
    proof {
        lemma_ranking_links(*g, links@);
    }
    match compute_levels(g.nodes.len(), &links) {
        Ok(level) => {
            proof {
                lemma_waves_links(*g, links@, level@);
            }
            Ok(level)
        },
        Err(rest) => Err(ValidationError::Cycle(ids_of(g, &rest))),
    }
}

/// The ids of the nodes at the given indices.
pub fn ids_of(g: &WorkflowGraph, idx: &Vec<usize>) -> (r: Vec<String>)
    requires
        forall|k: int| 0 <= k < idx@.len() ==> #[trigger] idx@[k] < g.nodes@.len(),
    ensures
        r@.len() == idx@.len(),
        forall|k: int| 0 <= k < idx@.len() ==> (#[trigger] r@[k])@ == g.nodes@[idx@[k] as int].id@,
{
    let mut r: Vec<String> = Vec::new();
    let mut k: usize = 0;
    while k < idx.len()
        invariant
            k <= idx@.len(),
            r@.len() == k,
            forall|q: int| 0 <= q < idx@.len() ==> #[trigger] idx@[q] < g.nodes@.len(),
            forall|q: int| 0 <= q < k ==> (#[trigger] r@[q])@ == g.nodes@[idx@[q] as int].id@,
        decreases idx@.len() - k,
    {
        r.push(g.nodes[idx[k]].id.clone());
        k = k + 1;
    }
    r
}

} // verus!
