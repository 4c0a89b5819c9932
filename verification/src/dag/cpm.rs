//! Critical-path method over a completed-run graph.
use crate::dag::graph::{build_completed_run_dag, calls_run_forward, edges_of, instants_apart, law_edges_join_nodes, law_edges_lead_forward, nodes_of, stands_for, CompletedRunDag, RunDagEdge, RunDagNode};
use crate::dag::topology::{acyclic, adjacency, adjacent, all_before, grows_along, in_range, lemma_adjacent_mirror, lemma_edge_listed, lemma_full_order, lemma_source_edge, lemma_target_edge, ranks, sources, targets, topological, topological_order};
use crate::records::{CallKind, CallRecord, RunRecord};
use crate::scalar::{clamp, held_between, one, one_of, zero, zero_of, Scalar};
use vstd::prelude::*;

verus! {

/// One step of the priority scale, in milliseconds of queue delay.
pub const JUMP_UNIT_MS: i64 = 1000;

/// Queue-delay horizon when nothing was observed, in milliseconds.
pub const DEFAULT_QUEUE_HORIZON_MS: i64 = 3000;

/// Longest queue-delay horizon, in milliseconds.
pub const MAX_QUEUE_HORIZON_MS: i64 = 9000;

/// CPM result for one completed run graph.
#[derive(Debug)]
pub struct CompletedRunCpm<S: Scalar> {
    /// Run identifier the CPM result was computed from.
    pub run_id: u128,
    /// Workflow finish estimate from the CPM forward pass.
    pub workflow_finish_ms: S,
    /// Queue-delay horizon used to convert slack to criticality.
    pub queue_horizon_ms: S,
    /// Per-node CPM metrics in the same order as [`CompletedRunDag::nodes`].
    pub nodes: Vec<RunDagCpmNode<S>>,
}

/// CPM metrics for one run-local DAG node.
#[derive(Debug)]
pub struct RunDagCpmNode<S: Scalar> {
    /// Run-local node index.
    pub node_index: usize,
    /// Earliest start from the CPM forward pass.
    pub earliest_start_ms: S,
    /// Earliest finish from the CPM forward pass.
    pub earliest_finish_ms: S,
    /// Latest start from the CPM backward pass.
    pub latest_start_ms: S,
    /// Latest finish from the CPM backward pass.
    pub latest_finish_ms: S,
    /// CPM slack in milliseconds.
    pub slack_ms: S,
    /// Queue-delay horizon used for this node's criticality.
    pub queue_horizon_ms: S,
    /// Normalized criticality in `[0, 1]`.
    pub criticality: S,
}

/// CPM facts for one priority-emitting LLM call in a completed run.
#[derive(Debug)]
pub struct DagCpmCallSample<S: Scalar> {
    /// Runtime scope UUID for the LLM call.
    pub scope_uuid: u128,
    /// Stable structural key used by the hot path.
    pub structural_key: String,
    /// Model service duration used by CPM.
    pub duration_ms: S,
    /// CPM slack for the call.
    pub slack_ms: S,
    /// Normalized criticality in `[0, 1]`.
    pub criticality: S,
    /// Queue-delay horizon used to compute criticality.
    pub queue_horizon_ms: S,
}

/// The largest of the values at the listed indices, zero when there are none.
pub open spec fn latest_among<S: Scalar>(list: Seq<usize>, values: Seq<S>) -> S
    decreases list.len(),
{
    if list.len() == 0 {
        zero_of()
    } else {
        latest_among(list.drop_last(), values).larger(values[list.last() as int])
    }
}

/// The smallest of the values at the listed indices.
pub open spec fn earliest_among<S: Scalar>(list: Seq<usize>, values: Seq<S>) -> S
    decreases list.len(),
{
    if list.len() == 0 {
        S::unbounded()
    } else {
        earliest_among(list.drop_last(), values).smaller(values[list.last() as int])
    }
}

/// The largest of all values, zero when there are none.
pub open spec fn latest_of<S: Scalar>(values: Seq<S>) -> S
    decreases values.len(),
{
    if values.len() == 0 {
        zero_of()
    } else {
        latest_of(values.drop_last()).larger(values.last())
    }
}

/// A queue-delay horizon held to its bounds, the default one when it is no ordinary number.
pub open spec fn bounded_horizon<S: Scalar>(horizon: S) -> S {
    if horizon.finite() {
        held_between(
            horizon,
            S::ratio(JUMP_UNIT_MS as int, 1),
            S::ratio(MAX_QUEUE_HORIZON_MS as int, 1),
        )
    } else {
        S::ratio(DEFAULT_QUEUE_HORIZON_MS as int, 1)
    }
}

/// The queue-delay horizon for an observed one.
pub open spec fn horizon_for<S: Scalar>(observed: Option<S>) -> S {
    match observed {
        Some(horizon) if horizon.finite() => bounded_horizon(horizon),
        _ => bounded_horizon(S::ratio(DEFAULT_QUEUE_HORIZON_MS as int, 1)),
    }
}

/// Criticality of a call with the given slack: one without slack, nothing at a slack of the horizon
/// or more.
pub open spec fn slack_criticality<S: Scalar>(slack: S, horizon: S) -> S {
    one_of::<S>().minus(held_between(slack.larger(zero_of()).over(horizon), zero_of(), one_of()))
}

/// Whether the values satisfy the equations of the forward pass at the node `v`.
pub open spec fn forward_at<S: Scalar>(
    nodes: Seq<RunDagNode<S>>,
    edges: Seq<RunDagEdge>,
    start: Seq<S>,
    finish: Seq<S>,
    v: int,
) -> bool {
    &&& start[v] == latest_among(sources(edges, v), finish)
    &&& finish[v] == start[v].plus(nodes[v].duration_ms)
}

/// Whether the values satisfy the equations of the backward pass at the node `v`.
pub open spec fn backward_at<S: Scalar>(
    nodes: Seq<RunDagNode<S>>,
    edges: Seq<RunDagEdge>,
    end: S,
    start: Seq<S>,
    finish: Seq<S>,
    v: int,
) -> bool {
    &&& finish[v] == if targets(edges, v).len() == 0 {
        end
    } else {
        earliest_among(targets(edges, v), start)
    }
    &&& start[v] == finish[v].minus(nodes[v].duration_ms)
}

/// Earliest starts of the nodes of a result.
pub open spec fn earliest_starts<S: Scalar>(nodes: Seq<RunDagCpmNode<S>>) -> Seq<S> {
    nodes.map_values(|n: RunDagCpmNode<S>| n.earliest_start_ms)
}

/// Earliest finishes of the nodes of a result.
pub open spec fn earliest_finishes<S: Scalar>(nodes: Seq<RunDagCpmNode<S>>) -> Seq<S> {
    nodes.map_values(|n: RunDagCpmNode<S>| n.earliest_finish_ms)
}

/// Latest starts of the nodes of a result.
pub open spec fn latest_starts<S: Scalar>(nodes: Seq<RunDagCpmNode<S>>) -> Seq<S> {
    nodes.map_values(|n: RunDagCpmNode<S>| n.latest_start_ms)
}

/// Latest finishes of the nodes of a result.
pub open spec fn latest_finishes<S: Scalar>(nodes: Seq<RunDagCpmNode<S>>) -> Seq<S> {
    nodes.map_values(|n: RunDagCpmNode<S>| n.latest_finish_ms)
}

/// Whether `cpm` is the critical-path result for a graph.
///
/// A node starts when its last predecessor finishes, and must finish when its first successor has
/// to start; the difference of the two starts is its slack.
pub open spec fn cpm_of<S: Scalar>(
    dag: CompletedRunDag<S>,
    summary_horizon: S,
    horizons: Seq<S>,
    cpm: CompletedRunCpm<S>,
) -> bool {
    let out = cpm.nodes@;
    &&& cpm.run_id == dag.run_id
    &&& cpm.queue_horizon_ms == summary_horizon
    &&& out.len() == dag.nodes@.len()
    &&& cpm.workflow_finish_ms == latest_of(earliest_finishes(out))
    &&& forall|v: int|
        0 <= v < out.len() ==> {
            &&& (#[trigger] out[v]).node_index == v
            &&& forward_at(dag.nodes@, dag.edges@, earliest_starts(out), earliest_finishes(out), v)
            &&& backward_at(
                dag.nodes@,
                dag.edges@,
                cpm.workflow_finish_ms,
                latest_starts(out),
                latest_finishes(out),
                v,
            )
            &&& out[v].slack_ms == out[v].latest_start_ms.minus(out[v].earliest_start_ms)
            &&& out[v].queue_horizon_ms == bounded_horizon(horizons[v])
            &&& out[v].criticality == slack_criticality(out[v].slack_ms, out[v].queue_horizon_ms)
        }
}

/// Values at other indices do not matter.
proof fn lemma_latest_among_frame<S: Scalar>(list: Seq<usize>, values: Seq<S>, v: usize, x: S)
    requires
        v < values.len(),
        !list.contains(v),
        forall|i: int| 0 <= i < list.len() ==> #[trigger] list[i] < values.len(),
    ensures
        latest_among(list, values.update(v as int, x)) == latest_among(list, values),
    decreases list.len(),
{
    if list.len() > 0 {
        let front = list.drop_last();
        assert forall|i: int| 0 <= i < front.len() implies #[trigger] front[i] < values.len() by {
            assert(front[i] == list[i]);
        }
        assert(!front.contains(v)) by {
            if front.contains(v) {
                let i = choose|i: int| 0 <= i < front.len() && front[i] == v;
                assert(list[i] == v);
            }
        }
        lemma_latest_among_frame(front, values, v, x);
        assert(list[list.len() - 1] == list.last());
    }
}

/// Values at other indices do not matter.
proof fn lemma_earliest_among_frame<S: Scalar>(list: Seq<usize>, values: Seq<S>, v: usize, x: S)
    requires
        v < values.len(),
        !list.contains(v),
        forall|i: int| 0 <= i < list.len() ==> #[trigger] list[i] < values.len(),
    ensures
        earliest_among(list, values.update(v as int, x)) == earliest_among(list, values),
    decreases list.len(),
{
    if list.len() > 0 {
        let front = list.drop_last();
        assert forall|i: int| 0 <= i < front.len() implies #[trigger] front[i] < values.len() by {
            assert(front[i] == list[i]);
        }
        assert(!front.contains(v)) by {
            if front.contains(v) {
                let i = choose|i: int| 0 <= i < front.len() && front[i] == v;
                assert(list[i] == v);
            }
        }
        lemma_earliest_among_frame(front, values, v, x);
        assert(list[list.len() - 1] == list.last());
    }
}

fn last_finish<S: Scalar>(list: &Vec<usize>, values: &Vec<S>) -> (r: S)
    requires
        forall|i: int| 0 <= i < list.len() ==> #[trigger] list@[i] < values.len(),
    ensures
        r == latest_among(list@, values@),
{
    let mut out = zero::<S>();
    let mut i: usize = 0;
    while i < list.len()
        invariant
            i <= list.len(),
            forall|k: int| 0 <= k < list.len() ==> #[trigger] list@[k] < values.len(),
            out == latest_among(list@.take(i as int), values@),
        decreases list.len() - i,
    {
        proof {
            assert(list@.take(i + 1).drop_last() =~= list@.take(i as int));
            assert(list@[i as int] < values.len());
        }
        out = out.max_of(values[list[i]]);
        i += 1;
    }
    proof {
        assert(list@.take(list.len() as int) =~= list@);
    }
    out
}

fn first_start<S: Scalar>(list: &Vec<usize>, values: &Vec<S>) -> (r: S)
    requires
        forall|i: int| 0 <= i < list.len() ==> #[trigger] list@[i] < values.len(),
    ensures
        r == earliest_among(list@, values@),
{
    let mut out = S::infinity();
    let mut i: usize = 0;
    while i < list.len()
        invariant
            i <= list.len(),
            forall|k: int| 0 <= k < list.len() ==> #[trigger] list@[k] < values.len(),
            out == earliest_among(list@.take(i as int), values@),
        decreases list.len() - i,
    {
        proof {
            assert(list@.take(i + 1).drop_last() =~= list@.take(i as int));
            assert(list@[i as int] < values.len());
        }
        out = out.min_of(values[list[i]]);
        i += 1;
    }
    proof {
        assert(list@.take(list.len() as int) =~= list@);
    }
    out
}

fn last_of<S: Scalar>(values: &Vec<S>) -> (r: S)
    ensures
        r == latest_of(values@),
{
    let mut out = zero::<S>();
    let mut i: usize = 0;
    while i < values.len()
        invariant
            i <= values.len(),
            out == latest_of(values@.take(i as int)),
        decreases values.len() - i,
    {
        proof {
            assert(values@.take(i + 1).drop_last() =~= values@.take(i as int));
        }
        out = out.max_of(values[i]);
        i += 1;
    }
    proof {
        assert(values@.take(values.len() as int) =~= values@);
    }
    out
}

fn filled<S: Scalar>(value: S, n: usize) -> (r: Vec<S>)
    ensures
        r.len() == n,
{
    let mut out: Vec<S> = Vec::new();
    let mut i: usize = 0;
    while i < n
        invariant
            i <= n,
            out.len() == i,
        decreases n - i,
    {
        out.push(value);
        i += 1;
    }
    out
}

fn clamp_queue_horizon<S: Scalar>(horizon: S) -> (r: S)
    ensures
        r == bounded_horizon(horizon),
{
    if !horizon.is_finite() {
        return S::of_ratio(DEFAULT_QUEUE_HORIZON_MS, 1);
    }
    clamp(horizon, S::of_ratio(JUMP_UNIT_MS, 1), S::of_ratio(MAX_QUEUE_HORIZON_MS, 1))
}

fn queue_horizon_ms<S: Scalar>(observed_queue_horizon_ms: Option<S>) -> (r: S)
    ensures
        r == horizon_for(observed_queue_horizon_ms),
{
    match observed_queue_horizon_ms {
        Some(horizon) => if horizon.is_finite() {
            return clamp_queue_horizon(horizon);
        },
        None => {},
    }
    clamp_queue_horizon(S::of_ratio(DEFAULT_QUEUE_HORIZON_MS, 1))
}

fn criticality_from_slack<S: Scalar>(slack_ms: S, queue_horizon_ms: S) -> (r: S)
    ensures
        r == slack_criticality(slack_ms, queue_horizon_ms),
{
    one::<S>().sub(
        clamp(slack_ms.max_of(zero::<S>()).div(queue_horizon_ms), zero::<S>(), one::<S>()),
    )
}

/// A node is no predecessor of one that does not come after it in a topological order.
proof fn lemma_not_source(order: Seq<usize>, predecessors: Seq<Vec<usize>>, i: int, j: int)
    requires
        topological(order, predecessors),
        0 <= i <= j < order.len(),
    ensures
        !predecessors[order[i] as int]@.contains(order[j]),
{
    let list = predecessors[order[i] as int]@;
    if list.contains(order[j]) {
        let k = choose|k: int| 0 <= k < list.len() && list[k] == order[j];
        assert(all_before(list, order, i));
        assert(order.take(i).contains(list[k]));
        let m = choose|m: int| 0 <= m < order.take(i).len() && order.take(i)[m] == list[k];
        assert(order[m] == order[j]);
    }
}

/// A node is no successor of one that does not come before it in a topological order.
proof fn lemma_not_target(
    edges: Seq<RunDagEdge>,
    order: Seq<usize>,
    predecessors: Seq<Vec<usize>>,
    successors: Seq<Vec<usize>>,
    i: int,
    j: int,
)
    requires
        in_range(edges, predecessors.len() as int),
        adjacent(edges, predecessors.len() as int, predecessors, successors),
        topological(order, predecessors),
        0 <= i <= j < order.len(),
    ensures
        !targets(edges, order[j] as int).contains(order[i]),
{
    let list = targets(edges, order[j] as int);
    if list.contains(order[i]) {
        let m = choose|m: int| 0 <= m < list.len() && list[m] == order[i];
        lemma_target_edge(edges, order[j] as int, m);
        let k = choose|k: int|
            0 <= k < edges.len() && (#[trigger] edges[k]).from == order[j] && edges[k].to
                == list[m];
        lemma_edge_listed(edges, k);
        assert(order[i] < predecessors.len());
        assert(predecessors[order[i] as int]@ == sources(edges, order[i] as int));
        lemma_not_source(order, predecessors, i, j);
    }
}

/// Computes the earliest start and finish of every node.
fn forward_pass<S: Scalar>(
    dag: &CompletedRunDag<S>,
    predecessors: &Vec<Vec<usize>>,
    order: &Vec<usize>,
    Ghost(successors): Ghost<Seq<Vec<usize>>>,
) -> (r: (Vec<S>, Vec<S>))
    requires
        in_range(dag.edges@, dag.nodes@.len() as int),
        adjacent(dag.edges@, dag.nodes@.len() as int, predecessors@, successors),
        topological(order@, predecessors@),
    ensures
        r.0.len() == dag.nodes.len(),
        r.1.len() == dag.nodes.len(),
        forall|v: int|
            0 <= v < dag.nodes.len() ==> #[trigger] forward_at(
                dag.nodes@,
                dag.edges@,
                r.0@,
                r.1@,
                v,
            ),
{
    let n: usize = dag.nodes.len();
    let mut start = filled(zero::<S>(), n);
    let mut finish = filled(zero::<S>(), n);
    let mut j: usize = 0;
    while j < order.len()
        invariant
            j <= order.len(),
            n == dag.nodes.len(),
            start.len() == n,
            finish.len() == n,
            in_range(dag.edges@, n as int),
            adjacent(dag.edges@, n as int, predecessors@, successors),
            topological(order@, predecessors@),
            forall|i: int|
                0 <= i < j ==> forward_at(
                    dag.nodes@,
                    dag.edges@,
                    start@,
                    finish@,
                    (#[trigger] order@[i]) as int,
                ),
        decreases order.len() - j,
    {
        let v: usize = order[j];
        let ghost before = finish@;
        proof {
            lemma_adjacent_mirror(dag.edges@, n as int, predecessors@, successors);
            assert forall|i: int| 0 <= i < predecessors@[v as int]@.len() implies (
            #[trigger] predecessors@[v as int]@[i]) < finish.len() by {}
        }
        let es = last_finish(&predecessors[v], &finish);
        start[v] = es;
        finish[v] = es.add(dag.nodes[v].duration_ms);
        proof {
            assert forall|i: int| 0 <= i < j + 1 implies forward_at(
                dag.nodes@,
                dag.edges@,
                start@,
                finish@,
                (#[trigger] order@[i]) as int,
            ) by {
                let w = order@[i];
                lemma_not_source(order@, predecessors@, i, j as int);
                assert(predecessors@[w as int]@ == sources(dag.edges@, w as int));
                assert forall|k: int| 0 <= k < predecessors@[w as int]@.len() implies (
                #[trigger] predecessors@[w as int]@[k]) < before.len() by {}
                lemma_latest_among_frame(
                    predecessors@[w as int]@,
                    before,
                    v,
                    finish@[v as int],
                );
                if i < j {
                    assert(w != v);
                }
            }
        }
        j += 1;
    }
    proof {
        lemma_full_order(order@, n as int);
        assert forall|v: int| 0 <= v < dag.nodes.len() implies #[trigger] forward_at(
            dag.nodes@,
            dag.edges@,
            start@,
            finish@,
            v,
        ) by {
            assert(order@.contains(v as usize));
            let i = choose|i: int| 0 <= i < order@.len() && order@[i] == v as usize;
            assert(order@[i] as int == v);
        }
    }
    (start, finish)
}

/// Computes the latest start and finish of every node.
fn backward_pass<S: Scalar>(
    dag: &CompletedRunDag<S>,
    successors: &Vec<Vec<usize>>,
    order: &Vec<usize>,
    end: S,
    Ghost(predecessors): Ghost<Seq<Vec<usize>>>,
) -> (r: (Vec<S>, Vec<S>))
    requires
        in_range(dag.edges@, dag.nodes@.len() as int),
        adjacent(dag.edges@, dag.nodes@.len() as int, predecessors, successors@),
        topological(order@, predecessors),
    ensures
        r.0.len() == dag.nodes.len(),
        r.1.len() == dag.nodes.len(),
        forall|v: int|
            0 <= v < dag.nodes.len() ==> #[trigger] backward_at(
                dag.nodes@,
                dag.edges@,
                end,
                r.0@,
                r.1@,
                v,
            ),
{
    let n: usize = dag.nodes.len();
    let mut start = filled(end, n);
    let mut finish = filled(end, n);
    let mut j: usize = order.len();
    while j > 0
        invariant
            j <= order.len(),
            n == dag.nodes.len(),
            start.len() == n,
            finish.len() == n,
            in_range(dag.edges@, n as int),
            adjacent(dag.edges@, n as int, predecessors, successors@),
            topological(order@, predecessors),
            forall|i: int|
                j <= i < order.len() ==> backward_at(
                    dag.nodes@,
                    dag.edges@,
                    end,
                    start@,
                    finish@,
                    (#[trigger] order@[i]) as int,
                ),
        decreases j,
    {
        j -= 1;
        let v: usize = order[j];
        let ghost before = start@;
        proof {
            lemma_adjacent_mirror(dag.edges@, n as int, predecessors, successors@);
            assert forall|i: int| 0 <= i < successors@[v as int]@.len() implies (
            #[trigger] successors@[v as int]@[i]) < start.len() by {}
        }
        let lf = if successors[v].len() == 0 {
            end
        } else {
            first_start(&successors[v], &start)
        };
        finish[v] = lf;
        start[v] = lf.sub(dag.nodes[v].duration_ms);
        proof {
            assert forall|i: int| j <= i < order.len() implies backward_at(
                dag.nodes@,
                dag.edges@,
                end,
                start@,
                finish@,
                (#[trigger] order@[i]) as int,
            ) by {
                let w = order@[i];
                lemma_not_target(dag.edges@, order@, predecessors, successors@, j as int, i);
                assert(w < predecessors.len());
                assert(successors@[w as int]@ == targets(dag.edges@, w as int));
                assert forall|k: int| 0 <= k < successors@[w as int]@.len() implies (
                #[trigger] successors@[w as int]@[k]) < before.len() by {}
                lemma_earliest_among_frame(successors@[w as int]@, before, v, start@[v as int]);
                if i > j {
                    assert(w != v);
                }
            }
        }
    }
    proof {
        lemma_full_order(order@, n as int);
        assert forall|v: int| 0 <= v < dag.nodes.len() implies #[trigger] backward_at(
            dag.nodes@,
            dag.edges@,
            end,
            start@,
            finish@,
            v,
        ) by {
            assert(order@.contains(v as usize));
            let i = choose|i: int| 0 <= i < order@.len() && order@[i] == v as usize;
            assert(order@[i] as int == v);
        }
    }
    (start, finish)
}

/// A ranking of the edges is one of the predecessor lists, and the other way round.
proof fn lemma_acyclic_ranks(
    edges: Seq<RunDagEdge>,
    n: int,
    predecessors: Seq<Vec<usize>>,
    successors: Seq<Vec<usize>>,
)
    requires
        in_range(edges, n),
        adjacent(edges, n, predecessors, successors),
    ensures
        acyclic(edges) <==> (exists|rank: spec_fn(int) -> nat| #[trigger]
            ranks(rank, predecessors)),
{
    if acyclic(edges) {
        let rank = choose|rank: spec_fn(int) -> nat| #[trigger] grows_along(rank, edges);
        assert forall|v: int, i: int|
            0 <= v < predecessors.len() && 0 <= i < predecessors[v]@.len() implies rank(
            #[trigger] predecessors[v]@[i] as int,
        ) < rank(v) by {
            assert(predecessors[v]@ == sources(edges, v));
            lemma_source_edge(edges, v, i);
        }
        assert(ranks(rank, predecessors));
    }
    if exists|rank: spec_fn(int) -> nat| #[trigger] ranks(rank, predecessors) {
        let rank = choose|rank: spec_fn(int) -> nat| #[trigger] ranks(rank, predecessors);
        assert forall|k: int| 0 <= k < edges.len() implies rank(
            (#[trigger] edges[k]).from as int,
        ) < rank(edges[k].to as int) by {
            lemma_edge_listed(edges, k);
            let v = edges[k].to as int;
            assert(predecessors[v]@ == sources(edges, v));
            let i = choose|i: int|
                0 <= i < sources(edges, v).len() && sources(edges, v)[i] == edges[k].from;
            assert(predecessors[v]@[i] == edges[k].from);
        }
        assert(grows_along(rank, edges));
    }
}

/// Computes the critical-path result with a queue-delay horizon for each node.
///
/// Returns `None` when the graph contains invalid edges or a cycle.
pub fn compute_cpm_with_horizons<S: Scalar>(
    dag: &CompletedRunDag<S>,
    summary_queue_horizon_ms: S,
    horizons: &Vec<S>,
) -> (r: Option<CompletedRunCpm<S>>)
    requires
        horizons.len() == dag.nodes.len(),
    ensures
        r is Some <==> in_range(dag.edges@, dag.nodes@.len() as int) && acyclic(dag.edges@),
        r matches Some(cpm) ==> cpm_of(*dag, summary_queue_horizon_ms, horizons@, cpm),
{
    let (predecessors, successors) = match adjacency(&dag.edges, dag.nodes.len()) {
        Some(lists) => lists,
        None => {
            return None;
        },
    };
    let ghost n = dag.nodes@.len() as int;
    proof {
        lemma_adjacent_mirror(dag.edges@, n, predecessors@, successors@);
        lemma_acyclic_ranks(dag.edges@, n, predecessors@, successors@);
    }
    let order = match topological_order(&predecessors, &successors) {
        Some(order) => order,
        None => {
            return None;
        },
    };
    let (earliest_start_ms, earliest_finish_ms) = forward_pass(
        dag,
        &predecessors,
        &order,
        Ghost(successors@),
    );
    let workflow_finish_ms = last_of(&earliest_finish_ms);
    let (latest_start_ms, latest_finish_ms) = backward_pass(
        dag,
        &successors,
        &order,
        workflow_finish_ms,
        Ghost(predecessors@),
    );
    let mut nodes: Vec<RunDagCpmNode<S>> = Vec::new();
    let mut i: usize = 0;
    while i < dag.nodes.len()
        invariant
            i <= dag.nodes.len(),
            nodes.len() == i,
            horizons.len() == dag.nodes.len(),
            earliest_start_ms.len() == dag.nodes.len(),
            earliest_finish_ms.len() == dag.nodes.len(),
            latest_start_ms.len() == dag.nodes.len(),
            latest_finish_ms.len() == dag.nodes.len(),
            forall|v: int|
                0 <= v < i ==> {
                    &&& (#[trigger] nodes@[v]).node_index == v
                    &&& nodes@[v].earliest_start_ms == earliest_start_ms@[v]
                    &&& nodes@[v].earliest_finish_ms == earliest_finish_ms@[v]
                    &&& nodes@[v].latest_start_ms == latest_start_ms@[v]
                    &&& nodes@[v].latest_finish_ms == latest_finish_ms@[v]
                    &&& nodes@[v].slack_ms == latest_start_ms@[v].minus(earliest_start_ms@[v])
                    &&& nodes@[v].queue_horizon_ms == bounded_horizon(horizons@[v])
                    &&& nodes@[v].criticality == slack_criticality(
                        nodes@[v].slack_ms,
                        nodes@[v].queue_horizon_ms,
                    )
                },
        decreases dag.nodes.len() - i,
    {
        let slack_ms = latest_start_ms[i].sub(earliest_start_ms[i]);
        let queue_horizon_ms = clamp_queue_horizon(horizons[i]);
        nodes.push(
            RunDagCpmNode {
                node_index: i,
                earliest_start_ms: earliest_start_ms[i],
                earliest_finish_ms: earliest_finish_ms[i],
                latest_start_ms: latest_start_ms[i],
                latest_finish_ms: latest_finish_ms[i],
                slack_ms,
                queue_horizon_ms,
                criticality: criticality_from_slack(slack_ms, queue_horizon_ms),
            },
        );
        i += 1;
    }
    proof {
        assert(earliest_starts(nodes@) =~= earliest_start_ms@);
        assert(earliest_finishes(nodes@) =~= earliest_finish_ms@);
        assert(latest_starts(nodes@) =~= latest_start_ms@);
        assert(latest_finishes(nodes@) =~= latest_finish_ms@);
        assert forall|v: int| 0 <= v < n implies {
            &&& forward_at(
                dag.nodes@,
                dag.edges@,
                earliest_starts(nodes@),
                earliest_finishes(nodes@),
                v,
            )
            &&& #[trigger] backward_at(
                dag.nodes@,
                dag.edges@,
                workflow_finish_ms,
                latest_starts(nodes@),
                latest_finishes(nodes@),
                v,
            )
        } by {
            assert(forward_at(dag.nodes@, dag.edges@, earliest_start_ms@, earliest_finish_ms@, v));
        }
    }
    Some(
        CompletedRunCpm {
            run_id: dag.run_id,
            workflow_finish_ms,
            queue_horizon_ms: summary_queue_horizon_ms,
            nodes,
        },
    )
}

/// Compute CPM slack and normalized criticality over a completed-run DAG.
///
/// Returns `None` when the graph contains invalid edges or a cycle.
pub fn compute_cpm<S: Scalar>(
    dag: &CompletedRunDag<S>,
    observed_queue_horizon_ms: Option<S>,
) -> (r: Option<CompletedRunCpm<S>>)
    ensures
        r is Some <==> in_range(dag.edges@, dag.nodes@.len() as int) && acyclic(dag.edges@),
        r matches Some(cpm) ==> cpm_of(
            *dag,
            horizon_for(observed_queue_horizon_ms),
            same_horizons(horizon_for(observed_queue_horizon_ms), dag.nodes@.len()),
            cpm,
        ),
{
    let queue_horizon_ms = queue_horizon_ms(observed_queue_horizon_ms);
    let mut horizons: Vec<S> = Vec::new();
    let mut i: usize = 0;
    while i < dag.nodes.len()
        invariant
            i <= dag.nodes.len(),
            horizons@ == same_horizons(queue_horizon_ms, i as nat),
        decreases dag.nodes.len() - i,
    {
        horizons.push(queue_horizon_ms);
        i += 1;
    }
    compute_cpm_with_horizons(dag, queue_horizon_ms, &horizons)
}

/// The same queue-delay horizon for each of `n` nodes.
pub open spec fn same_horizons<S: Scalar>(horizon: S, n: nat) -> Seq<S> {
    Seq::new(n, |i: int| horizon)
}

/// In a run whose calls end no earlier than they begin, and of which no two are instantaneous at
/// the same instant, the graph has a critical-path result.
pub proof fn law_forward_runs_have_results<S: Scalar>(
    calls: Seq<CallRecord<S>>,
    nodes: Seq<RunDagNode<S>>,
    edges: Seq<RunDagEdge>,
)
    requires
        calls_run_forward(calls),
        instants_apart(calls),
        nodes_of(calls, nodes),
        edges_of(nodes, edges),
    ensures
        in_range(edges, nodes.len() as int),
        acyclic(edges),
{
    let rank = |v: int| v as nat;
    assert forall|i: int| 0 <= i < edges.len() implies rank((#[trigger] edges[i]).from as int)
        < rank(edges[i].to as int) && edges[i].from < nodes.len() && edges[i].to < nodes.len() by {
        law_edges_lead_forward(calls, nodes, edges, i);
    }
    assert(grows_along(rank, edges));
}

/// Values that agree at the listed indices have the same largest one.
proof fn lemma_latest_among_agree<S: Scalar>(list: Seq<usize>, a: Seq<S>, b: Seq<S>)
    requires
        forall|i: int| 0 <= i < list.len() ==> a[#[trigger] list[i] as int] == b[list[i] as int],
    ensures
        latest_among(list, a) == latest_among(list, b),
    decreases list.len(),
{
    if list.len() > 0 {
        let front = list.drop_last();
        assert forall|i: int| 0 <= i < front.len() implies a[#[trigger] front[i] as int]
            == b[front[i] as int] by {
            assert(front[i] == list[i]);
        }
        lemma_latest_among_agree(front, a, b);
        assert(a[list[list.len() - 1] as int] == b[list[list.len() - 1] as int]);
    }
}

/// Values that agree at the listed indices have the same smallest one.
proof fn lemma_earliest_among_agree<S: Scalar>(list: Seq<usize>, a: Seq<S>, b: Seq<S>)
    requires
        forall|i: int| 0 <= i < list.len() ==> a[#[trigger] list[i] as int] == b[list[i] as int],
    ensures
        earliest_among(list, a) == earliest_among(list, b),
    decreases list.len(),
{
    if list.len() > 0 {
        let front = list.drop_last();
        assert forall|i: int| 0 <= i < front.len() implies a[#[trigger] front[i] as int]
            == b[front[i] as int] by {
            assert(front[i] == list[i]);
        }
        lemma_earliest_among_agree(front, a, b);
        assert(a[list[list.len() - 1] as int] == b[list[list.len() - 1] as int]);
    }
}

/// The forward pass has one solution.
proof fn lemma_forward_unique<S: Scalar>(
    dag: CompletedRunDag<S>,
    rank: spec_fn(int) -> nat,
    start_a: Seq<S>,
    finish_a: Seq<S>,
    start_b: Seq<S>,
    finish_b: Seq<S>,
    v: int,
)
    requires
        in_range(dag.edges@, dag.nodes@.len() as int),
        grows_along(rank, dag.edges@),
        0 <= v < dag.nodes@.len(),
        forall|w: int|
            0 <= w < dag.nodes@.len() ==> #[trigger] forward_at(
                dag.nodes@,
                dag.edges@,
                start_a,
                finish_a,
                w,
            ) && forward_at(dag.nodes@, dag.edges@, start_b, finish_b, w),
    ensures
        start_a[v] == start_b[v],
        finish_a[v] == finish_b[v],
    decreases rank(v),
{
    let list = sources(dag.edges@, v);
    assert(forward_at(dag.nodes@, dag.edges@, start_a, finish_a, v));
    assert forall|i: int| 0 <= i < list.len() implies finish_a[#[trigger] list[i] as int]
        == finish_b[list[i] as int] by {
        lemma_source_edge(dag.edges@, v, i);
        let k = choose|k: int|
            0 <= k < dag.edges@.len() && (#[trigger] dag.edges@[k]).to == v && dag.edges@[k].from
                == list[i];
        lemma_forward_unique(
            dag,
            rank,
            start_a,
            finish_a,
            start_b,
            finish_b,
            dag.edges@[k].from as int,
        );
    }
    lemma_latest_among_agree(list, finish_a, finish_b);
}

/// The backward pass has one solution.
proof fn lemma_backward_unique<S: Scalar>(
    dag: CompletedRunDag<S>,
    rank: spec_fn(int) -> nat,
    top: nat,
    end: S,
    start_a: Seq<S>,
    finish_a: Seq<S>,
    start_b: Seq<S>,
    finish_b: Seq<S>,
    v: int,
)
    requires
        in_range(dag.edges@, dag.nodes@.len() as int),
        grows_along(rank, dag.edges@),
        forall|w: int| 0 <= w < dag.nodes@.len() ==> #[trigger] rank(w) <= top,
        0 <= v < dag.nodes@.len(),
        forall|w: int|
            0 <= w < dag.nodes@.len() ==> #[trigger] backward_at(
                dag.nodes@,
                dag.edges@,
                end,
                start_a,
                finish_a,
                w,
            ) && backward_at(dag.nodes@, dag.edges@, end, start_b, finish_b, w),
    ensures
        start_a[v] == start_b[v],
        finish_a[v] == finish_b[v],
    decreases top - rank(v),
{
    let list = targets(dag.edges@, v);
    assert(backward_at(dag.nodes@, dag.edges@, end, start_a, finish_a, v));
    assert forall|i: int| 0 <= i < list.len() implies start_a[#[trigger] list[i] as int]
        == start_b[list[i] as int] by {
        lemma_target_edge(dag.edges@, v, i);
        let k = choose|k: int|
            0 <= k < dag.edges@.len() && (#[trigger] dag.edges@[k]).from == v && dag.edges@[k].to
                == list[i];
        assert(rank(dag.edges@[k].to as int) <= top);
        lemma_backward_unique(
            dag,
            rank,
            top,
            end,
            start_a,
            finish_a,
            start_b,
            finish_b,
            dag.edges@[k].to as int,
        );
    }
    lemma_earliest_among_agree(list, start_a, start_b);
}

/// The largest rank among the first `n` nodes.
spec fn top_rank(rank: spec_fn(int) -> nat, n: int) -> nat
    decreases n,
{
    if n <= 0 {
        0
    } else {
        let below = top_rank(rank, n - 1);
        if below >= rank(n - 1) {
            below
        } else {
            rank(n - 1)
        }
    }
}

proof fn lemma_top_rank(rank: spec_fn(int) -> nat, n: int, v: int)
    requires
        0 <= v < n,
    ensures
        rank(v) <= top_rank(rank, n),
    decreases n,
{
    if v < n - 1 {
        lemma_top_rank(rank, n - 1, v);
    }
}

/// A graph without a cycle has one critical-path result: the horizons and the durations determine
/// every metric of every node.
pub proof fn law_result_is_determined<S: Scalar>(
    dag: CompletedRunDag<S>,
    summary_horizon: S,
    horizons: Seq<S>,
    a: CompletedRunCpm<S>,
    b: CompletedRunCpm<S>,
)
    requires
        in_range(dag.edges@, dag.nodes@.len() as int),
        acyclic(dag.edges@),
        cpm_of(dag, summary_horizon, horizons, a),
        cpm_of(dag, summary_horizon, horizons, b),
    ensures
        a.workflow_finish_ms == b.workflow_finish_ms,
        a.nodes@ == b.nodes@,
{
    let rank = choose|rank: spec_fn(int) -> nat| #[trigger] grows_along(rank, dag.edges@);
    let n = dag.nodes@.len() as int;
    let (sa, fa) = (earliest_starts(a.nodes@), earliest_finishes(a.nodes@));
    let (sb, fb) = (earliest_starts(b.nodes@), earliest_finishes(b.nodes@));
    assert forall|v: int| 0 <= v < n implies #[trigger] forward_at(
        dag.nodes@,
        dag.edges@,
        sa,
        fa,
        v,
    ) && forward_at(dag.nodes@, dag.edges@, sb, fb, v) by {
        assert(a.nodes@[v].node_index == v && b.nodes@[v].node_index == v);
    }
    assert forall|v: int| 0 <= v < n implies sa[v] == sb[v] && #[trigger] fa[v] == fb[v] by {
        lemma_forward_unique(dag, rank, sa, fa, sb, fb, v);
    }
    assert(fa =~= fb);
    let end = a.workflow_finish_ms;
    let (lsa, lfa) = (latest_starts(a.nodes@), latest_finishes(a.nodes@));
    let (lsb, lfb) = (latest_starts(b.nodes@), latest_finishes(b.nodes@));
    assert forall|v: int| 0 <= v < n implies #[trigger] backward_at(
        dag.nodes@,
        dag.edges@,
        end,
        lsa,
        lfa,
        v,
    ) && backward_at(dag.nodes@, dag.edges@, end, lsb, lfb, v) by {
        assert(a.nodes@[v].node_index == v && b.nodes@[v].node_index == v);
    }
    let top = top_rank(rank, n);
    assert forall|v: int| 0 <= v < n implies #[trigger] rank(v) <= top by {
        lemma_top_rank(rank, n, v);
    }
    assert forall|v: int| 0 <= v < n implies a.nodes@[v] == #[trigger] b.nodes@[v] by {
        assert(fa[v] == fb[v]);
        lemma_forward_unique(dag, rank, sa, fa, sb, fb, v);
        lemma_backward_unique(dag, rank, top, end, lsa, lfa, lsb, lfb, v);
        assert(a.nodes@[v].node_index == v);
    }
    assert(a.nodes@ =~= b.nodes@);
}

/// The indices of the priority-emitting nodes among the first `n`.
pub open spec fn emitting<S: Scalar>(nodes: Seq<RunDagNode<S>>, n: int) -> Seq<int>
    decreases n,
{
    if n <= 0 {
        Seq::empty()
    } else {
        let earlier = emitting(nodes, n - 1);
        if nodes[n - 1].emits_priority {
            earlier.push(n - 1)
        } else {
            earlier
        }
    }
}

/// How many nodes have metrics.
pub open spec fn paired<S: Scalar>(dag: CompletedRunDag<S>, cpm: CompletedRunCpm<S>) -> int {
    if dag.nodes@.len() <= cpm.nodes@.len() {
        dag.nodes@.len() as int
    } else {
        cpm.nodes@.len() as int
    }
}

/// Whether `pairs` are the priority-emitting nodes among the first `n`, in order, each with its
/// metrics.
pub open spec fn pairs_of<'a, S: Scalar>(
    nodes: Seq<RunDagNode<S>>,
    metrics: Seq<RunDagCpmNode<S>>,
    n: int,
    pairs: Seq<(&'a RunDagNode<S>, &'a RunDagCpmNode<S>)>,
) -> bool {
    &&& pairs.len() == emitting(nodes, n).len()
    &&& forall|i: int|
        #![trigger pairs[i]]
        #![trigger emitting(nodes, n)[i]]
        0 <= i < pairs.len() ==> {
            &&& 0 <= emitting(nodes, n)[i] < n
            &&& *pairs[i].0 == nodes[emitting(nodes, n)[i]]
            &&& *pairs[i].1 == metrics[emitting(nodes, n)[i]]
        }
}

impl<S: Scalar> CompletedRunCpm<S> {
    /// Lists only CPM nodes that correspond to priority-emitting DAG nodes.
    pub fn priority_nodes<'a>(&'a self, dag: &'a CompletedRunDag<S>) -> (r: Vec<
        (&'a RunDagNode<S>, &'a RunDagCpmNode<S>),
    >)
        ensures
            pairs_of(dag.nodes@, self.nodes@, paired(*dag, *self), r@),
    {
        let mut out: Vec<(&'a RunDagNode<S>, &'a RunDagCpmNode<S>)> = Vec::new();
        let mut i: usize = 0;
        while i < dag.nodes.len() && i < self.nodes.len()
            invariant
                i <= dag.nodes.len(),
                i <= self.nodes.len(),
                pairs_of(dag.nodes@, self.nodes@, i as int, out@),
            decreases dag.nodes.len() - i,
        {
            let ghost before = out@;
            if dag.nodes[i].emits_priority {
                out.push((&dag.nodes[i], &self.nodes[i]));
            }
            proof {
                let earlier = emitting(dag.nodes@, i as int);
                let indices = emitting(dag.nodes@, i + 1);
                assert forall|k: int|
                    #![trigger out@[k]]
                    #![trigger indices[k]]
                    0 <= k < out@.len() implies {
                    &&& 0 <= indices[k] < i + 1
                    &&& *out@[k].0 == dag.nodes@[indices[k]]
                    &&& *out@[k].1 == self.nodes@[indices[k]]
                } by {
                    if k < before.len() {
                        assert(out@[k] == before[k]);
                        assert(indices[k] == earlier[k]);
                    }
                }
            }
            i += 1;
        }
        out
    }
}

/// Whether `sample` holds the facts of a node and its metrics.
pub open spec fn sample_of<S: Scalar>(
    node: RunDagNode<S>,
    metrics: RunDagCpmNode<S>,
    sample: DagCpmCallSample<S>,
) -> bool {
    &&& sample.scope_uuid == node.scope_uuid
    &&& sample.structural_key == node.structural_key
    &&& sample.duration_ms == node.duration_ms
    &&& sample.slack_ms == metrics.slack_ms
    &&& sample.criticality == metrics.criticality
    &&& sample.queue_horizon_ms == metrics.queue_horizon_ms
}

/// Whether `samples` are the facts of the priority-emitting nodes, in order.
pub open spec fn samples_of<S: Scalar>(
    dag: CompletedRunDag<S>,
    cpm: CompletedRunCpm<S>,
    samples: Seq<DagCpmCallSample<S>>,
) -> bool {
    let indices = emitting(dag.nodes@, paired(dag, cpm));
    &&& samples.len() == indices.len()
    &&& forall|i: int|
        0 <= i < samples.len() ==> 0 <= indices[i] < paired(dag, cpm) && sample_of(
            dag.nodes@[indices[i]],
            cpm.nodes@[indices[i]],
            #[trigger] samples[i],
        )
}

/// Collects the facts of the priority-emitting nodes.
pub fn cpm_samples_from<S: Scalar>(dag: &CompletedRunDag<S>, cpm: &CompletedRunCpm<S>) -> (r: Vec<
    DagCpmCallSample<S>,
>)
    ensures
        samples_of(*dag, *cpm, r@),
{
    let pairs = cpm.priority_nodes(dag);
    let ghost indices = emitting(dag.nodes@, paired(*dag, *cpm));
    let mut out: Vec<DagCpmCallSample<S>> = Vec::new();
    let mut i: usize = 0;
    while i < pairs.len()
        invariant
            i <= pairs.len(),
            out.len() == i,
            indices == emitting(dag.nodes@, paired(*dag, *cpm)),
            pairs_of(dag.nodes@, cpm.nodes@, paired(*dag, *cpm), pairs@),
            forall|k: int|
                0 <= k < i ==> 0 <= indices[k] < paired(*dag, *cpm) && sample_of(
                    dag.nodes@[indices[k]],
                    cpm.nodes@[indices[k]],
                    #[trigger] out@[k],
                ),
        decreases pairs.len() - i,
    {
        let (node, metrics) = pairs[i];
        out.push(
            DagCpmCallSample {
                scope_uuid: node.scope_uuid,
                structural_key: node.structural_key.clone(),
                duration_ms: node.duration_ms,
                slack_ms: metrics.slack_ms,
                criticality: metrics.criticality,
                queue_horizon_ms: metrics.queue_horizon_ms,
            },
        );
        i += 1;
    }
    out
}

/// Whether `dag` is the graph of a run.
pub open spec fn graph_of<S: Scalar>(run: RunRecord<S>, dag: CompletedRunDag<S>) -> bool {
    &&& dag.run_id == run.id
    &&& nodes_of(run.calls@, dag.nodes@)
    &&& edges_of(dag.nodes@, dag.edges@)
}

/// Whether `r` are the samples of a graph under the default horizon, or nothing for a cyclic one.
pub open spec fn sampled<S: Scalar>(
    dag: CompletedRunDag<S>,
    r: Option<Seq<DagCpmCallSample<S>>>,
) -> bool {
    match r {
        None => !acyclic(dag.edges@),
        Some(samples) => acyclic(dag.edges@) && exists|cpm: CompletedRunCpm<S>| #[trigger]
            cpm_of(
                dag,
                horizon_for::<S>(None),
                same_horizons(horizon_for::<S>(None), dag.nodes@.len()),
                cpm,
            ) && samples_of(dag, cpm, samples),
    }
}

/// The edges of a run's graph join its nodes.
pub proof fn lemma_graph_in_range<S: Scalar>(nodes: Seq<RunDagNode<S>>, edges: Seq<RunDagEdge>)
    requires
        edges_of(nodes, edges),
    ensures
        in_range(edges, nodes.len() as int),
{
    assert forall|i: int| 0 <= i < edges.len() implies (#[trigger] edges[i]).from < nodes.len()
        && edges[i].to < nodes.len() by {
        law_edges_join_nodes(nodes, edges, i);
    }
}

/// Compute reusable CPM samples for priority-emitting LLM calls in a run.
pub fn cpm_call_samples<S: Scalar>(run: &RunRecord<S>) -> (r: Option<Vec<DagCpmCallSample<S>>>)
    ensures
        exists|dag: CompletedRunDag<S>| #[trigger]
            graph_of(*run, dag) && sampled(
                dag,
                match r {
                    Some(samples) => Some(samples@),
                    None => None,
                },
            ),
{
    let dag = build_completed_run_dag(run);
    proof {
        lemma_graph_in_range(dag.nodes@, dag.edges@);
        assert(graph_of(*run, dag));
    }
    match compute_cpm(&dag, None) {
        Some(cpm) => {
            let samples = cpm_samples_from(&dag, &cpm);
            proof {
                assert(sampled(dag, Some(samples@)));
            }
            Some(samples)
        },
        None => None,
    }
}

/// The indices of priority-emitting nodes are those of all of them, in order.
proof fn lemma_emitting<S: Scalar>(nodes: Seq<RunDagNode<S>>, n: int)
    requires
        0 <= n <= nodes.len(),
    ensures
        forall|k: int|
            0 <= k < emitting(nodes, n).len() ==> 0 <= #[trigger] emitting(nodes, n)[k] < n
                && nodes[emitting(nodes, n)[k]].emits_priority,
        forall|v: int|
            0 <= v < n && (#[trigger] nodes[v]).emits_priority ==> emitting(nodes, n).contains(v),
        forall|j: int, k: int|
            0 <= j < k < emitting(nodes, n).len() ==> #[trigger] emitting(nodes, n)[j]
                < #[trigger] emitting(nodes, n)[k],
        emitting(nodes, n).len() <= n,
    decreases n,
{
    if n > 0 {
        lemma_emitting(nodes, n - 1);
        let (earlier, all) = (emitting(nodes, n - 1), emitting(nodes, n));
        assert forall|j: int, k: int| 0 <= j < k < all.len() implies #[trigger] all[j]
            < #[trigger] all[k] by {
            assert(all[j] == earlier[j]);
            if k < earlier.len() {
                assert(all[k] == earlier[k]);
            }
        }
        assert forall|k: int| 0 <= k < all.len() implies 0 <= #[trigger] all[k] < n
            && nodes[all[k]].emits_priority by {
            if k < earlier.len() {
                assert(all[k] == earlier[k]);
            }
        }
        assert forall|v: int| 0 <= v < n && (#[trigger] nodes[v]).emits_priority implies all.contains(
            v,
        ) by {
            if v < n - 1 {
                let k = choose|k: int| 0 <= k < earlier.len() && earlier[k] == v;
                assert(all[k] == v);
            } else {
                assert(all[all.len() - 1] == v);
            }
        }
    }
}

/// Every completed LLM call of a run has a sample of its own, with its duration and what the result
/// says of it.
pub proof fn law_llm_calls_are_sampled<S: Scalar>(
    run: RunRecord<S>,
    dag: CompletedRunDag<S>,
    cpm: CompletedRunCpm<S>,
    samples: Seq<DagCpmCallSample<S>>,
    v: int,
) -> (i: int)
    requires
        graph_of(run, dag),
        cpm.nodes@.len() == dag.nodes@.len(),
        samples_of(dag, cpm, samples),
        0 <= v < dag.nodes@.len(),
        run.calls@[dag.nodes@[v].call_index as int].kind == CallKind::Llm,
    ensures
        0 <= i < samples.len(),
        samples[i].scope_uuid == run.calls@[dag.nodes@[v].call_index as int].scope_uuid,
        samples[i].structural_key == dag.nodes@[v].structural_key,
        samples[i].duration_ms == dag.nodes@[v].duration_ms,
        samples[i].slack_ms == cpm.nodes@[v].slack_ms,
        samples[i].criticality == cpm.nodes@[v].criticality,
        samples[i].queue_horizon_ms == cpm.nodes@[v].queue_horizon_ms,
        samples.len() <= dag.nodes@.len(),
        forall|j: int|
            0 <= j < samples.len() && j != i ==> of_another(dag.nodes@, v, #[trigger] samples[j]),
{
    let n = dag.nodes@.len() as int;
    lemma_emitting(dag.nodes@, n);
    assert(stands_for(
        dag.nodes@[v],
        run.calls@[dag.nodes@[v].call_index as int],
        dag.nodes@[v].call_index as int,
    ));
    let indices = emitting(dag.nodes@, n);
    assert(indices.contains(v));
    let i = choose|i: int| 0 <= i < indices.len() && indices[i] == v;
    assert(sample_of(dag.nodes@[v], cpm.nodes@[v], samples[i]));
    assert forall|j: int| 0 <= j < samples.len() && j != i implies of_another(
        dag.nodes@,
        v,
        #[trigger] samples[j],
    ) by {
        let w = indices[j];
        assert(if j < i {
            indices[j] < indices[i]
        } else {
            indices[i] < indices[j]
        });
        assert(sample_of(dag.nodes@[w], cpm.nodes@[w], samples[j]));
    }
    i
}

/// Whether a sample is that of an LLM call other than the one at `v`.
pub open spec fn of_another<S: Scalar>(
    nodes: Seq<RunDagNode<S>>,
    v: int,
    sample: DagCpmCallSample<S>,
) -> bool {
    exists|w: int|
        0 <= w < nodes.len() && w != v && (#[trigger] nodes[w]).emits_priority
            && nodes[w].structural_key == sample.structural_key && nodes[w].scope_uuid
            == sample.scope_uuid
}

/// Only completed LLM calls are sampled.
pub proof fn law_samples_are_llm_calls<S: Scalar>(
    run: RunRecord<S>,
    dag: CompletedRunDag<S>,
    cpm: CompletedRunCpm<S>,
    samples: Seq<DagCpmCallSample<S>>,
    i: int,
) -> (v: int)
    requires
        graph_of(run, dag),
        cpm.nodes@.len() == dag.nodes@.len(),
        samples_of(dag, cpm, samples),
        0 <= i < samples.len(),
    ensures
        0 <= v < dag.nodes@.len(),
        samples[i].structural_key == dag.nodes@[v].structural_key,
        samples[i].scope_uuid == run.calls@[dag.nodes@[v].call_index as int].scope_uuid,
        run.calls@[dag.nodes@[v].call_index as int].kind == CallKind::Llm,
        run.calls@[dag.nodes@[v].call_index as int].ended_at is Some,
{
    let n = dag.nodes@.len() as int;
    lemma_emitting(dag.nodes@, n);
    let v = emitting(dag.nodes@, n)[i];
    assert(sample_of(dag.nodes@[v], cpm.nodes@[v], samples[i]));
    assert(stands_for(
        dag.nodes@[v],
        run.calls@[dag.nodes@[v].call_index as int],
        dag.nodes@[v].call_index as int,
    ));
    v
}

} // verus!
