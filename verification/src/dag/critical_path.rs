//! What the critical-path method promises, in exact arithmetic.
//!
//! Durations are [`Fixed`] here, so sums are exact as long as the calls of a run together last less
//! than the range holds.
use crate::dag::cpm::{bounded_horizon, horizon_for, cpm_of, earliest_among, earliest_finishes, earliest_starts, forward_at, latest_among, latest_of, latest_starts, slack_criticality, CompletedRunCpm, DagCpmCallSample, JUMP_UNIT_MS, MAX_QUEUE_HORIZON_MS};
use crate::dag::graph::{CompletedRunDag, RunDagEdge, RunDagNode};
use crate::dag::state::{fresh_node, moved, projected_priority, samples_learned, valid_sample, DagCpmNodeState, DAG_CPM_EWMA_ALPHA_TENTHS};
use crate::dag::topology::{acyclic, grows_along, in_range, lemma_edge_listed, lemma_source_edge, lemma_target_edge, sources, targets};
use crate::fixed::{Fixed, WHOLE};
use crate::scalar::{held_between, one_of, zero_of, Scalar};
use crate::time::Timestamp;
use vstd::prelude::*;

verus! {

/// Duration of a call, in millionths of a millisecond.
pub open spec fn cost(nodes: Seq<RunDagNode<Fixed>>, v: int) -> int {
    nodes[v].duration_ms.millionths as int
}

/// Duration of the first `n` calls together.
pub open spec fn total_cost(nodes: Seq<RunDagNode<Fixed>>, n: int) -> int
    decreases n,
{
    if n <= 0 {
        0
    } else {
        total_cost(nodes, n - 1) + cost(nodes, n - 1)
    }
}

/// Whether no call lasts a negative time, and all of them together fit the range.
pub open spec fn measured(nodes: Seq<RunDagNode<Fixed>>) -> bool {
    &&& forall|v: int| 0 <= v < nodes.len() ==> (#[trigger] nodes[v]).duration_ms.millionths >= 0
    &&& total_cost(nodes, nodes.len() as int) < i64::MAX
}

/// Whether an edge leads from `u` to `v`.
pub open spec fn leads(edges: Seq<RunDagEdge>, u: int, v: int) -> bool {
    exists|k: int| 0 <= k < edges.len() && (#[trigger] edges[k]).from == u && edges[k].to == v
}

/// Whether `path` is a path through the graph.
pub open spec fn is_path(edges: Seq<RunDagEdge>, n: int, path: Seq<int>) -> bool {
    &&& path.len() > 0
    &&& forall|i: int| 0 <= i < path.len() ==> 0 <= #[trigger] path[i] < n
    &&& forall|i: int, j: int|
        0 <= i && j == i + 1 && j < path.len() ==> leads(
            edges,
            #[trigger] path[i],
            #[trigger] path[j],
        )
}

/// Duration of the calls on a path together.
pub open spec fn path_cost(nodes: Seq<RunDagNode<Fixed>>, path: Seq<int>) -> int
    decreases path.len(),
{
    if path.len() == 0 {
        0
    } else {
        path_cost(nodes, path.drop_last()) + cost(nodes, path.last())
    }
}

/// Earliest start of a call.
pub open spec fn early_start(cpm: CompletedRunCpm<Fixed>, v: int) -> int {
    cpm.nodes@[v].earliest_start_ms.millionths as int
}

/// Earliest finish of a call.
pub open spec fn early_finish(cpm: CompletedRunCpm<Fixed>, v: int) -> int {
    cpm.nodes@[v].earliest_finish_ms.millionths as int
}

/// Latest start of a call.
pub open spec fn late_start(cpm: CompletedRunCpm<Fixed>, v: int) -> int {
    cpm.nodes@[v].latest_start_ms.millionths as int
}

/// Latest finish of a call.
pub open spec fn late_finish(cpm: CompletedRunCpm<Fixed>, v: int) -> int {
    cpm.nodes@[v].latest_finish_ms.millionths as int
}

/// Finish of the workflow.
pub open spec fn end_of(cpm: CompletedRunCpm<Fixed>) -> int {
    cpm.workflow_finish_ms.millionths as int
}

/// Whether `cpm` is the critical-path result for a graph of measured calls without a cycle.
pub open spec fn exact_result(
    dag: CompletedRunDag<Fixed>,
    summary_horizon: Fixed,
    horizons: Seq<Fixed>,
    cpm: CompletedRunCpm<Fixed>,
) -> bool {
    &&& in_range(dag.edges@, dag.nodes@.len() as int)
    &&& acyclic(dag.edges@)
    &&& measured(dag.nodes@)
    &&& cpm_of(dag, summary_horizon, horizons, cpm)
}

/// The duration of the calls below `n` that rank at most `r`.
spec fn ranked_cost(
    nodes: Seq<RunDagNode<Fixed>>,
    rank: spec_fn(int) -> nat,
    r: int,
    n: int,
) -> int
    decreases n,
{
    if n <= 0 {
        0
    } else {
        ranked_cost(nodes, rank, r, n - 1) + if rank(n - 1) <= r {
            cost(nodes, n - 1)
        } else {
            0
        }
    }
}

proof fn lemma_ranked_cost(
    nodes: Seq<RunDagNode<Fixed>>,
    rank: spec_fn(int) -> nat,
    low: int,
    high: int,
    n: int,
)
    requires
        0 <= n <= nodes.len(),
        low <= high,
        forall|v: int|
            0 <= v < nodes.len() ==> (#[trigger] nodes[v]).duration_ms.millionths >= 0,
    ensures
        0 <= ranked_cost(nodes, rank, low, n) <= ranked_cost(nodes, rank, high, n) <= total_cost(
            nodes,
            n,
        ),
    decreases n,
{
    if n > 0 {
        lemma_ranked_cost(nodes, rank, low, high, n - 1);
        assert(nodes[n - 1].duration_ms.millionths >= 0);
    }
}

proof fn lemma_ranked_cost_step(
    nodes: Seq<RunDagNode<Fixed>>,
    rank: spec_fn(int) -> nat,
    low: int,
    v: int,
    n: int,
)
    requires
        0 <= n <= nodes.len(),
        0 <= v < n,
        low < rank(v),
        forall|w: int|
            0 <= w < nodes.len() ==> (#[trigger] nodes[w]).duration_ms.millionths >= 0,
    ensures
        ranked_cost(nodes, rank, low, n) + cost(nodes, v) <= ranked_cost(
            nodes,
            rank,
            rank(v) as int,
            n,
        ),
    decreases n,
{
    assert(nodes[n - 1].duration_ms.millionths >= 0);
    if v < n - 1 {
        lemma_ranked_cost_step(nodes, rank, low, v, n - 1);
    } else {
        lemma_ranked_cost(nodes, rank, low, rank(v) as int, n - 1);
    }
}

/// The largest of values that are not negative is zero or one of them, and no value exceeds it.
proof fn lemma_latest_among(list: Seq<usize>, values: Seq<Fixed>)
    requires
        forall|i: int|
            0 <= i < list.len() ==> values[(#[trigger] list[i]) as int].millionths >= 0,
    ensures
        latest_among(list, values).millionths >= 0,
        forall|i: int|
            0 <= i < list.len() ==> values[(#[trigger] list[i]) as int].millionths <= latest_among(
                list,
                values,
            ).millionths,
        list.len() == 0 ==> latest_among(list, values).millionths == 0,
        list.len() > 0 ==> exists|i: int|
            0 <= i < list.len() && values[(#[trigger] list[i]) as int] == latest_among(
                list,
                values,
            ),
    decreases list.len(),
{
    if list.len() > 0 {
        let front = list.drop_last();
        assert forall|i: int| 0 <= i < front.len() implies values[(
        #[trigger] front[i]) as int].millionths >= 0 by {
            assert(front[i] == list[i]);
        }
        lemma_latest_among(front, values);
        assert(values[list[list.len() - 1] as int].millionths >= 0);
        assert forall|i: int| 0 <= i < list.len() implies values[(
        #[trigger] list[i]) as int].millionths <= latest_among(list, values).millionths by {
            if i < front.len() {
                assert(front[i] == list[i]);
            }
        }
        if latest_among(list, values) == values[list.last() as int] {
            assert(values[list[list.len() - 1] as int] == latest_among(list, values));
        } else {
            if front.len() == 0 {
                assert(values[list[0] as int].millionths >= 0);
                assert(false);
            }
            let i = choose|i: int|
                0 <= i < front.len() && values[(#[trigger] front[i]) as int] == latest_among(
                    front,
                    values,
                );
            assert(values[list[i] as int] == latest_among(list, values));
        }
    }
}

/// The smallest of values is one of them, and exceeds none.
proof fn lemma_earliest_among(list: Seq<usize>, values: Seq<Fixed>)
    requires
        list.len() > 0,
    ensures
        forall|i: int|
            0 <= i < list.len() ==> earliest_among(list, values).millionths <= values[(
            #[trigger] list[i]) as int].millionths,
        exists|i: int|
            0 <= i < list.len() && values[(#[trigger] list[i]) as int] == earliest_among(
                list,
                values,
            ),
    decreases list.len(),
{
    let front = list.drop_last();
    let last = values[list[list.len() - 1] as int];
    if front.len() == 0 {
        assert(earliest_among(front, values) == Fixed::unbounded());
        assert(earliest_among(list, values).millionths == last.millionths);
        assert(earliest_among(list, values) == last);
    } else {
        lemma_earliest_among(front, values);
        assert forall|i: int| 0 <= i < list.len() implies earliest_among(list, values).millionths
            <= values[(#[trigger] list[i]) as int].millionths by {
            if i < front.len() {
                assert(front[i] == list[i]);
            }
        }
        if earliest_among(list, values) != last {
            let i = choose|i: int|
                0 <= i < front.len() && values[(#[trigger] front[i]) as int] == earliest_among(
                    front,
                    values,
                );
            assert(values[list[i] as int] == earliest_among(list, values));
        }
    }
}

/// The largest of all values that are not negative is one of them, and no value exceeds it.
proof fn lemma_latest_of(values: Seq<Fixed>)
    requires
        forall|i: int| 0 <= i < values.len() ==> (#[trigger] values[i]).millionths >= 0,
    ensures
        latest_of(values).millionths >= 0,
        forall|i: int|
            0 <= i < values.len() ==> (#[trigger] values[i]).millionths <= latest_of(
                values,
            ).millionths,
        values.len() > 0 ==> exists|i: int|
            0 <= i < values.len() && #[trigger] values[i] == latest_of(values),
    decreases values.len(),
{
    if values.len() > 0 {
        let front = values.drop_last();
        assert forall|i: int| 0 <= i < front.len() implies (#[trigger] front[i]).millionths
            >= 0 by {
            assert(front[i] == values[i]);
        }
        lemma_latest_of(front);
        assert(values[values.len() - 1].millionths >= 0);
        assert forall|i: int| 0 <= i < values.len() implies (#[trigger] values[i]).millionths
            <= latest_of(values).millionths by {
            if i < front.len() {
                assert(front[i] == values[i]);
            }
        }
        if latest_of(values) == values.last() {
            assert(values[values.len() - 1] == latest_of(values));
        } else {
            if front.len() == 0 {
                assert(false);
            }
            let i = choose|i: int| 0 <= i < front.len() && #[trigger] front[i] == latest_of(front);
            assert(values[i] == latest_of(values));
        }
    }
}

/// The forward pass at one call: it starts when the last of its predecessors finishes, and nothing
/// was held to the range.
proof fn lemma_forward(
    dag: CompletedRunDag<Fixed>,
    summary_horizon: Fixed,
    horizons: Seq<Fixed>,
    cpm: CompletedRunCpm<Fixed>,
    rank: spec_fn(int) -> nat,
    v: int,
)
    requires
        exact_result(dag, summary_horizon, horizons, cpm),
        grows_along(rank, dag.edges@),
        0 <= v < dag.nodes@.len(),
    ensures
        early_start(cpm, v) >= 0,
        early_finish(cpm, v) == early_start(cpm, v) + cost(dag.nodes@, v),
        early_finish(cpm, v) <= ranked_cost(
            dag.nodes@,
            rank,
            rank(v) as int,
            dag.nodes@.len() as int,
        ),
        early_finish(cpm, v) < i64::MAX,
        sources(dag.edges@, v).len() == 0 ==> early_start(cpm, v) == 0,
        sources(dag.edges@, v).len() > 0 ==> exists|i: int|
            0 <= i < sources(dag.edges@, v).len() && early_finish(
                cpm,
                (#[trigger] sources(dag.edges@, v)[i]) as int,
            ) == early_start(cpm, v),
        forall|i: int|
            0 <= i < sources(dag.edges@, v).len() ==> early_finish(
                cpm,
                (#[trigger] sources(dag.edges@, v)[i]) as int,
            ) <= early_start(cpm, v),
    decreases rank(v),
{
    let out = cpm.nodes@;
    let n = dag.nodes@.len() as int;
    let list = sources(dag.edges@, v);
    let values = earliest_finishes(out);
    assert(out[v].node_index == v);
    assert(forward_at(dag.nodes@, dag.edges@, earliest_starts(out), values, v));
    assert(dag.nodes@[v].duration_ms.millionths >= 0);
    assert forall|i: int| 0 <= i < list.len() implies {
        let u = (#[trigger] list[i]) as int;
        &&& 0 <= u < n
        &&& values[u].millionths == early_finish(cpm, u)
        &&& values[u].millionths >= 0
        &&& early_finish(cpm, u) <= ranked_cost(dag.nodes@, rank, rank(v) - 1, n)
    } by {
        let u = list[i] as int;
        lemma_source_edge(dag.edges@, v, i);
        let k = choose|k: int|
            0 <= k < dag.edges@.len() && (#[trigger] dag.edges@[k]).to == v && dag.edges@[k].from
                == list[i];
        assert(rank(dag.edges@[k].from as int) < rank(dag.edges@[k].to as int));
        lemma_forward(dag, summary_horizon, horizons, cpm, rank, u);
        assert(dag.nodes@[u].duration_ms.millionths >= 0);
        lemma_ranked_cost(dag.nodes@, rank, rank(u) as int, rank(v) - 1, n);
    }
    lemma_latest_among(list, values);
    lemma_ranked_cost(dag.nodes@, rank, rank(v) - 1, rank(v) as int, n);
    lemma_ranked_cost_step(dag.nodes@, rank, rank(v) - 1, v, n);
    if list.len() > 0 {
        let i = choose|i: int|
            0 <= i < list.len() && values[(#[trigger] list[i]) as int] == latest_among(
                list,
                values,
            );
        assert(early_finish(cpm, list[i] as int) == early_start(cpm, v));
    } else {
        assert(zero_of::<Fixed>().millionths == 0);
    }
}

/// The finish of the workflow is the last finish of a call.
proof fn lemma_end(
    dag: CompletedRunDag<Fixed>,
    summary_horizon: Fixed,
    horizons: Seq<Fixed>,
    cpm: CompletedRunCpm<Fixed>,
)
    requires
        exact_result(dag, summary_horizon, horizons, cpm),
    ensures
        0 <= end_of(cpm) < i64::MAX,
        forall|v: int|
            0 <= v < dag.nodes@.len() ==> #[trigger] early_finish(cpm, v) <= end_of(cpm),
        dag.nodes@.len() > 0 ==> exists|v: int|
            0 <= v < dag.nodes@.len() && #[trigger] early_finish(cpm, v) == end_of(cpm),
{
    let rank = choose|rank: spec_fn(int) -> nat| #[trigger] grows_along(rank, dag.edges@);
    let values = earliest_finishes(cpm.nodes@);
    assert forall|v: int| 0 <= v < values.len() implies (#[trigger] values[v]).millionths >= 0
        && values[v].millionths < i64::MAX && values[v].millionths == early_finish(cpm, v) by {
        lemma_forward(dag, summary_horizon, horizons, cpm, rank, v);
        assert(dag.nodes@[v].duration_ms.millionths >= 0);
    }
    lemma_latest_of(values);
    assert forall|v: int| 0 <= v < dag.nodes@.len() implies #[trigger] early_finish(cpm, v)
        <= end_of(cpm) by {
        assert(values[v].millionths == early_finish(cpm, v));
    }
    if values.len() > 0 {
        let v = choose|v: int| 0 <= v < values.len() && #[trigger] values[v] == latest_of(values);
        assert(early_finish(cpm, v) == end_of(cpm));
    } else {
        assert(zero_of::<Fixed>().millionths == 0);
    }
}

/// The largest rank of `n` calls.
spec fn highest_rank(rank: spec_fn(int) -> nat, n: int) -> nat
    decreases n,
{
    if n <= 0 {
        0
    } else {
        let below = highest_rank(rank, n - 1);
        if below >= rank(n - 1) {
            below
        } else {
            rank(n - 1)
        }
    }
}

proof fn lemma_highest_rank(rank: spec_fn(int) -> nat, n: int, v: int)
    requires
        0 <= v < n,
    ensures
        rank(v) <= highest_rank(rank, n),
    decreases n,
{
    if v < n - 1 {
        lemma_highest_rank(rank, n - 1, v);
    }
}

/// The backward pass at one call: it has to finish when the first of its successors has to start,
/// which is no sooner than it can.
proof fn lemma_backward(
    dag: CompletedRunDag<Fixed>,
    summary_horizon: Fixed,
    horizons: Seq<Fixed>,
    cpm: CompletedRunCpm<Fixed>,
    rank: spec_fn(int) -> nat,
    v: int,
)
    requires
        exact_result(dag, summary_horizon, horizons, cpm),
        grows_along(rank, dag.edges@),
        0 <= v < dag.nodes@.len(),
    ensures
        early_finish(cpm, v) <= late_finish(cpm, v) <= end_of(cpm),
        late_start(cpm, v) == late_finish(cpm, v) - cost(dag.nodes@, v),
        forall|i: int|
            0 <= i < targets(dag.edges@, v).len() ==> late_finish(cpm, v) <= late_start(
                cpm,
                (#[trigger] targets(dag.edges@, v)[i]) as int,
            ),
        targets(dag.edges@, v).len() == 0 ==> late_finish(cpm, v) == end_of(cpm),
        targets(dag.edges@, v).len() > 0 ==> exists|i: int|
            0 <= i < targets(dag.edges@, v).len() && late_start(
                cpm,
                (#[trigger] targets(dag.edges@, v)[i]) as int,
            ) == late_finish(cpm, v),
    decreases highest_rank(rank, dag.nodes@.len() as int) - rank(v),
{
    let out = cpm.nodes@;
    let n = dag.nodes@.len() as int;
    let list = targets(dag.edges@, v);
    let values = latest_starts(out);
    assert(out[v].node_index == v);
    assert(dag.nodes@[v].duration_ms.millionths >= 0);
    lemma_forward(dag, summary_horizon, horizons, cpm, rank, v);
    lemma_end(dag, summary_horizon, horizons, cpm);
    assert(early_finish(cpm, v) <= end_of(cpm));
    assert forall|i: int| 0 <= i < list.len() implies {
        let w = (#[trigger] list[i]) as int;
        &&& 0 <= w < n
        &&& values[w].millionths == late_start(cpm, w)
        &&& early_finish(cpm, v) <= late_start(cpm, w) <= end_of(cpm)
    } by {
        let w = list[i] as int;
        lemma_target_edge(dag.edges@, v, i);
        let k = choose|k: int|
            0 <= k < dag.edges@.len() && (#[trigger] dag.edges@[k]).from == v && dag.edges@[k].to
                == list[i];
        assert(rank(dag.edges@[k].from as int) < rank(dag.edges@[k].to as int));
        lemma_highest_rank(rank, n, w);
        lemma_backward(dag, summary_horizon, horizons, cpm, rank, w);
        lemma_forward(dag, summary_horizon, horizons, cpm, rank, w);
        assert(dag.nodes@[w].duration_ms.millionths >= 0);
        lemma_edge_listed(dag.edges@, k);
        let before = sources(dag.edges@, w);
        let j = choose|j: int| 0 <= j < before.len() && before[j] == dag.edges@[k].from;
        assert(early_finish(cpm, before[j] as int) <= early_start(cpm, w));
    }
    if list.len() > 0 {
        lemma_earliest_among(list, values);
        let i = choose|i: int|
            0 <= i < list.len() && values[(#[trigger] list[i]) as int] == earliest_among(
                list,
                values,
            );
        assert(values[list[i] as int].millionths == late_finish(cpm, v));
        assert(late_start(cpm, list[i] as int) == late_finish(cpm, v));
    }
}

/// A call starts no sooner than each of its predecessors can finish, and each of those has to finish
/// before the call has to start.
pub proof fn law_calls_follow_their_predecessors(
    dag: CompletedRunDag<Fixed>,
    summary_horizon: Fixed,
    horizons: Seq<Fixed>,
    cpm: CompletedRunCpm<Fixed>,
    u: int,
    v: int,
)
    requires
        exact_result(dag, summary_horizon, horizons, cpm),
        leads(dag.edges@, u, v),
    ensures
        early_finish(cpm, u) <= early_start(cpm, v),
        late_finish(cpm, u) <= late_start(cpm, v),
{
    let rank = choose|rank: spec_fn(int) -> nat| #[trigger] grows_along(rank, dag.edges@);
    let k = choose|k: int|
        0 <= k < dag.edges@.len() && (#[trigger] dag.edges@[k]).from == u && dag.edges@[k].to == v;
    lemma_forward(dag, summary_horizon, horizons, cpm, rank, v);
    lemma_backward(dag, summary_horizon, horizons, cpm, rank, u);
    lemma_edge_listed(dag.edges@, k);
    let before = sources(dag.edges@, v);
    let i = choose|i: int| 0 <= i < before.len() && before[i] == dag.edges@[k].from;
    assert(early_finish(cpm, before[i] as int) <= early_start(cpm, v));
    let after = targets(dag.edges@, u);
    let j = choose|j: int| 0 <= j < after.len() && after[j] == dag.edges@[k].to;
    assert(late_finish(cpm, u) <= late_start(cpm, after[j] as int));
}

/// No call has negative slack, and none has to finish after the workflow does.
pub proof fn law_slack_is_never_negative(
    dag: CompletedRunDag<Fixed>,
    summary_horizon: Fixed,
    horizons: Seq<Fixed>,
    cpm: CompletedRunCpm<Fixed>,
    v: int,
)
    requires
        exact_result(dag, summary_horizon, horizons, cpm),
        0 <= v < dag.nodes@.len(),
    ensures
        cpm.nodes@[v].slack_ms.millionths == late_start(cpm, v) - early_start(cpm, v),
        cpm.nodes@[v].slack_ms.millionths >= 0,
        late_finish(cpm, v) <= end_of(cpm),
{
    let rank = choose|rank: spec_fn(int) -> nat| #[trigger] grows_along(rank, dag.edges@);
    lemma_forward(dag, summary_horizon, horizons, cpm, rank, v);
    lemma_backward(dag, summary_horizon, horizons, cpm, rank, v);
    lemma_end(dag, summary_horizon, horizons, cpm);
    assert(dag.nodes@[v].duration_ms.millionths >= 0);
    assert(cpm.nodes@[v].node_index == v);
}

/// The calls on a path take no longer than its last call needs to finish.
proof fn lemma_path_cost(
    dag: CompletedRunDag<Fixed>,
    summary_horizon: Fixed,
    horizons: Seq<Fixed>,
    cpm: CompletedRunCpm<Fixed>,
    path: Seq<int>,
)
    requires
        exact_result(dag, summary_horizon, horizons, cpm),
        is_path(dag.edges@, dag.nodes@.len() as int, path),
    ensures
        path_cost(dag.nodes@, path) <= early_finish(cpm, path.last()),
    decreases path.len(),
{
    let rank = choose|rank: spec_fn(int) -> nat| #[trigger] grows_along(rank, dag.edges@);
    let front = path.drop_last();
    let v = path[path.len() - 1];
    lemma_forward(dag, summary_horizon, horizons, cpm, rank, v);
    if front.len() > 0 {
        let u = path[path.len() - 2];
        assert(leads(dag.edges@, u, v));
        assert(front.last() == u);
        assert forall|i: int, j: int|
            0 <= i && j == i + 1 && j < front.len() implies leads(
            dag.edges@,
            #[trigger] front[i],
            #[trigger] front[j],
        ) by {
            assert(front[i] == path[i] && front[j] == path[j]);
        }
        lemma_path_cost(dag, summary_horizon, horizons, cpm, front);
        law_calls_follow_their_predecessors(dag, summary_horizon, horizons, cpm, u, v);
    } else {
        assert(path_cost(dag.nodes@, front) == 0);
    }
}

/// Some path to a call takes as long as the call needs to finish.
proof fn lemma_longest_path(
    dag: CompletedRunDag<Fixed>,
    summary_horizon: Fixed,
    horizons: Seq<Fixed>,
    cpm: CompletedRunCpm<Fixed>,
    rank: spec_fn(int) -> nat,
    v: int,
) -> (path: Seq<int>)
    requires
        exact_result(dag, summary_horizon, horizons, cpm),
        grows_along(rank, dag.edges@),
        0 <= v < dag.nodes@.len(),
    ensures
        is_path(dag.edges@, dag.nodes@.len() as int, path),
        path.last() == v,
        path_cost(dag.nodes@, path) == early_finish(cpm, v),
    decreases rank(v),
{
    lemma_forward(dag, summary_horizon, horizons, cpm, rank, v);
    let list = sources(dag.edges@, v);
    if list.len() == 0 {
        let path = seq![v];
        assert(path.drop_last() =~= Seq::<int>::empty());
        assert(path_cost(dag.nodes@, path.drop_last()) == 0);
        path
    } else {
        let i = choose|i: int|
            0 <= i < list.len() && early_finish(cpm, (#[trigger] list[i]) as int) == early_start(
                cpm,
                v,
            );
        let u = list[i] as int;
        lemma_source_edge(dag.edges@, v, i);
        let k = choose|k: int|
            0 <= k < dag.edges@.len() && (#[trigger] dag.edges@[k]).to == v && dag.edges@[k].from
                == list[i];
        assert(rank(dag.edges@[k].from as int) < rank(dag.edges@[k].to as int));
        let front = lemma_longest_path(dag, summary_horizon, horizons, cpm, rank, u);
        let path = front.push(v);
        assert(path.drop_last() =~= front);
        assert forall|i: int, j: int|
            0 <= i && j == i + 1 && j < path.len() implies leads(
            dag.edges@,
            #[trigger] path[i],
            #[trigger] path[j],
        ) by {
            if j < front.len() {
                assert(front[i] == path[i] && front[j] == path[j]);
            } else {
                assert(path[i] == front.last());
                assert(dag.edges@[k].from == path[i] && dag.edges@[k].to == path[j]);
            }
        }
        path
    }
}

/// The workflow takes as long as its longest path: no path takes longer, and some path takes that
/// long.
pub proof fn law_finish_is_longest_path(
    dag: CompletedRunDag<Fixed>,
    summary_horizon: Fixed,
    horizons: Seq<Fixed>,
    cpm: CompletedRunCpm<Fixed>,
)
    requires
        exact_result(dag, summary_horizon, horizons, cpm),
    ensures
        forall|path: Seq<int>| #[trigger]
            is_path(dag.edges@, dag.nodes@.len() as int, path) ==> path_cost(dag.nodes@, path)
                <= end_of(cpm),
        dag.nodes@.len() > 0 ==> exists|path: Seq<int>| #[trigger]
            is_path(dag.edges@, dag.nodes@.len() as int, path) && path_cost(dag.nodes@, path)
                == end_of(cpm),
{
    let n = dag.nodes@.len() as int;
    let rank = choose|rank: spec_fn(int) -> nat| #[trigger] grows_along(rank, dag.edges@);
    lemma_end(dag, summary_horizon, horizons, cpm);
    assert forall|path: Seq<int>| #[trigger] is_path(dag.edges@, n, path) implies path_cost(
        dag.nodes@,
        path,
    ) <= end_of(cpm) by {
        lemma_path_cost(dag, summary_horizon, horizons, cpm, path);
        assert(path[path.len() - 1] == path.last());
        assert(early_finish(cpm, path.last()) <= end_of(cpm));
    }
    if n > 0 {
        let v = choose|v: int| 0 <= v < n && #[trigger] early_finish(cpm, v) == end_of(cpm);
        let path = lemma_longest_path(dag, summary_horizon, horizons, cpm, rank, v);
        assert(is_path(dag.edges@, n, path));
    }
}

/// A call on a path has to finish early enough for the rest of the path.
proof fn lemma_path_leaves_room(
    dag: CompletedRunDag<Fixed>,
    summary_horizon: Fixed,
    horizons: Seq<Fixed>,
    cpm: CompletedRunCpm<Fixed>,
    path: Seq<int>,
    i: int,
)
    requires
        exact_result(dag, summary_horizon, horizons, cpm),
        is_path(dag.edges@, dag.nodes@.len() as int, path),
        0 <= i < path.len(),
    ensures
        late_finish(cpm, path[i]) <= end_of(cpm) - (path_cost(dag.nodes@, path) - path_cost(
            dag.nodes@,
            path.take(i + 1),
        )),
    decreases path.len() - i,
{
    let rank = choose|rank: spec_fn(int) -> nat| #[trigger] grows_along(rank, dag.edges@);
    lemma_backward(dag, summary_horizon, horizons, cpm, rank, path[i]);
    if i == path.len() - 1 {
        assert(path.take(i + 1) =~= path);
    } else {
        let j = i + 1;
        assert(leads(dag.edges@, path[i], path[j]));
        lemma_path_leaves_room(dag, summary_horizon, horizons, cpm, path, j);
        law_calls_follow_their_predecessors(
            dag,
            summary_horizon,
            horizons,
            cpm,
            path[i],
            path[j],
        );
        lemma_backward(dag, summary_horizon, horizons, cpm, rank, path[j]);
        assert(path.take(j + 1).drop_last() =~= path.take(i + 1));
        assert(path.take(j + 1).last() == path[j]);
    }
}

/// The calls on a path up to one of them are a path.
proof fn lemma_path_prefix(edges: Seq<RunDagEdge>, n: int, path: Seq<int>, i: int)
    requires
        is_path(edges, n, path),
        0 <= i < path.len(),
    ensures
        is_path(edges, n, path.take(i + 1)),
        path.take(i + 1).last() == path[i],
{
    let prefix = path.take(i + 1);
    assert forall|a: int, b: int| 0 <= a && b == a + 1 && b < prefix.len() implies leads(
        edges,
        #[trigger] prefix[a],
        #[trigger] prefix[b],
    ) by {
        assert(prefix[a] == path[a] && prefix[b] == path[b]);
    }
}

/// A path to a call can be continued until the calls after it have taken all the time that the
/// latest finish of the call leaves them.
proof fn lemma_longest_continuation(
    dag: CompletedRunDag<Fixed>,
    summary_horizon: Fixed,
    horizons: Seq<Fixed>,
    cpm: CompletedRunCpm<Fixed>,
    rank: spec_fn(int) -> nat,
    front: Seq<int>,
) -> (path: Seq<int>)
    requires
        exact_result(dag, summary_horizon, horizons, cpm),
        grows_along(rank, dag.edges@),
        is_path(dag.edges@, dag.nodes@.len() as int, front),
    ensures
        is_path(dag.edges@, dag.nodes@.len() as int, path),
        front.is_prefix_of(path),
        path_cost(dag.nodes@, path) == path_cost(dag.nodes@, front) + end_of(cpm) - late_finish(
            cpm,
            front.last(),
        ),
    decreases highest_rank(rank, dag.nodes@.len() as int) - rank(front.last()),
{
    let n = dag.nodes@.len() as int;
    let v = front[front.len() - 1];
    lemma_backward(dag, summary_horizon, horizons, cpm, rank, v);
    let list = targets(dag.edges@, v);
    if list.len() == 0 {
        front
    } else {
        let i = choose|i: int|
            0 <= i < list.len() && late_start(cpm, (#[trigger] list[i]) as int) == late_finish(
                cpm,
                v,
            );
        let w = list[i] as int;
        lemma_target_edge(dag.edges@, v, i);
        let k = choose|k: int|
            0 <= k < dag.edges@.len() && (#[trigger] dag.edges@[k]).from == v && dag.edges@[k].to
                == list[i];
        assert(rank(dag.edges@[k].from as int) < rank(dag.edges@[k].to as int));
        lemma_highest_rank(rank, n, w);
        lemma_backward(dag, summary_horizon, horizons, cpm, rank, w);
        let longer = front.push(w);
        assert(longer.drop_last() =~= front);
        assert forall|a: int, b: int| 0 <= a && b == a + 1 && b < longer.len() implies leads(
            dag.edges@,
            #[trigger] longer[a],
            #[trigger] longer[b],
        ) by {
            if b < front.len() {
                assert(front[a] == longer[a] && front[b] == longer[b]);
            } else {
                assert(dag.edges@[k].from == longer[a] && dag.edges@[k].to == longer[b]);
            }
        }
        let path = lemma_longest_continuation(
            dag,
            summary_horizon,
            horizons,
            cpm,
            rank,
            longer,
        );
        assert(front.is_prefix_of(path)) by {
            assert(front =~= longer.take(front.len() as int));
            assert(longer =~= path.take(longer.len() as int));
            assert(front =~= path.take(front.len() as int));
        }
        path
    }
}

/// The slack of a call is the finish of the workflow less the longest path through the call: no path
/// through it takes longer than that leaves, and some path takes that long.
pub proof fn law_slack_is_room_beside_longest_path(
    dag: CompletedRunDag<Fixed>,
    summary_horizon: Fixed,
    horizons: Seq<Fixed>,
    cpm: CompletedRunCpm<Fixed>,
    v: int,
)
    requires
        exact_result(dag, summary_horizon, horizons, cpm),
        0 <= v < dag.nodes@.len(),
    ensures
        forall|path: Seq<int>| #[trigger]
            is_path(dag.edges@, dag.nodes@.len() as int, path) && path.contains(v)
                ==> cpm.nodes@[v].slack_ms.millionths <= end_of(cpm) - path_cost(dag.nodes@, path),
        exists|path: Seq<int>| #[trigger]
            is_path(dag.edges@, dag.nodes@.len() as int, path) && path.contains(v)
                && cpm.nodes@[v].slack_ms.millionths == end_of(cpm) - path_cost(dag.nodes@, path),
{
    let n = dag.nodes@.len() as int;
    let rank = choose|rank: spec_fn(int) -> nat| #[trigger] grows_along(rank, dag.edges@);
    lemma_forward(dag, summary_horizon, horizons, cpm, rank, v);
    lemma_backward(dag, summary_horizon, horizons, cpm, rank, v);
    law_slack_is_never_negative(dag, summary_horizon, horizons, cpm, v);
    assert forall|path: Seq<int>| #[trigger]
        is_path(dag.edges@, n, path) && path.contains(
            v,
        ) implies cpm.nodes@[v].slack_ms.millionths <= end_of(cpm) - path_cost(
        dag.nodes@,
        path,
    ) by {
        let i = choose|i: int| 0 <= i < path.len() && path[i] == v;
        lemma_path_prefix(dag.edges@, n, path, i);
        lemma_path_cost(dag, summary_horizon, horizons, cpm, path.take(i + 1));
        lemma_path_leaves_room(dag, summary_horizon, horizons, cpm, path, i);
    }
    let front = lemma_longest_path(dag, summary_horizon, horizons, cpm, rank, v);
    let path = lemma_longest_continuation(dag, summary_horizon, horizons, cpm, rank, front);
    assert(path.contains(v)) by {
        assert(front =~= path.take(front.len() as int));
        assert(path[front.len() - 1] == front.last());
    }
    assert(is_path(dag.edges@, n, path));
}

/// Every call on a longest path is critical: it has no slack, and its criticality is one.
pub proof fn law_longest_path_is_critical(
    dag: CompletedRunDag<Fixed>,
    summary_horizon: Fixed,
    horizons: Seq<Fixed>,
    cpm: CompletedRunCpm<Fixed>,
    path: Seq<int>,
    i: int,
)
    requires
        exact_result(dag, summary_horizon, horizons, cpm),
        is_path(dag.edges@, dag.nodes@.len() as int, path),
        path_cost(dag.nodes@, path) == end_of(cpm),
        0 <= i < path.len(),
    ensures
        cpm.nodes@[path[i]].slack_ms.millionths == 0,
        cpm.nodes@[path[i]].criticality == one_of::<Fixed>(),
{
    let v = path[i];
    let rank = choose|rank: spec_fn(int) -> nat| #[trigger] grows_along(rank, dag.edges@);
    lemma_path_prefix(dag.edges@, dag.nodes@.len() as int, path, i);
    lemma_path_cost(dag, summary_horizon, horizons, cpm, path.take(i + 1));
    lemma_path_leaves_room(dag, summary_horizon, horizons, cpm, path, i);
    law_slack_is_never_negative(dag, summary_horizon, horizons, cpm, v);
    lemma_forward(dag, summary_horizon, horizons, cpm, rank, v);
    lemma_backward(dag, summary_horizon, horizons, cpm, rank, v);
    assert(cpm.nodes@[v].node_index == v);
    law_horizon_within_bounds(horizons[v]);
    law_criticality_in_unit_range(cpm.nodes@[v].slack_ms, cpm.nodes@[v].queue_horizon_ms);
}

/// A queue-delay horizon lies between one step of the priority scale and the longest horizon.
pub proof fn law_horizon_within_bounds(horizon: Fixed)
    ensures
        JUMP_UNIT_MS * WHOLE <= bounded_horizon(horizon).millionths <= MAX_QUEUE_HORIZON_MS * WHOLE,
{
}

/// Criticality lies between zero and one: it is one without slack, and zero once the slack reaches
/// the horizon.
pub proof fn law_criticality_in_unit_range(slack: Fixed, horizon: Fixed)
    requires
        horizon.millionths > 0,
    ensures
        0 <= slack_criticality(slack, horizon).millionths <= WHOLE,
        slack.millionths <= 0 ==> slack_criticality(slack, horizon) == one_of::<Fixed>(),
        slack.millionths >= horizon.millionths ==> slack_criticality(slack, horizon) == zero_of::<
            Fixed,
        >(),
{
    let s = slack.larger(zero_of()).millionths as int;
    let h = horizon.millionths as int;
    assert(s * WHOLE / h >= 0) by (nonlinear_arith)
        requires
            s >= 0,
            h > 0,
            WHOLE == 1_000_000,
    ;
    if s == 0 {
        assert(0int / h == 0) by (nonlinear_arith)
            requires
                h > 0,
        ;
    }
    if s >= h {
        assert(s * WHOLE / h >= WHOLE) by (nonlinear_arith)
            requires
                s >= h,
                h > 0,
                WHOLE == 1_000_000,
        ;
    }
}

/// A call with more slack is no more critical.
pub proof fn law_more_slack_is_less_critical(less: Fixed, more: Fixed, horizon: Fixed)
    requires
        horizon.millionths > 0,
        less.millionths <= more.millionths,
    ensures
        slack_criticality(more, horizon).millionths <= slack_criticality(less, horizon).millionths,
{
    let a = less.larger(zero_of()).millionths as int;
    let b = more.larger(zero_of()).millionths as int;
    let h = horizon.millionths as int;
    assert(0 <= a * WHOLE / h <= b * WHOLE / h) by (nonlinear_arith)
        requires
            0 <= a <= b,
            h > 0,
            WHOLE == 1_000_000,
    ;
}

/// A moving average of criticalities moves towards the sample and not past it.
pub proof fn law_average_moves_towards_sample(previous: Fixed, sample: Fixed)
    requires
        0 <= previous.millionths <= WHOLE,
        0 <= sample.millionths <= WHOLE,
    ensures
        previous.millionths <= sample.millionths ==> previous.millionths <= moved(
            previous,
            sample,
        ).millionths <= sample.millionths,
        previous.millionths >= sample.millionths ==> previous.millionths >= moved(
            previous,
            sample,
        ).millionths >= sample.millionths,
{
    let alpha = Fixed::ratio(DAG_CPM_EWMA_ALPHA_TENTHS as int, 10).millionths as int;
    let d = sample.millionths - previous.millionths;
    assert(0 <= alpha <= WHOLE);
    assert((d >= 0 ==> 0 <= alpha * d / 1_000_000 <= d) && (d <= 0 ==> d <= alpha * d / 1_000_000
        <= 0)) by (nonlinear_arith)
        requires
            0 <= alpha <= 1_000_000,
    ;
}

/// Whether every learned criticality lies between zero and one.
pub open spec fn criticalities_in_unit_range(
    nodes: Map<Seq<char>, DagCpmNodeState<Fixed>>,
) -> bool {
    forall|key: Seq<char>| #[trigger]
        nodes.contains_key(key) ==> 0 <= nodes[key].criticality_ewma.millionths <= WHOLE
}

/// Whatever samples are learned from, every learned criticality stays between zero and one.
pub proof fn law_learned_criticality_in_unit_range(
    nodes: Map<Seq<char>, DagCpmNodeState<Fixed>>,
    samples: Seq<DagCpmCallSample<Fixed>>,
    at: Timestamp,
)
    requires
        criticalities_in_unit_range(nodes),
    ensures
        criticalities_in_unit_range(samples_learned(nodes, samples, at)),
    decreases samples.len(),
{
    if samples.len() > 0 {
        law_learned_criticality_in_unit_range(nodes, samples.drop_last(), at);
        let sample = samples.last();
        let key = sample.structural_key@;
        let before = samples_learned(nodes, samples.drop_last(), at);
        let node = if before.contains_key(key) {
            before[key]
        } else {
            fresh_node()
        };
        if valid_sample(sample) {
            law_average_moves_towards_sample(node.criticality_ewma, sample.criticality);
        }
    }
}

/// A more critical call has no lower priority; one with the criticality one has the cap as its
/// priority, and one with the criticality zero has none.
pub proof fn law_criticality_orders_priorities(less: Fixed, more: Fixed, cap: int)
    requires
        0 <= less.millionths <= more.millionths <= WHOLE,
        0 <= cap <= i32::MAX,
    ensures
        projected_priority(less, 0, cap) <= projected_priority(more, 0, cap),
        more.millionths == WHOLE ==> projected_priority(more, 0, cap) == cap,
        less.millionths == 0 ==> projected_priority(less, 0, cap) == 0,
{
    let share = Fixed::ratio(cap, 1).millionths as int;
    assert(share == cap * WHOLE);
    let (a, b) = (less.millionths as int, more.millionths as int);
    assert(0 <= share * a / 1_000_000 <= share * b / 1_000_000 <= share) by (nonlinear_arith)
        requires
            0 <= a <= b <= 1_000_000,
            share >= 0,
    ;
    assert(b == 1_000_000 ==> share * b / 1_000_000 == share) by (nonlinear_arith);
    assert(a == 0 ==> share * a == 0) by (nonlinear_arith);
}

/// Criticality falls with slack on a straight line, from one without slack to zero at the horizon: up
/// to one step of rounding, the share of the horizon that the slack leaves.
pub proof fn law_criticality_falls_linearly(slack: Fixed, horizon: Fixed)
    requires
        0 <= slack.millionths <= horizon.millionths,
        horizon.millionths > 0,
    ensures
        WHOLE * (horizon.millionths - slack.millionths) <= slack_criticality(
            slack,
            horizon,
        ).millionths * horizon.millionths,
        slack_criticality(slack, horizon).millionths * horizon.millionths < WHOLE * (
        horizon.millionths - slack.millionths) + horizon.millionths,
{
    let (s, h) = (slack.millionths as int, horizon.millionths as int);
    let q = s * 1_000_000 / h;
    assert(0 <= q <= 1_000_000 && q * h <= s * 1_000_000 < q * h + h) by (nonlinear_arith)
        requires
            0 <= s <= h,
            h > 0,
            q == s * 1_000_000 / h,
    ;
    assert(slack.larger(zero_of()) == slack);
    assert(slack_criticality(slack, horizon).millionths == 1_000_000 - q);
    assert((1_000_000 - q) * h == 1_000_000 * h - q * h) by (nonlinear_arith);
}

/// Two slacks within the horizon that differ by more than a rounding step have different
/// criticalities, the larger slack the smaller one.
pub proof fn law_slacks_are_told_apart(less: Fixed, more: Fixed, horizon: Fixed)
    requires
        0 <= less.millionths <= more.millionths <= horizon.millionths,
        horizon.millionths <= (more.millionths - less.millionths) * WHOLE,
        horizon.millionths > 0,
    ensures
        slack_criticality(more, horizon).millionths < slack_criticality(less, horizon).millionths,
{
    law_criticality_falls_linearly(less, horizon);
    law_criticality_falls_linearly(more, horizon);
    let (a, b) = (
        slack_criticality(less, horizon).millionths as int,
        slack_criticality(more, horizon).millionths as int,
    );
    let h = horizon.millionths as int;
    assert(b < a) by (nonlinear_arith)
        requires
            h > 0,
            b * h < a * h,
    ;
}

/// The criticality of a call in a result is the share of its horizon that its slack leaves, up to one
/// step of rounding, and none once the slack exceeds the horizon. The horizon is the one given for
/// the call, held to its bounds.
pub proof fn law_calls_are_as_critical_as_their_slack(
    dag: CompletedRunDag<Fixed>,
    summary_horizon: Fixed,
    horizons: Seq<Fixed>,
    cpm: CompletedRunCpm<Fixed>,
    v: int,
)
    requires
        exact_result(dag, summary_horizon, horizons, cpm),
        0 <= v < dag.nodes@.len(),
    ensures
        ({
            let slack = cpm.nodes@[v].slack_ms.millionths as int;
            let horizon = cpm.nodes@[v].queue_horizon_ms.millionths as int;
            let criticality = cpm.nodes@[v].criticality.millionths as int;
            &&& horizon > 0
            &&& slack <= horizon ==> WHOLE * (horizon - slack) <= criticality * horizon < WHOLE * (
            horizon - slack) + horizon
            &&& slack >= horizon ==> criticality == 0
        }),
        held_horizon(Some(horizons[v]), cpm.nodes@[v].queue_horizon_ms),
{
    law_slack_is_never_negative(dag, summary_horizon, horizons, cpm, v);
    assert(cpm.nodes@[v].node_index == v);
    law_horizon_is_held(Some(horizons[v]));
    let slack = cpm.nodes@[v].slack_ms;
    let horizon = cpm.nodes@[v].queue_horizon_ms;
    law_criticality_in_unit_range(slack, horizon);
    if slack.millionths <= horizon.millionths {
        law_criticality_falls_linearly(slack, horizon);
    }
}

/// Whether `used` is the horizon `given` held to the bounds of one step of the priority scale and the
/// longest horizon; where none was given, the default one.
pub open spec fn held_horizon(given: Option<Fixed>, used: Fixed) -> bool {
    match given {
        Some(h) if i64::MIN < h.millionths < i64::MAX => {
            &&& h.millionths <= 1000 * WHOLE ==> used.millionths == 1000 * WHOLE
            &&& 1000 * WHOLE <= h.millionths <= 9000 * WHOLE ==> used == h
            &&& 9000 * WHOLE <= h.millionths ==> used.millionths
                == 9000 * WHOLE
        },
        _ => used.millionths == 3000 * WHOLE,
    }
}

/// A horizon within its bounds is used as it is, one beyond them is held to the nearer bound, and the
/// default stands in for one that is no number or was not observed.
pub proof fn law_horizon_is_held(observed: Option<Fixed>)
    ensures
        held_horizon(observed, horizon_for(observed)),
        observed matches Some(h) ==> held_horizon(observed, bounded_horizon(h)),
{
}

/// A moving average moves a fifth of the way to the sample, up to one step of rounding.
pub proof fn law_average_moves_a_fifth(previous: Fixed, sample: Fixed)
    requires
        -0x3fff_ffff_ffff_ffff <= previous.millionths <= 0x3fff_ffff_ffff_ffff,
        -0x3fff_ffff_ffff_ffff <= sample.millionths <= 0x3fff_ffff_ffff_ffff,
    ensures
        ({
            let way = sample.millionths - previous.millionths;
            let gone = moved(previous, sample).millionths - previous.millionths;
            5 * gone <= way < 5 * gone + 5
        }),
{
    let alpha = Fixed::ratio(DAG_CPM_EWMA_ALPHA_TENTHS as int, 10).millionths as int;
    let d = sample.millionths - previous.millionths;
    assert(alpha == 200_000);
    let gone = alpha * d / 1_000_000;
    assert(5 * gone <= d < 5 * gone + 5) by (nonlinear_arith)
        requires
            gone == alpha * d / 1_000_000,
            alpha == 200_000,
    ;
}

/// A sample that can be learned from changes the summary of its own node and no other. A node seen
/// for the first time is as it was sampled; after that each average moves a fifth of the way.
pub proof fn law_sample_changes_its_node(
    nodes: Map<Seq<char>, DagCpmNodeState<Fixed>>,
    sample: DagCpmCallSample<Fixed>,
    at: Timestamp,
    other: Seq<char>,
)
    requires
        0 <= sample.duration_ms.millionths < i64::MAX,
        i64::MIN < sample.slack_ms.millionths < i64::MAX,
        0 <= sample.criticality.millionths <= WHOLE,
        0 < sample.queue_horizon_ms.millionths < i64::MAX,
    ensures
        ({
            let after = samples_learned(nodes, seq![sample], at);
            let key = sample.structural_key@;
            let node = after[key];
            &&& after.contains_key(key)
            &&& node.last_updated_at == Some(at)
            &&& !nodes.contains_key(key) || nodes[key].observation_count == 0 ==> {
                &&& node.observation_count == 1
                &&& node.duration_ms_ewma == sample.duration_ms
                &&& node.slack_ms_ewma == sample.slack_ms
                &&& node.criticality_ewma == sample.criticality
                &&& node.queue_horizon_ms_ewma == sample.queue_horizon_ms
            }
            &&& nodes.contains_key(key) && nodes[key].observation_count > 0 ==> {
                let old = nodes[key];
                &&& node.observation_count >= old.observation_count
                &&& old.observation_count < u32::MAX ==> node.observation_count
                    == old.observation_count + 1
                &&& a_fifth_nearer(old.duration_ms_ewma, sample.duration_ms, node.duration_ms_ewma)
                &&& a_fifth_nearer(old.slack_ms_ewma, sample.slack_ms, node.slack_ms_ewma)
                &&& a_fifth_nearer(
                    old.criticality_ewma,
                    sample.criticality,
                    node.criticality_ewma,
                )
                &&& a_fifth_nearer(
                    old.queue_horizon_ms_ewma,
                    sample.queue_horizon_ms,
                    node.queue_horizon_ms_ewma,
                )
            }
            &&& other != key ==> (after.contains_key(other) <==> nodes.contains_key(other))
            &&& other != key && nodes.contains_key(other) ==> after[other] == nodes[other]
        }),
{
    let one = seq![sample];
    assert(one.drop_last() =~= Seq::<DagCpmCallSample<Fixed>>::empty());
    assert(samples_learned(nodes, one.drop_last(), at) == nodes);
    assert(one.last() == sample);
    if nodes.contains_key(sample.structural_key@) {
        let old = nodes[sample.structural_key@];
        lemma_a_fifth_nearer(old.duration_ms_ewma, sample.duration_ms);
        lemma_a_fifth_nearer(old.slack_ms_ewma, sample.slack_ms);
        lemma_a_fifth_nearer(old.criticality_ewma, sample.criticality);
        lemma_a_fifth_nearer(old.queue_horizon_ms_ewma, sample.queue_horizon_ms);
    }
}

/// Whether an average went from `before` a fifth of the way to `sample`, up to one step of rounding,
/// as long as neither is near the ends of the range.
pub open spec fn a_fifth_nearer(before: Fixed, sample: Fixed, after: Fixed) -> bool {
    (-0x3fff_ffff_ffff_ffff <= before.millionths <= 0x3fff_ffff_ffff_ffff && -0x3fff_ffff_ffff_ffff
        <= sample.millionths <= 0x3fff_ffff_ffff_ffff) ==> {
        let way = sample.millionths - before.millionths;
        let gone = after.millionths - before.millionths;
        5 * gone <= way < 5 * gone + 5
    }
}

proof fn lemma_a_fifth_nearer(before: Fixed, sample: Fixed)
    ensures
        a_fifth_nearer(before, sample, moved(before, sample)),
{
    if -0x3fff_ffff_ffff_ffff <= before.millionths <= 0x3fff_ffff_ffff_ffff && -0x3fff_ffff_ffff_ffff
        <= sample.millionths <= 0x3fff_ffff_ffff_ffff {
        law_average_moves_a_fifth(before, sample);
    }
}

/// A projected priority is the whole number nearest to the share of the cap that the criticality
/// gives; an adjustment is added to it as long as the sum stays between zero and the cap, and held to
/// the nearer of them else.
pub proof fn law_priority_is_the_nearest_share(criticality: Fixed, adjustment: int, cap: int)
    requires
        0 <= criticality.millionths <= WHOLE,
        0 <= cap <= i32::MAX,
    ensures
        ({
            let share = cap * criticality.millionths;
            let plain = projected_priority(criticality, 0, cap);
            let adjusted = projected_priority(criticality, adjustment, cap);
            &&& 0 <= plain <= cap
            &&& share - WHOLE / 2 <= plain * WHOLE <= share + WHOLE / 2
            &&& 0 <= plain + adjustment <= cap ==> adjusted == plain + adjustment
            &&& plain + adjustment < 0 ==> adjusted == 0
            &&& plain + adjustment > cap ==> adjusted == cap
        }),
{
    let c = criticality.millionths as int;
    let whole = Fixed::ratio(cap, 1).millionths as int;
    assert(whole == cap * 1_000_000);
    let share = cap * c;
    assert(whole * c / 1_000_000 == share && 0 <= share <= whole) by (nonlinear_arith)
        requires
            whole == cap * 1_000_000,
            share == cap * c,
            0 <= c <= 1_000_000,
            cap >= 0,
    ;
    assert(held_between(criticality, zero_of(), one_of()) == criticality);
}

/// What a result tells of a measured call stays within the range of numbers.
pub proof fn law_results_stay_in_range(
    dag: CompletedRunDag<Fixed>,
    summary_horizon: Fixed,
    horizons: Seq<Fixed>,
    cpm: CompletedRunCpm<Fixed>,
    v: int,
)
    requires
        exact_result(dag, summary_horizon, horizons, cpm),
        0 <= v < dag.nodes@.len(),
    ensures
        0 <= cpm.nodes@[v].slack_ms.millionths < i64::MAX,
        0 <= dag.nodes@[v].duration_ms.millionths < i64::MAX,
{
    let rank = choose|rank: spec_fn(int) -> nat| #[trigger] grows_along(rank, dag.edges@);
    lemma_forward(dag, summary_horizon, horizons, cpm, rank, v);
    lemma_backward(dag, summary_horizon, horizons, cpm, rank, v);
    lemma_end(dag, summary_horizon, horizons, cpm);
    law_slack_is_never_negative(dag, summary_horizon, horizons, cpm, v);
    assert(dag.nodes@[v].duration_ms.millionths >= 0);
}

} // verus!
