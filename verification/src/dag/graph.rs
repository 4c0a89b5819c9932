//! Completed-run graph construction.
use crate::fixed::Fixed;
use crate::model::{bucket_of, model_bucket};
use crate::records::{BackendTiming, CallKind, CallRecord, RunRecord};
use crate::request::{Message, ResponseToolCall};
use crate::scalar::{is_usable, usable, zero, zero_of, Scalar};
use crate::text::{copy_text, holds_text, join, joined, lemma_equal_parts, lemma_joined_injective, none_has, texts};
use crate::time::{nanos_between, whole_millis, Timestamp};
use vstd::prelude::*;

verus! {

/// Completed run graph used as the CPM learner input.
#[derive(Debug)]
pub struct CompletedRunDag<S: Scalar> {
    /// Run identifier the graph was built from.
    pub run_id: u128,
    /// Completed tool and LLM calls observed in the run.
    pub nodes: Vec<RunDagNode<S>>,
    /// Dependency edges between completed calls.
    pub edges: Vec<RunDagEdge>,
}

/// One completed tool or LLM call in a run-local DAG.
#[derive(Debug)]
pub struct RunDagNode<S: Scalar> {
    /// Run-local node index.
    pub index: usize,
    /// Position of the call in the run record.
    pub call_index: usize,
    /// Run-local call ordinal assigned by the telemetry drain, when available.
    pub run_call_index: Option<u32>,
    /// Runtime scope UUID for the call.
    pub scope_uuid: u128,
    /// Runtime parent scope UUID, if present.
    pub parent_uuid: Option<u128>,
    /// Tool or LLM call type.
    pub kind: CallKind,
    /// Runtime call name.
    pub name: String,
    /// Stable structural key used for learned DAG state lookup.
    pub structural_key: String,
    /// Normalized model bucket for pressure lookup.
    pub model_bucket: String,
    /// Observed start timestamp.
    pub started_at: Timestamp,
    /// Observed end timestamp.
    pub ended_at: Timestamp,
    /// Service duration used by CPM, in milliseconds.
    pub duration_ms: S,
    /// Whether this node is allowed to emit a backend priority hint.
    pub emits_priority: bool,
    /// Provider tool-call id carried by tool execution events.
    pub tool_call_id: Option<String>,
    /// Tool-call ids emitted by this LLM response.
    pub emitted_tool_call_ids: Vec<String>,
    /// Tool-call ids consumed as tool result messages by this LLM request.
    pub consumed_tool_call_ids: Vec<String>,
}

/// Run-local dependency edge.
#[derive(Debug, Clone, Copy, PartialEq, Eq, Hash, Structural)]
pub struct RunDagEdge {
    /// Predecessor node index.
    pub from: usize,
    /// Successor node index.
    pub to: usize,
    /// Why the edge was inferred.
    pub kind: RunDagEdgeKind,
}

/// Source of an inferred run-local dependency edge.
#[derive(Debug, Clone, Copy, PartialEq, Eq, Hash, Structural)]
pub enum RunDagEdgeKind {
    /// A represented parent call completed before this child call started.
    ParentScope,
    /// An LLM request consumed a tool result emitted by an earlier LLM response.
    LlmToolResult,
    /// An LLM response requested a tool call later executed by a tool node.
    LlmToolCall,
    /// A later LLM request consumed a tool result produced by a tool node.
    ToolResult,
}

/// The learned key for a call: the scope path, the kind of call and its name.
pub open spec fn key_text(kind: Seq<char>, function_path: Seq<Seq<char>>, name: Seq<char>) -> Seq<
    char,
> {
    let path = if function_path.len() == 0 {
        "root"@
    } else {
        joined(function_path, "/"@)
    };
    path + "/"@ + kind + ":"@ + name
}

/// How a kind of call is written in a structural key.
pub open spec fn kind_text(kind: CallKind) -> Seq<char> {
    match kind {
        CallKind::Llm => "llm"@,
        CallKind::Tool => "tool"@,
    }
}

/// The structural key of a call.
pub open spec fn call_key<S: Scalar>(call: CallRecord<S>) -> Seq<char> {
    key_text(kind_text(call.kind), texts(call.function_path@), call.name@)
}

/// The model that a call went to: the requested one, else the recorded one, else the call's name.
pub open spec fn call_model<S: Scalar>(call: CallRecord<S>) -> Seq<char> {
    match call.annotated_request {
        Some(request) if request.model is Some => request.model->0@,
        _ => match call.model_name {
            Some(model) => model@,
            None => call.name@,
        },
    }
}

/// Whole milliseconds from start to end, none when the end comes first.
pub open spec fn observed_duration<S: Scalar>(started_at: Timestamp, ended_at: Timestamp) -> S {
    let millis = whole_millis(nanos_between(started_at@, ended_at@));
    S::ratio(
        if millis > 0 {
            millis
        } else {
            0
        },
        1,
    )
}

/// The service time that the backend reported for a call, net of its queue wait.
pub open spec fn reported_service<S: Scalar>(call: CallRecord<S>) -> Option<S> {
    match (call.kind, call.backend_timing) {
        (CallKind::Llm, Some(timing)) => match timing.total_time_ms {
            Some(total) => Some(
                total.minus(
                    match timing.prefill_wait_time_ms {
                        Some(wait) => wait,
                        None => zero_of(),
                    },
                ),
            ),
            None => None,
        },
        _ => None,
    }
}

/// The duration of a call for the critical-path method: the reported service time when there is a
/// usable one, else the observed duration.
pub open spec fn service_duration<S: Scalar>(call: CallRecord<S>, ended_at: Timestamp) -> S {
    match reported_service(call) {
        Some(service) if usable(service) => service,
        _ => observed_duration(call.started_at, ended_at),
    }
}

/// The identifiers of the tool calls that a call's response asks for.
pub open spec fn emitted_ids<S: Scalar>(call: CallRecord<S>) -> Seq<Seq<char>> {
    match call.annotated_response {
        Some(response) => match response.tool_calls {
            Some(tool_calls) => tool_calls@.map_values(|t: ResponseToolCall| t.id@),
            None => Seq::empty(),
        },
        None => Seq::empty(),
    }
}

/// The identifiers of the tool calls that messages answer.
pub open spec fn answered_ids(messages: Seq<Message>) -> Seq<Seq<char>>
    decreases messages.len(),
{
    if messages.len() == 0 {
        Seq::empty()
    } else {
        let earlier = answered_ids(messages.drop_last());
        match messages.last() {
            Message::Tool { tool_call_id, .. } => earlier.push(tool_call_id@),
            _ => earlier,
        }
    }
}

/// The identifiers of the tool calls that a call's request answers.
pub open spec fn consumed_ids<S: Scalar>(call: CallRecord<S>) -> Seq<Seq<char>> {
    match call.annotated_request {
        Some(request) => answered_ids(request.messages@),
        None => Seq::empty(),
    }
}

/// Whether `node` stands for the completed call `call`, the one at `call_index` in its run.
pub open spec fn stands_for<S: Scalar>(
    node: RunDagNode<S>,
    call: CallRecord<S>,
    call_index: int,
) -> bool {
    &&& call.ended_at == Some(node.ended_at)
    &&& node.call_index == call_index
    &&& node.run_call_index == call.run_call_index
    &&& node.scope_uuid == call.scope_uuid
    &&& node.parent_uuid == call.parent_uuid
    &&& node.kind == call.kind
    &&& node.name == call.name
    &&& node.structural_key@ == call_key(call)
    &&& node.model_bucket@ == bucket_of(call_model(call))
    &&& node.started_at == call.started_at
    &&& node.duration_ms == service_duration(call, node.ended_at)
    &&& node.emits_priority == (call.kind == CallKind::Llm)
    &&& node.tool_call_id == call.tool_call_id
    &&& texts(node.emitted_tool_call_ids@) == emitted_ids(call)
    &&& texts(node.consumed_tool_call_ids@) == consumed_ids(call)
}

/// Whether the first of two distinct calls comes first in a graph: by start, then by end, then by
/// position in the run.
pub open spec fn comes_before(
    start: int,
    end: int,
    position: int,
    other_start: int,
    other_end: int,
    other_position: int,
) -> bool {
    start < other_start || (start == other_start && (end < other_end || (end == other_end
        && position < other_position)))
}

/// Whether the call at `a` comes before the one at `b` in a graph.
pub open spec fn call_before<S: Scalar>(calls: Seq<CallRecord<S>>, a: int, b: int) -> bool {
    comes_before(
        calls[a].started_at@,
        calls[a].ended_at->0@,
        a,
        calls[b].started_at@,
        calls[b].ended_at->0@,
        b,
    )
}

/// Whether `order` lists the positions of the completed calls among `calls`, each once, in graph
/// order.
pub open spec fn completed_order<S: Scalar>(calls: Seq<CallRecord<S>>, order: Seq<int>) -> bool {
    &&& forall|i: int|
        0 <= i < order.len() ==> 0 <= #[trigger] order[i] < calls.len()
            && calls[order[i]].ended_at is Some
    &&& forall|i: int, j: int|
        0 <= i < j < order.len() ==> call_before(calls, #[trigger] order[i], #[trigger] order[j])
    &&& forall|c: int|
        0 <= c < calls.len() && (#[trigger] calls[c]).ended_at is Some ==> order.contains(c)
}

/// Whether `nodes` are the nodes of the graph of a run with the calls `calls`: one for each
/// completed call, in graph order, numbered from zero.
pub open spec fn nodes_of<S: Scalar>(calls: Seq<CallRecord<S>>, nodes: Seq<RunDagNode<S>>) -> bool {
    &&& completed_order(calls, nodes.map_values(|n: RunDagNode<S>| n.call_index as int))
    &&& forall|i: int|
        0 <= i < nodes.len() ==> (#[trigger] nodes[i]).index == i && stands_for(
            nodes[i],
            calls[nodes[i].call_index as int],
            nodes[i].call_index as int,
        )
}

fn structural_key_parts(kind: &str, function_path: &[String], name: &str) -> (r: String)
    ensures
        r@ == key_text(kind@, texts(function_path@), name@),
{
    let mut out = if function_path.len() == 0 {
        "root".to_owned()
    } else {
        join(function_path, "/")
    };
    out.append("/");
    out.append(kind);
    out.append(":");
    out.append(name);
    out
}

fn structural_key<S: Scalar>(call: &CallRecord<S>) -> (r: String)
    ensures
        r@ == call_key(*call),
{
    let kind = match call.kind {
        CallKind::Llm => "llm",
        CallKind::Tool => "tool",
    };
    structural_key_parts(kind, call.function_path.as_slice(), call.name.as_str())
}

/// Build the learned structural key for a hot-path LLM request.
pub fn llm_structural_key(function_path: &[String], name: &str) -> (r: String)
    ensures
        r@ == key_text("llm"@, texts(function_path@), name@),
{
    structural_key_parts("llm", function_path, name)
}

/// Names the model that a call went to.
pub fn call_model_name<S: Scalar>(call: &CallRecord<S>) -> (r: &str)
    ensures
        r@ == call_model(*call),
{
    if let Some(request) = &call.annotated_request {
        if let Some(model) = &request.model {
            return model.as_str();
        }
    }
    match &call.model_name {
        Some(model) => model.as_str(),
        None => call.name.as_str(),
    }
}

/// Normalizes the name of the model that a call went to.
pub fn call_model_bucket<S: Scalar>(call: &CallRecord<S>) -> (r: String)
    ensures
        r@ == bucket_of(call_model(*call)),
{
    model_bucket(call_model_name(call))
}

fn observed_duration_ms<S: Scalar>(started_at: Timestamp, ended_at: Timestamp) -> (r: S)
    ensures
        r == observed_duration::<S>(started_at, ended_at),
{
    let millis: i64 = started_at.millis_until(ended_at);
    S::of_ratio(
        if millis > 0 {
            millis
        } else {
            0
        },
        1,
    )
}

fn cpm_duration_ms<S: Scalar>(call: &CallRecord<S>, ended_at: Timestamp) -> (r: S)
    ensures
        r == service_duration(*call, ended_at),
{
    if call.kind == CallKind::Llm {
        if let Some(timing) = &call.backend_timing {
            if let Some(total_time_ms) = timing.total_time_ms {
                let wait_ms = match timing.prefill_wait_time_ms {
                    Some(wait_ms) => wait_ms,
                    None => zero::<S>(),
                };
                let service_ms = total_time_ms.sub(wait_ms);
                if is_usable(service_ms) {
                    return service_ms;
                }
            }
        }
    }
    observed_duration_ms(call.started_at, ended_at)
}

fn emitted_tool_call_ids<S: Scalar>(call: &CallRecord<S>) -> (r: Vec<String>)
    ensures
        texts(r@) == emitted_ids(*call),
{
    let mut ids: Vec<String> = Vec::new();
    if let Some(response) = &call.annotated_response {
        if let Some(tool_calls) = &response.tool_calls {
            let mut i: usize = 0;
            while i < tool_calls.len()
                invariant
                    i <= tool_calls.len(),
                    texts(ids@) == tool_calls@.map_values(|t: ResponseToolCall| t.id@).take(
                        i as int,
                    ),
                decreases tool_calls.len() - i,
            {
                let ghost before = ids@;
                ids.push(tool_calls[i].id.clone());
                proof {
                    assert(texts(ids@) =~= texts(before).push(tool_calls@[i as int].id@));
                }
                i += 1;
            }
        }
    }
    proof {
        assert(texts(ids@) =~= emitted_ids(*call));
    }
    ids
}

fn consumed_tool_call_ids<S: Scalar>(call: &CallRecord<S>) -> (r: Vec<String>)
    ensures
        texts(r@) == consumed_ids(*call),
{
    let mut ids: Vec<String> = Vec::new();
    if let Some(request) = &call.annotated_request {
        let mut i: usize = 0;
        while i < request.messages.len()
            invariant
                i <= request.messages.len(),
                texts(ids@) == answered_ids(request.messages@.take(i as int)),
            decreases request.messages.len() - i,
        {
            let ghost before = ids@;
            if let Message::Tool { tool_call_id, .. } = &request.messages[i] {
                ids.push(tool_call_id.clone());
                proof {
                    assert(texts(ids@) =~= texts(before).push(tool_call_id@));
                }
            }
            proof {
                let seen = request.messages@.take(i + 1);
                assert(seen.drop_last() =~= request.messages@.take(i as int));
            }
            i += 1;
        }
        proof {
            assert(request.messages@.take(request.messages.len() as int) =~= request.messages@);
        }
    }
    proof {
        assert(texts(ids@) =~= consumed_ids(*call));
    }
    ids
}

/// Tests whether the call at `a` comes before the one at `b`; both are completed.
fn is_call_before<S: Scalar>(calls: &Vec<CallRecord<S>>, a: usize, b: usize) -> (r: bool)
    requires
        a < calls.len(),
        b < calls.len(),
        calls@[a as int].ended_at is Some,
        calls@[b as int].ended_at is Some,
    ensures
        r == call_before(calls@, a as int, b as int),
{
    let left = &calls[a];
    let right = &calls[b];
    if !left.started_at.at_or_before(right.started_at) {
        return false;
    }
    if !right.started_at.at_or_before(left.started_at) {
        return true;
    }
    match (left.ended_at, right.ended_at) {
        (Some(left_ended_at), Some(right_ended_at)) => {
            if !left_ended_at.at_or_before(right_ended_at) {
                return false;
            }
            if !right_ended_at.at_or_before(left_ended_at) {
                return true;
            }
            a < b
        },
        _ => a < b,
    }
}

/// Positions as mathematical integers.
pub open spec fn positions(order: Seq<usize>) -> Seq<int> {
    order.map_values(|c: usize| c as int)
}

/// Lists the completed calls in graph order.
fn order_completed_calls<S: Scalar>(calls: &Vec<CallRecord<S>>) -> (order: Vec<usize>)
    ensures
        completed_order(calls@, positions(order@)),
{
    let mut order: Vec<usize> = Vec::new();
    let mut c: usize = 0;
    while c < calls.len()
        invariant
            c <= calls.len(),
            forall|i: int| 0 <= i < order.len() ==> (#[trigger] order@[i]) < c,
            completed_order(calls@.take(c as int), positions(order@)),
        decreases calls.len() - c,
    {
        let ghost before = order@;
        if calls[c].ended_at.is_some() {
            proof {
                assert forall|i: int| 0 <= i < before.len() implies (#[trigger] before[i]) < c
                    && calls@[before[i] as int].ended_at is Some by {
                    assert(calls@.take(c as int)[positions(before)[i]].ended_at is Some);
                }
            }
            let mut at: usize = 0;
            while at < order.len() && is_call_before(calls, order[at], c)
                invariant
                    c < calls.len(),
                    calls@[c as int].ended_at is Some,
                    at <= order.len(),
                    order@ == before,
                    forall|i: int|
                        0 <= i < before.len() ==> (#[trigger] before[i]) < c
                            && calls@[before[i] as int].ended_at is Some,
                    forall|i: int|
                        0 <= i < at ==> call_before(
                            calls@,
                            #[trigger] positions(before)[i],
                            c as int,
                        ),
                decreases order.len() - at,
            {
                at += 1;
            }
            order.insert(at, c);
            proof {
                lemma_insert_completed(calls@, before, c, at as int, order@);
            }
        } else {
            proof {
                lemma_skip_open(calls@, before, c);
            }
        }
        c += 1;
    }
    proof {
        assert(calls@.take(calls.len() as int) =~= calls@);
    }
    order
}

/// A call that is not completed leaves the order as it is.
proof fn lemma_skip_open<S: Scalar>(calls: Seq<CallRecord<S>>, order: Seq<usize>, c: usize)
    requires
        c < calls.len(),
        calls[c as int].ended_at is None,
        completed_order(calls.take(c as int), positions(order)),
    ensures
        completed_order(calls.take(c + 1), positions(order)),
{
    let old_calls = calls.take(c as int);
    let new_calls = calls.take(c + 1);
    assert forall|i: int| 0 <= i < order.len() implies {
        &&& 0 <= #[trigger] positions(order)[i] < new_calls.len()
        &&& new_calls[positions(order)[i]] == old_calls[positions(order)[i]]
    } by {
        assert(0 <= positions(order)[i] < old_calls.len());
    }
    assert forall|k: int| 0 <= k < new_calls.len() && (#[trigger] new_calls[k]).ended_at is Some
        implies positions(order).contains(k) by {
        assert(old_calls[k] == new_calls[k]);
    }
}

/// A completed call put where it belongs keeps the order complete.
proof fn lemma_insert_completed<S: Scalar>(
    calls: Seq<CallRecord<S>>,
    before: Seq<usize>,
    c: usize,
    at: int,
    after: Seq<usize>,
)
    requires
        c < calls.len(),
        calls[c as int].ended_at is Some,
        0 <= at <= before.len(),
        after == before.insert(at, c),
        forall|i: int| 0 <= i < before.len() ==> (#[trigger] before[i]) < c,
        completed_order(calls.take(c as int), positions(before)),
        forall|i: int|
            0 <= i < at ==> call_before(calls, #[trigger] positions(before)[i], c as int),
        at < before.len() ==> !call_before(calls, before[at] as int, c as int),
    ensures
        completed_order(calls.take(c + 1), positions(after)),
        forall|i: int| 0 <= i < after.len() ==> (#[trigger] after[i]) < c + 1,
{
    let old_calls = calls.take(c as int);
    let new_calls = calls.take(c + 1);
    let p = positions(before);
    let q = positions(after);
    assert(q =~= p.insert(at, c as int));
    assert forall|i: int| 0 <= i < p.len() implies {
        &&& 0 <= #[trigger] p[i] < c
        &&& new_calls[p[i]] == old_calls[p[i]]
        &&& old_calls[p[i]] == calls[p[i]]
    } by {
        assert(before[i] < c);
    }
    assert forall|i: int| 0 <= i < q.len() implies 0 <= #[trigger] q[i] < new_calls.len()
        && new_calls[q[i]].ended_at is Some by {
        if i < at {
            assert(q[i] == p[i]);
        } else if i > at {
            assert(q[i] == p[i - 1]);
        }
    }
    assert forall|i: int, j: int| 0 <= i < j < q.len() implies call_before(
        new_calls,
        #[trigger] q[i],
        #[trigger] q[j],
    ) by {
        if j < at {
            assert(q[i] == p[i] && q[j] == p[j]);
            assert(call_before(old_calls, p[i], p[j]));
        } else if j == at {
            assert(q[i] == p[i]);
            assert(call_before(calls, p[i], c as int));
        } else {
            assert(q[j] == p[j - 1]);
            if i < at {
                assert(q[i] == p[i]);
                assert(call_before(old_calls, p[i], p[j - 1]));
            } else if i > at {
                assert(q[i] == p[i - 1]);
                assert(call_before(old_calls, p[i - 1], p[j - 1]));
            } else {
                assert(p[at] == before[at] as int);
                if at < j - 1 {
                    assert(call_before(old_calls, p[at], p[j - 1]));
                }
                assert(p[j - 1] < c);
                assert(p[at] < c);
            }
        }
    }
    assert forall|k: int| 0 <= k < new_calls.len() && (#[trigger] new_calls[k]).ended_at is Some
        implies q.contains(k) by {
        if k == c {
            assert(q[at] == k);
        } else {
            assert(old_calls[k] == new_calls[k]);
            let i = choose|i: int| 0 <= i < p.len() && p[i] == k;
            assert(q[if i < at {
                i
            } else {
                i + 1
            }] == k);
        }
    }
    assert forall|i: int| 0 <= i < after.len() implies (#[trigger] after[i]) < c + 1 by {
        if i < at {
            assert(after[i] == before[i]);
        } else if i > at {
            assert(after[i] == before[i - 1]);
        }
    }
}

fn run_dag_node<S: Scalar>(
    call: &CallRecord<S>,
    index: usize,
    call_index: usize,
    ended_at: Timestamp,
) -> (node: RunDagNode<S>)
    requires
        call.ended_at == Some(ended_at),
    ensures
        node.index == index,
        stands_for(node, *call, call_index as int),
{
    RunDagNode {
        index,
        call_index,
        run_call_index: call.run_call_index,
        scope_uuid: call.scope_uuid,
        parent_uuid: call.parent_uuid,
        kind: call.kind,
        name: call.name.clone(),
        structural_key: structural_key(call),
        model_bucket: call_model_bucket(call),
        started_at: call.started_at,
        ended_at,
        duration_ms: cpm_duration_ms(call, ended_at),
        emits_priority: call.kind == CallKind::Llm,
        tool_call_id: copy_text(&call.tool_call_id),
        emitted_tool_call_ids: emitted_tool_call_ids(call),
        consumed_tool_call_ids: consumed_tool_call_ids(call),
    }
}

/// Makes the nodes of a run's graph.
fn run_dag_nodes<S: Scalar>(calls: &Vec<CallRecord<S>>) -> (nodes: Vec<RunDagNode<S>>)
    ensures
        nodes_of(calls@, nodes@),
{
    let order = order_completed_calls(calls);
    let mut nodes: Vec<RunDagNode<S>> = Vec::new();
    let mut i: usize = 0;
    while i < order.len()
        invariant
            i == nodes.len(),
            i <= order.len(),
            completed_order(calls@, positions(order@)),
            forall|k: int|
                0 <= k < i ==> (#[trigger] nodes@[k]).index == k && nodes@[k].call_index
                    == order@[k] && stands_for(
                    nodes@[k],
                    calls@[order@[k] as int],
                    order@[k] as int,
                ),
        decreases order.len() - i,
    {
        let call_index: usize = order[i];
        proof {
            assert(positions(order@)[i as int] == call_index as int);
        }
        let call = &calls[call_index];
        if let Some(ended_at) = call.ended_at {
            nodes.push(run_dag_node(call, i, call_index, ended_at));
        }
        i += 1;
    }
    proof {
        assert(nodes@.map_values(|n: RunDagNode<S>| n.call_index as int) =~= positions(order@));
    }
    nodes
}

/// Whether the node at `i` is the last one with the scope `uuid`.
pub open spec fn scope_owner<S: Scalar>(nodes: Seq<RunDagNode<S>>, uuid: u128, i: int) -> bool {
    &&& 0 <= i < nodes.len()
    &&& nodes[i].scope_uuid == uuid
    &&& forall|j: int| i < j < nodes.len() ==> (#[trigger] nodes[j]).scope_uuid != uuid
}

/// Whether a node ran the tool call `id`.
pub open spec fn runs_tool<S: Scalar>(node: RunDagNode<S>, id: Seq<char>) -> bool {
    node.tool_call_id is Some && node.tool_call_id->0@ == id
}

/// Whether the node at `i` is the last one that ran the tool call `id`.
pub open spec fn tool_runner<S: Scalar>(nodes: Seq<RunDagNode<S>>, id: Seq<char>, i: int) -> bool {
    &&& 0 <= i < nodes.len()
    &&& runs_tool(nodes[i], id)
    &&& forall|j: int| i < j < nodes.len() ==> !runs_tool(#[trigger] nodes[j], id)
}

/// Whether a node is an LLM call whose response asks for the tool call `id`.
pub open spec fn emits_tool<S: Scalar>(node: RunDagNode<S>, id: Seq<char>) -> bool {
    node.kind == CallKind::Llm && texts(node.emitted_tool_call_ids@).contains(id)
}

/// Whether the node at `i` is the last LLM call whose response asks for the tool call `id`.
pub open spec fn tool_emitter<S: Scalar>(
    nodes: Seq<RunDagNode<S>>,
    id: Seq<char>,
    i: int,
) -> bool {
    &&& 0 <= i < nodes.len()
    &&& emits_tool(nodes[i], id)
    &&& forall|j: int| i < j < nodes.len() ==> !emits_tool(#[trigger] nodes[j], id)
}

/// Whether an edge joins two distinct nodes, the first of which ended before the second began.
pub open spec fn in_time<S: Scalar>(nodes: Seq<RunDagNode<S>>, e: RunDagEdge) -> bool {
    &&& e.from < nodes.len()
    &&& e.to < nodes.len()
    &&& e.from != e.to
    &&& nodes[e.from as int].ended_at@ <= nodes[e.to as int].started_at@
}

/// Whether an edge leads from a represented parent call to its child.
pub open spec fn parent_link<S: Scalar>(nodes: Seq<RunDagNode<S>>, e: RunDagEdge) -> bool {
    &&& in_time(nodes, e)
    &&& nodes[e.to as int].parent_uuid is Some
    &&& scope_owner(nodes, nodes[e.to as int].parent_uuid->0, e.from as int)
}

/// Whether an edge leads from a response to the run of one of the first `k` tool calls it asks for.
pub open spec fn call_link<S: Scalar>(nodes: Seq<RunDagNode<S>>, e: RunDagEdge, k: int) -> bool {
    &&& in_time(nodes, e)
    &&& exists|i: int|
        0 <= i < k && tool_runner(
            nodes,
            (#[trigger] nodes[e.from as int].emitted_tool_call_ids@[i])@,
            e.to as int,
        )
}

/// Whether an edge leads from the response that asked for one of the first `k` tool calls whose
/// results an LLM request carries to that request.
pub open spec fn answer_link<S: Scalar>(nodes: Seq<RunDagNode<S>>, e: RunDagEdge, k: int) -> bool {
    &&& in_time(nodes, e)
    &&& nodes[e.to as int].kind == CallKind::Llm
    &&& exists|i: int|
        0 <= i < k && tool_emitter(
            nodes,
            (#[trigger] nodes[e.to as int].consumed_tool_call_ids@[i])@,
            e.from as int,
        )
}

/// Whether an edge leads from the run of one of the first `k` tool calls whose results a request
/// carries to that request.
pub open spec fn result_link<S: Scalar>(nodes: Seq<RunDagNode<S>>, e: RunDagEdge, k: int) -> bool {
    &&& in_time(nodes, e)
    &&& exists|i: int|
        0 <= i < k && tool_runner(
            nodes,
            (#[trigger] nodes[e.to as int].consumed_tool_call_ids@[i])@,
            e.from as int,
        )
}

/// Whether the nodes call for an edge.
///
/// Where several nodes carry the same scope or tool-call identifier, the last one counts.
pub open spec fn depends<S: Scalar>(nodes: Seq<RunDagNode<S>>, e: RunDagEdge) -> bool {
    match e.kind {
        RunDagEdgeKind::ParentScope => parent_link(nodes, e),
        RunDagEdgeKind::LlmToolCall => call_link(
            nodes,
            e,
            nodes[e.from as int].emitted_tool_call_ids@.len() as int,
        ),
        RunDagEdgeKind::LlmToolResult => answer_link(
            nodes,
            e,
            nodes[e.to as int].consumed_tool_call_ids@.len() as int,
        ),
        RunDagEdgeKind::ToolResult => result_link(
            nodes,
            e,
            nodes[e.to as int].consumed_tool_call_ids@.len() as int,
        ),
    }
}

/// The position of a kind among the kinds of edges.
pub open spec fn kind_rank(kind: RunDagEdgeKind) -> int {
    match kind {
        RunDagEdgeKind::ParentScope => 0,
        RunDagEdgeKind::LlmToolResult => 1,
        RunDagEdgeKind::LlmToolCall => 2,
        RunDagEdgeKind::ToolResult => 3,
    }
}

/// Whether the first of two edges comes first: by predecessor, then by successor, then by kind.
pub open spec fn edge_before(a: RunDagEdge, b: RunDagEdge) -> bool {
    a.from < b.from || (a.from == b.from && (a.to < b.to || (a.to == b.to && kind_rank(a.kind)
        < kind_rank(b.kind))))
}

/// Whether edges are in order, no edge twice.
pub open spec fn edges_sorted(edges: Seq<RunDagEdge>) -> bool {
    forall|i: int, j: int|
        0 <= i < j < edges.len() ==> edge_before(#[trigger] edges[i], #[trigger] edges[j])
}

/// Whether `edges` are the edges of the graph with the given nodes: exactly those the nodes call
/// for, in order.
pub open spec fn edges_of<S: Scalar>(
    nodes: Seq<RunDagNode<S>>,
    edges: Seq<RunDagEdge>,
) -> bool {
    &&& edges_sorted(edges)
    &&& forall|e: RunDagEdge| #[trigger] edges.contains(e) <==> depends(nodes, e)
}

fn kind_position(kind: RunDagEdgeKind) -> (r: u8)
    ensures
        r == kind_rank(kind),
{
    match kind {
        RunDagEdgeKind::ParentScope => 0,
        RunDagEdgeKind::LlmToolResult => 1,
        RunDagEdgeKind::LlmToolCall => 2,
        RunDagEdgeKind::ToolResult => 3,
    }
}

fn is_edge_before(a: RunDagEdge, b: RunDagEdge) -> (r: bool)
    ensures
        r == edge_before(a, b),
{
    a.from < b.from || (a.from == b.from && (a.to < b.to || (a.to == b.to && kind_position(a.kind)
        < kind_position(b.kind))))
}

/// Puts an edge between two distinct nodes where it belongs, unless it is there already.
fn push_edge(edges: &mut Vec<RunDagEdge>, from: usize, to: usize, kind: RunDagEdgeKind)
    requires
        edges_sorted(old(edges)@),
    ensures
        edges_sorted(final(edges)@),
        forall|e: RunDagEdge| #[trigger]
            final(edges)@.contains(e) <==> old(edges)@.contains(e) || (from != to && e == (
            RunDagEdge { from, to, kind })),
{
    if from == to {
        return;
    }
    let edge = RunDagEdge { from, to, kind };
    let mut at: usize = 0;
    while at < edges.len() && is_edge_before(edges[at], edge)
        invariant
            at <= edges.len(),
            edges@ == old(edges)@,
            forall|i: int| 0 <= i < at ==> edge_before(#[trigger] edges@[i], edge),
        decreases edges.len() - at,
    {
        at += 1;
    }
    if at < edges.len() && edges[at] == edge {
        proof {
            assert(edges@[at as int] == edge);
        }
        return;
    }
    let ghost before = edges@;
    edges.insert(at, edge);
    proof {
        let after = edges@;
        assert(after == before.insert(at as int, edge));
        assert forall|i: int, j: int| 0 <= i < j < after.len() implies edge_before(
            #[trigger] after[i],
            #[trigger] after[j],
        ) by {
            let low = if i < at {
                i
            } else {
                i - 1
            };
            let high = if j < at {
                j
            } else {
                j - 1
            };
            if i != at && j != at {
                assert(after[i] == before[low] && after[j] == before[high]);
            } else if i == at {
                assert(after[j] == before[high]);
                if high > at {
                    assert(edge_before(before[at as int], before[high]));
                }
            } else {
                assert(after[i] == before[low]);
            }
        }
        assert forall|e: RunDagEdge| #[trigger] after.contains(e) <==> before.contains(e) || e
            == edge by {
            if before.contains(e) {
                let i = choose|i: int| 0 <= i < before.len() && before[i] == e;
                assert(after[if i < at {
                    i
                } else {
                    i + 1
                }] == e);
            }
            if e == edge {
                assert(after[at as int] == e);
            }
            if after.contains(e) && e != edge {
                let i = choose|i: int| 0 <= i < after.len() && after[i] == e;
                assert(before[if i < at {
                    i
                } else {
                    i - 1
                }] == e);
            }
        }
    }
}

/// Finds the last node with a scope.
fn find_scope<S: Scalar>(nodes: &Vec<RunDagNode<S>>, uuid: u128) -> (r: Option<usize>)
    ensures
        match r {
            Some(i) => scope_owner(nodes@, uuid, i as int),
            None => forall|i: int| !scope_owner(nodes@, uuid, i),
        },
{
    let mut i: usize = nodes.len();
    while i > 0
        invariant
            i <= nodes.len(),
            forall|j: int| i <= j < nodes.len() ==> (#[trigger] nodes@[j]).scope_uuid != uuid,
        decreases i,
    {
        i -= 1;
        if nodes[i].scope_uuid == uuid {
            return Some(i);
        }
    }
    None
}

/// Finds the last node that ran a tool call.
fn find_tool<S: Scalar>(nodes: &Vec<RunDagNode<S>>, id: &String) -> (r: Option<usize>)
    ensures
        match r {
            Some(i) => tool_runner(nodes@, id@, i as int),
            None => forall|i: int| !tool_runner(nodes@, id@, i),
        },
{
    let mut i: usize = nodes.len();
    while i > 0
        invariant
            i <= nodes.len(),
            forall|j: int| i <= j < nodes.len() ==> !runs_tool(#[trigger] nodes@[j], id@),
        decreases i,
    {
        i -= 1;
        if let Some(tool_call_id) = &nodes[i].tool_call_id {
            if *tool_call_id == *id {
                return Some(i);
            }
        }
    }
    None
}

/// Finds the last LLM call whose response asks for a tool call.
fn find_emitter<S: Scalar>(nodes: &Vec<RunDagNode<S>>, id: &String) -> (r: Option<usize>)
    ensures
        match r {
            Some(i) => tool_emitter(nodes@, id@, i as int),
            None => forall|i: int| !tool_emitter(nodes@, id@, i),
        },
{
    let mut i: usize = nodes.len();
    while i > 0
        invariant
            i <= nodes.len(),
            forall|j: int| i <= j < nodes.len() ==> !emits_tool(#[trigger] nodes@[j], id@),
        decreases i,
    {
        i -= 1;
        if nodes[i].kind == CallKind::Llm && holds_text(
            &nodes[i].emitted_tool_call_ids,
            id.as_str(),
        ) {
            return Some(i);
        }
    }
    None
}

fn add_parent_scope_edges<S: Scalar>(nodes: &Vec<RunDagNode<S>>, edges: &mut Vec<RunDagEdge>)
    requires
        edges_sorted(old(edges)@),
    ensures
        edges_sorted(final(edges)@),
        forall|e: RunDagEdge| #[trigger]
            final(edges)@.contains(e) <==> old(edges)@.contains(e) || (e.kind
                == RunDagEdgeKind::ParentScope && depends(nodes@, e)),
{
    let mut n: usize = 0;
    while n < nodes.len()
        invariant
            n <= nodes.len(),
            edges_sorted(edges@),
            forall|e: RunDagEdge| #[trigger]
                edges@.contains(e) <==> old(edges)@.contains(e) || (e.kind
                    == RunDagEdgeKind::ParentScope && e.to < n && parent_link(nodes@, e)),
        decreases nodes.len() - n,
    {
        if let Some(parent_uuid) = nodes[n].parent_uuid {
            if let Some(parent) = find_scope(nodes, parent_uuid) {
                if parent != n && nodes[parent].ended_at.at_or_before(nodes[n].started_at) {
                    push_edge(edges, parent, n, RunDagEdgeKind::ParentScope);
                }
            }
        }
        n += 1;
    }
}

/// Adds the edges from a node to the runs of the tool calls that its response asks for.
fn add_emitted_edges<S: Scalar>(nodes: &Vec<RunDagNode<S>>, n: usize, edges: &mut Vec<RunDagEdge>)
    requires
        n < nodes.len(),
        edges_sorted(old(edges)@),
    ensures
        edges_sorted(final(edges)@),
        forall|e: RunDagEdge| #[trigger]
            final(edges)@.contains(e) <==> old(edges)@.contains(e) || (e.kind
                == RunDagEdgeKind::LlmToolCall && e.from == n && depends(nodes@, e)),
{
    let mut k: usize = 0;
    while k < nodes[n].emitted_tool_call_ids.len()
        invariant
            n < nodes.len(),
            k <= nodes@[n as int].emitted_tool_call_ids@.len(),
            edges_sorted(edges@),
            forall|e: RunDagEdge| #[trigger]
                edges@.contains(e) <==> old(edges)@.contains(e) || (e.kind
                    == RunDagEdgeKind::LlmToolCall && e.from == n && call_link(
                    nodes@,
                    e,
                    k as int,
                )),
        decreases nodes@[n as int].emitted_tool_call_ids@.len() - k,
    {
        let ghost before = edges@;
        let id = &nodes[n].emitted_tool_call_ids[k];
        if let Some(tool) = find_tool(nodes, id) {
            if nodes[n].ended_at.at_or_before(nodes[tool].started_at) {
                push_edge(edges, n, tool, RunDagEdgeKind::LlmToolCall);
            }
        }
        proof {
            assert forall|e: RunDagEdge| #[trigger] edges@.contains(e) <==> old(edges)@.contains(e)
                || (e.kind == RunDagEdgeKind::LlmToolCall && e.from == n && call_link(
                nodes@,
                e,
                k + 1,
            )) by {
                assert(before.contains(e) <==> old(edges)@.contains(e) || (e.kind
                    == RunDagEdgeKind::LlmToolCall && e.from == n && call_link(
                    nodes@,
                    e,
                    k as int,
                )));
                lemma_call_link_step(nodes@, e, n as int, k as int);
            }
        }
        k += 1;
    }
}

proof fn lemma_call_link_step<S: Scalar>(
    nodes: Seq<RunDagNode<S>>,
    e: RunDagEdge,
    n: int,
    k: int,
)
    requires
        0 <= n < nodes.len(),
        0 <= k < nodes[n].emitted_tool_call_ids@.len(),
    ensures
        e.from == n ==> (call_link(nodes, e, k + 1) <==> call_link(nodes, e, k) || (in_time(
            nodes,
            e,
        ) && tool_runner(nodes, nodes[n].emitted_tool_call_ids@[k]@, e.to as int))),
{
    if e.from == n && call_link(nodes, e, k + 1) {
        let i = choose|i: int|
            0 <= i < k + 1 && tool_runner(
                nodes,
                (#[trigger] nodes[e.from as int].emitted_tool_call_ids@[i])@,
                e.to as int,
            );
        assert(i < k || i == k);
    }
}

/// Adds the edges to a node from what produced the tool results that its request carries.
fn add_consumed_edges<S: Scalar>(nodes: &Vec<RunDagNode<S>>, n: usize, edges: &mut Vec<RunDagEdge>)
    requires
        n < nodes.len(),
        edges_sorted(old(edges)@),
    ensures
        edges_sorted(final(edges)@),
        forall|e: RunDagEdge| #[trigger]
            final(edges)@.contains(e) <==> old(edges)@.contains(e) || ((e.kind
                == RunDagEdgeKind::LlmToolResult || e.kind == RunDagEdgeKind::ToolResult) && e.to
                == n && depends(nodes@, e)),
{
    let mut k: usize = 0;
    while k < nodes[n].consumed_tool_call_ids.len()
        invariant
            n < nodes.len(),
            k <= nodes@[n as int].consumed_tool_call_ids@.len(),
            edges_sorted(edges@),
            forall|e: RunDagEdge| #[trigger]
                edges@.contains(e) <==> old(edges)@.contains(e) || consumed_link(
                    nodes@,
                    e,
                    n as int,
                    k as int,
                ),
        decreases nodes@[n as int].consumed_tool_call_ids@.len() - k,
    {
        let ghost before = edges@;
        let id = &nodes[n].consumed_tool_call_ids[k];
        if nodes[n].kind == CallKind::Llm {
            if let Some(llm) = find_emitter(nodes, id) {
                if nodes[llm].ended_at.at_or_before(nodes[n].started_at) {
                    push_edge(edges, llm, n, RunDagEdgeKind::LlmToolResult);
                }
            }
        }
        if let Some(tool) = find_tool(nodes, id) {
            if nodes[tool].ended_at.at_or_before(nodes[n].started_at) {
                push_edge(edges, tool, n, RunDagEdgeKind::ToolResult);
            }
        }
        proof {
            assert forall|e: RunDagEdge| #[trigger] edges@.contains(e) <==> old(edges)@.contains(e)
                || consumed_link(nodes@, e, n as int, k + 1) by {
                assert(before.contains(e) <==> old(edges)@.contains(e) || consumed_link(
                    nodes@,
                    e,
                    n as int,
                    k as int,
                ));
                lemma_consumed_link_step(nodes@, e, n as int, k as int);
            }
        }
        k += 1;
    }
}

/// Whether an edge leads to the node at `n` for one of the first `k` tool results that its request
/// carries.
spec fn consumed_link<S: Scalar>(
    nodes: Seq<RunDagNode<S>>,
    e: RunDagEdge,
    n: int,
    k: int,
) -> bool {
    &&& e.to == n
    &&& match e.kind {
        RunDagEdgeKind::LlmToolResult => answer_link(nodes, e, k),
        RunDagEdgeKind::ToolResult => result_link(nodes, e, k),
        _ => false,
    }
}

proof fn lemma_consumed_link_step<S: Scalar>(
    nodes: Seq<RunDagNode<S>>,
    e: RunDagEdge,
    n: int,
    k: int,
)
    requires
        0 <= n < nodes.len(),
        0 <= k < nodes[n].consumed_tool_call_ids@.len(),
    ensures
        consumed_link(nodes, e, n, k + 1) <==> consumed_link(nodes, e, n, k) || (e.to == n
            && in_time(nodes, e) && match e.kind {
            RunDagEdgeKind::LlmToolResult => nodes[n].kind == CallKind::Llm && tool_emitter(
                nodes,
                nodes[n].consumed_tool_call_ids@[k]@,
                e.from as int,
            ),
            RunDagEdgeKind::ToolResult => tool_runner(
                nodes,
                nodes[n].consumed_tool_call_ids@[k]@,
                e.from as int,
            ),
            _ => false,
        }),
{
    if consumed_link(nodes, e, n, k + 1) {
        if e.kind == RunDagEdgeKind::LlmToolResult {
            let i = choose|i: int|
                0 <= i < k + 1 && tool_emitter(
                    nodes,
                    (#[trigger] nodes[e.to as int].consumed_tool_call_ids@[i])@,
                    e.from as int,
                );
            assert(i < k || i == k);
        } else {
            let i = choose|i: int|
                0 <= i < k + 1 && tool_runner(
                    nodes,
                    (#[trigger] nodes[e.to as int].consumed_tool_call_ids@[i])@,
                    e.from as int,
                );
            assert(i < k || i == k);
        }
    }
}

fn add_tool_call_edges<S: Scalar>(nodes: &Vec<RunDagNode<S>>, edges: &mut Vec<RunDagEdge>)
    requires
        edges_sorted(old(edges)@),
    ensures
        edges_sorted(final(edges)@),
        forall|e: RunDagEdge| #[trigger]
            final(edges)@.contains(e) <==> old(edges)@.contains(e) || (e.kind
                != RunDagEdgeKind::ParentScope && depends(nodes@, e)),
{
    let mut n: usize = 0;
    while n < nodes.len()
        invariant
            n <= nodes.len(),
            edges_sorted(edges@),
            forall|e: RunDagEdge| #[trigger]
                edges@.contains(e) <==> old(edges)@.contains(e) || (depends(nodes@, e)
                    && match e.kind {
                    RunDagEdgeKind::ParentScope => false,
                    RunDagEdgeKind::LlmToolCall => e.from < n,
                    _ => e.to < n,
                }),
        decreases nodes.len() - n,
    {
        add_emitted_edges(nodes, n, edges);
        add_consumed_edges(nodes, n, edges);
        n += 1;
    }
}

/// Build a conservative run-local DAG from one completed run.
///
/// Tool nodes are retained because they consume workflow time and can sit on the critical path.
/// Only LLM nodes are marked as priority-emitting.
pub fn build_completed_run_dag<S: Scalar>(run: &RunRecord<S>) -> (dag: CompletedRunDag<S>)
    ensures
        dag.run_id == run.id,
        nodes_of(run.calls@, dag.nodes@),
        edges_of(dag.nodes@, dag.edges@),
{
    let nodes = run_dag_nodes(&run.calls);
    let mut edges: Vec<RunDagEdge> = Vec::new();
    add_parent_scope_edges(&nodes, &mut edges);
    add_tool_call_edges(&nodes, &mut edges);
    CompletedRunDag { run_id: run.id, nodes, edges }
}

/// Whether no completed call ends before it begins.
pub open spec fn calls_run_forward<S: Scalar>(calls: Seq<CallRecord<S>>) -> bool {
    forall|c: int|
        0 <= c < calls.len() && (#[trigger] calls[c]).ended_at is Some ==> calls[c].started_at@
            <= calls[c].ended_at->0@
}

/// Whether no two completed calls begin and end at one and the same instant.
pub open spec fn instants_apart<S: Scalar>(calls: Seq<CallRecord<S>>) -> bool {
    forall|a: int, b: int|
        0 <= a < b < calls.len() && (#[trigger] calls[a]).ended_at is Some && (
        #[trigger] calls[b]).ended_at is Some ==> !(calls[a].started_at@ == calls[a].ended_at->0@
            && calls[b].started_at@ == calls[a].started_at@ && calls[b].ended_at->0@
            == calls[a].started_at@)
}

/// Every edge of a run's graph joins two of its nodes, from one that ended to one that began no
/// earlier, and never a node to itself.
pub proof fn law_edges_join_nodes<S: Scalar>(
    nodes: Seq<RunDagNode<S>>,
    edges: Seq<RunDagEdge>,
    i: int,
)
    requires
        edges_of(nodes, edges),
        0 <= i < edges.len(),
    ensures
        in_time(nodes, edges[i]),
{
    assert(edges.contains(edges[i]));
}

/// In a run whose calls end no earlier than they begin, and of which no two are instantaneous at
/// the same instant, every edge leads from an earlier node to a later one.
pub proof fn law_edges_lead_forward<S: Scalar>(
    calls: Seq<CallRecord<S>>,
    nodes: Seq<RunDagNode<S>>,
    edges: Seq<RunDagEdge>,
    i: int,
)
    requires
        calls_run_forward(calls),
        instants_apart(calls),
        nodes_of(calls, nodes),
        edges_of(nodes, edges),
        0 <= i < edges.len(),
    ensures
        edges[i].from < edges[i].to < nodes.len(),
{
    law_edges_join_nodes(nodes, edges, i);
    let from = edges[i].from as int;
    let to = edges[i].to as int;
    let order = nodes.map_values(|n: RunDagNode<S>| n.call_index as int);
    assert(order[from] == nodes[from].call_index && order[to] == nodes[to].call_index);
    let a = order[from];
    let b = order[to];
    assert(calls[a].ended_at is Some && calls[b].ended_at is Some);
    if to < from {
        assert(call_before(calls, b, a));
    }
}

/// Calls in the same scope have the same structural key only when they are of the same kind and have
/// the same name.
pub proof fn law_keys_tell_calls_apart<S: Scalar>(a: CallRecord<S>, b: CallRecord<S>)
    requires
        texts(a.function_path@) == texts(b.function_path@),
        call_key(a) == call_key(b),
    ensures
        a.kind == b.kind,
        a.name@ == b.name@,
{
    reveal_strlit("llm");
    reveal_strlit("tool");
    reveal_strlit("/");
    reveal_strlit(":");
    let path = if texts(a.function_path@).len() == 0 {
        "root"@
    } else {
        joined(texts(a.function_path@), "/"@)
    };
    let (x, y) = (kind_text(a.kind) + ":"@ + a.name@, kind_text(b.kind) + ":"@ + b.name@);
    assert(call_key(a) =~= (path + "/"@) + x);
    assert(call_key(b) =~= (path + "/"@) + y);
    lemma_equal_parts(path + "/"@, x, path + "/"@, y);
    assert(x[0] == kind_text(a.kind)[0] && y[0] == kind_text(b.kind)[0]);
    assert("llm"@[0] == 'l' && "tool"@[0] == 't');
    lemma_equal_parts(
        kind_text(a.kind) + ":"@,
        a.name@,
        kind_text(b.kind) + ":"@,
        b.name@,
    );
}

/// Calls with the same structural key, kind and name were made in the same scope. Names of scopes with
/// a slash in them, and a single scope named as the place outside of all scopes, are left out.
pub proof fn law_keys_tell_scopes_apart<S: Scalar>(a: CallRecord<S>, b: CallRecord<S>)
    requires
        a.kind == b.kind,
        a.name@ == b.name@,
        call_key(a) == call_key(b),
        none_has(texts(a.function_path@), '/'),
        none_has(texts(b.function_path@), '/'),
        texts(a.function_path@) != seq!["root"@],
        texts(b.function_path@) != seq!["root"@],
    ensures
        texts(a.function_path@) == texts(b.function_path@),
{
    reveal_strlit("root");
    reveal_strlit("/");
    assert("/"@ =~= seq!['/']);
    let (p, q) = (texts(a.function_path@), texts(b.function_path@));
    let (x, y) = (
        if p.len() == 0 {
            "root"@
        } else {
            joined(p, "/"@)
        },
        if q.len() == 0 {
            "root"@
        } else {
            joined(q, "/"@)
        },
    );
    let rest = "/"@ + kind_text(a.kind) + ":"@ + a.name@;
    assert(call_key(a) =~= x + rest);
    assert(call_key(b) =~= y + rest);
    assert((x + rest).len() == (y + rest).len());
    lemma_equal_parts(x, rest, y, rest);
    let outside = seq!["root"@];
    assert(none_has(outside, '/')) by {
        assert forall|i: int| 0 <= i < outside.len() implies !(#[trigger] outside[i]).contains(
            '/',
        ) by {
            assert(outside[i] == "root"@);
        }
    }
    assert(joined(outside, "/"@) == "root"@);
    if p.len() > 0 && q.len() > 0 {
        lemma_joined_injective(p, q, '/');
    } else if p.len() > 0 {
        lemma_joined_injective(p, outside, '/');
    } else if q.len() > 0 {
        lemma_joined_injective(q, outside, '/');
    } else {
        assert(p =~= q);
    }
}

/// A call went to the model that its request names, whatever the response or the call is called; to
/// the recorded one only where the request names none, and by its name only where neither does.
pub proof fn law_requested_model_counts<S: Scalar>(call: CallRecord<S>, model: String)
    ensures
        (call.annotated_request matches Some(request) && request.model == Some(model))
            ==> call_model(call) == model@,
        (call.annotated_request matches Some(request) ==> request.model is None)
            && call.model_name == Some(model) ==> call_model(call) == model@,
        (call.annotated_request matches Some(request) ==> request.model is None)
            && call.model_name is None && call.name == model ==> call_model(call) == model@,
{
}

/// Where the backend reports a total time of an LLM call that covers its queue wait, the duration of
/// the call is what is left of the total without the wait.
pub proof fn law_waiting_is_no_service(
    node: RunDagNode<Fixed>,
    call: CallRecord<Fixed>,
    call_index: int,
    timing: BackendTiming<Fixed>,
    total: Fixed,
    wait: Fixed,
)
    requires
        stands_for(node, call, call_index),
        call.kind == CallKind::Llm,
        call.backend_timing == Some(timing),
        timing.total_time_ms == Some(total),
        timing.prefill_wait_time_ms == Some(wait) || (timing.prefill_wait_time_ms is None
            && wait.millionths == 0),
        0 <= wait.millionths <= total.millionths < i64::MAX,
    ensures
        node.duration_ms.millionths + wait.millionths == total.millionths,
{
}

/// A tool call, or an LLM call whose backend reports no total time or one that does not cover its
/// queue wait, lasts from its start to its end, in whole milliseconds, whatever else is reported of
/// it.
pub proof fn law_other_calls_last_as_observed(
    node: RunDagNode<Fixed>,
    call: CallRecord<Fixed>,
    call_index: int,
)
    requires
        stands_for(node, call, call_index),
        call.kind == CallKind::Tool || (call.backend_timing matches Some(timing)
            ==> timing.total_time_ms is None || (timing.prefill_wait_time_ms is Some
            && timing.total_time_ms->0.millionths < timing.prefill_wait_time_ms->0.millionths)),
        nanos_between(call.started_at@, node.ended_at@) < i64::MAX,
    ensures
        ({
            let passed = nanos_between(call.started_at@, node.ended_at@);
            let lasted = node.duration_ms.millionths as int;
            &&& passed >= 0 ==> lasted <= passed < lasted + 1_000_000
            &&& passed < 0 ==> lasted == 0
            &&& lasted % 1_000_000 == 0
        }),
{
    let passed = nanos_between(call.started_at@, node.ended_at@);
    let millis = whole_millis(passed);
    if millis > 0 {
        assert(millis * 1_000_000 <= passed);
        assert(Fixed::ratio(millis, 1).millionths == millis * 1_000_000);
    } else {
        assert(Fixed::ratio(0, 1).millionths == 0);
    }
}

/// Whether the response of a call asks for the tool call `id`.
pub open spec fn asks_for<S: Scalar>(call: CallRecord<S>, id: Seq<char>) -> bool {
    &&& call.annotated_response is Some
    &&& call.annotated_response->0.tool_calls is Some
    &&& exists|i: int|
        0 <= i < call.annotated_response->0.tool_calls->0@.len() && (
        #[trigger] call.annotated_response->0.tool_calls->0@[i]).id@ == id
}

/// Whether the request of a call carries the result of the tool call `id`.
pub open spec fn carries_result<S: Scalar>(call: CallRecord<S>, id: Seq<char>) -> bool {
    &&& call.annotated_request is Some
    &&& exists|i: int|
        0 <= i < call.annotated_request->0.messages@.len() && (
        #[trigger] call.annotated_request->0.messages@[i]) is Tool
            && call.annotated_request->0.messages@[i]->tool_call_id@ == id
}

/// Whether a call ran the tool call `id`.
pub open spec fn ran<S: Scalar>(call: CallRecord<S>, id: Seq<char>) -> bool {
    call.tool_call_id is Some && call.tool_call_id->0@ == id
}

/// The call that the node at `i` stands for.
pub open spec fn call_at<S: Scalar>(
    calls: Seq<CallRecord<S>>,
    nodes: Seq<RunDagNode<S>>,
    i: int,
) -> CallRecord<S> {
    calls[nodes[i].call_index as int]
}

spec fn has_tool_calls<S: Scalar>(call: CallRecord<S>) -> bool {
    call.annotated_response is Some && call.annotated_response->0.tool_calls is Some
}

proof fn lemma_asked_ids<S: Scalar>(call: CallRecord<S>, id: Seq<char>)
    ensures
        emitted_ids(call).contains(id) <==> asks_for(call, id),
{
    if has_tool_calls(call) {
        let list = call.annotated_response->0.tool_calls->0@;
        let ids = emitted_ids(call);
        if ids.contains(id) {
            let i = choose|i: int| 0 <= i < ids.len() && ids[i] == id;
            assert(list[i].id@ == id);
        }
        if asks_for(call, id) {
            let i = choose|i: int| 0 <= i < list.len() && (#[trigger] list[i]).id@ == id;
            assert(ids[i] == id);
        }
    }
}

proof fn lemma_answered_ids(messages: Seq<Message>, id: Seq<char>)
    ensures
        answered_ids(messages).contains(id) <==> exists|i: int|
            0 <= i < messages.len() && (#[trigger] messages[i]) is Tool
                && messages[i]->tool_call_id@ == id,
    decreases messages.len(),
{
    if messages.len() > 0 {
        let front = messages.drop_last();
        let last = messages[messages.len() - 1];
        lemma_answered_ids(front, id);
        let (earlier, all) = (answered_ids(front), answered_ids(messages));
        if earlier.contains(id) {
            let k = choose|k: int| 0 <= k < earlier.len() && earlier[k] == id;
            assert(all[k] == id);
            let i = choose|i: int|
                0 <= i < front.len() && (#[trigger] front[i]) is Tool && front[i]->tool_call_id@
                    == id;
            assert(messages[i] is Tool);
        }
        if last is Tool {
            assert(all[all.len() - 1] == last->tool_call_id@);
        }
        if all.contains(id) && !earlier.contains(id) {
            let k = choose|k: int| 0 <= k < all.len() && all[k] == id;
            if k < earlier.len() {
                assert(earlier[k] == id);
            }
            assert(last is Tool && last->tool_call_id@ == id);
        }
        if exists|i: int|
            0 <= i < messages.len() && (#[trigger] messages[i]) is Tool
                && messages[i]->tool_call_id@ == id {
            let i = choose|i: int|
                0 <= i < messages.len() && (#[trigger] messages[i]) is Tool
                    && messages[i]->tool_call_id@ == id;
            if i < front.len() {
                assert(front[i] is Tool);
            }
        }
    }
}

proof fn lemma_carried_ids<S: Scalar>(call: CallRecord<S>, id: Seq<char>)
    ensures
        consumed_ids(call).contains(id) <==> carries_result(call, id),
{
    if call.annotated_request is Some {
        lemma_answered_ids(call.annotated_request->0.messages@, id);
    }
}

/// Some text of a list has an index.
proof fn lemma_text_listed(list: Seq<String>, id: Seq<char>)
    ensures
        texts(list).contains(id) <==> exists|i: int|
            0 <= i < list.len() && (#[trigger] list[i])@ == id,
{
    if texts(list).contains(id) {
        let i = choose|i: int| 0 <= i < texts(list).len() && texts(list)[i] == id;
        assert(list[i]@ == id);
    }
    if exists|i: int| 0 <= i < list.len() && (#[trigger] list[i])@ == id {
        let i = choose|i: int| 0 <= i < list.len() && (#[trigger] list[i])@ == id;
        assert(texts(list)[i] == id);
    }
}

/// Whether the node at `i` is the last one whose call satisfies `p`.
pub open spec fn last_such<S: Scalar>(
    calls: Seq<CallRecord<S>>,
    nodes: Seq<RunDagNode<S>>,
    p: spec_fn(CallRecord<S>) -> bool,
    i: int,
) -> bool {
    &&& p(call_at(calls, nodes, i))
    &&& forall|j: int| i < j < nodes.len() ==> !p(#[trigger] call_at(calls, nodes, j))
}

/// One call depends on another, which ended before it started, exactly where the records of the two
/// say so: the later one was made in the scope of the earlier one; it ran a tool call that the
/// response of the earlier one asks for; its request carries the result of a tool call that the
/// earlier one ran; or it is an LLM call that carries the result of a tool call that the earlier LLM
/// call asked for. Where several calls share an identifier, the last one counts.
pub proof fn law_dependencies_are_what_the_calls_tell<S: Scalar>(
    calls: Seq<CallRecord<S>>,
    nodes: Seq<RunDagNode<S>>,
    edges: Seq<RunDagEdge>,
    e: RunDagEdge,
)
    requires
        nodes_of(calls, nodes),
        edges_of(nodes, edges),
        e.from < nodes.len(),
        e.to < nodes.len(),
    ensures
        ({
            let (from, to) = (e.from as int, e.to as int);
            let (earlier, later) = (call_at(calls, nodes, from), call_at(calls, nodes, to));
            edges.contains(e) <==> e.from != e.to && earlier.ended_at is Some && (
            earlier.ended_at->0)@ <= later.started_at@ && match e.kind {
                RunDagEdgeKind::ParentScope => later.parent_uuid is Some && last_such(
                    calls,
                    nodes,
                    |call: CallRecord<S>| call.scope_uuid == later.parent_uuid->0,
                    from,
                ),
                RunDagEdgeKind::LlmToolCall => exists|id: Seq<char>| #[trigger]
                    asks_for(earlier, id) && last_such(
                        calls,
                        nodes,
                        |call: CallRecord<S>| ran(call, id),
                        to,
                    ),
                RunDagEdgeKind::ToolResult => exists|id: Seq<char>| #[trigger]
                    carries_result(later, id) && last_such(
                        calls,
                        nodes,
                        |call: CallRecord<S>| ran(call, id),
                        from,
                    ),
                RunDagEdgeKind::LlmToolResult => later.kind == CallKind::Llm && exists|
                    id: Seq<char>,
                | #[trigger]
                    carries_result(later, id) && last_such(
                        calls,
                        nodes,
                        |call: CallRecord<S>| call.kind == CallKind::Llm && asks_for(call, id),
                        from,
                    ),
            }
        }),
{
    let (from, to) = (e.from as int, e.to as int);
    let (earlier, later) = (call_at(calls, nodes, from), call_at(calls, nodes, to));
    assert(stands_for(nodes[from], earlier, nodes[from].call_index as int));
    assert(stands_for(nodes[to], later, nodes[to].call_index as int));
    assert(edges.contains(e) <==> depends(nodes, e));
    assert forall|j: int| 0 <= j < nodes.len() implies stands_for(
        #[trigger] nodes[j],
        call_at(calls, nodes, j),
        nodes[j].call_index as int,
    ) by {}
    match e.kind {
        RunDagEdgeKind::ParentScope => {
            if later.parent_uuid is Some {
                let uuid = later.parent_uuid->0;
                let p = |call: CallRecord<S>| call.scope_uuid == uuid;
                if scope_owner(nodes, uuid, from) {
                    assert forall|j: int| from < j < nodes.len() implies !p(
                        #[trigger] call_at(calls, nodes, j),
                    ) by {
                        assert(nodes[j].scope_uuid != uuid);
                    }
                }
                if last_such(calls, nodes, p, from) {
                    assert forall|j: int| from < j < nodes.len() implies (
                    #[trigger] nodes[j]).scope_uuid != uuid by {
                        assert(!p(call_at(calls, nodes, j)));
                    }
                }
            }
        },
        RunDagEdgeKind::LlmToolCall => {
            let list = nodes[from].emitted_tool_call_ids@;
            if call_link(nodes, e, list.len() as int) {
                let i = choose|i: int|
                    0 <= i < list.len() && tool_runner(nodes, (#[trigger] list[i])@, to);
                let id = list[i]@;
                lemma_text_listed(list, id);
                lemma_asked_ids(earlier, id);
                lemma_runner_calls(calls, nodes, id, to);
                assert(asks_for(earlier, id));
            }
            if exists|id: Seq<char>| #[trigger]
                asks_for(earlier, id) && last_such(
                    calls,
                    nodes,
                    |call: CallRecord<S>| ran(call, id),
                    to,
                ) {
                let id = choose|id: Seq<char>| #[trigger]
                    asks_for(earlier, id) && last_such(
                        calls,
                        nodes,
                        |call: CallRecord<S>| ran(call, id),
                        to,
                    );
                lemma_text_listed(list, id);
                lemma_asked_ids(earlier, id);
                lemma_runner_calls(calls, nodes, id, to);
                let i = choose|i: int| 0 <= i < list.len() && (#[trigger] list[i])@ == id;
                assert(tool_runner(nodes, list[i]@, to));
            }
        },
        RunDagEdgeKind::ToolResult => {
            let list = nodes[to].consumed_tool_call_ids@;
            if result_link(nodes, e, list.len() as int) {
                let i = choose|i: int|
                    0 <= i < list.len() && tool_runner(nodes, (#[trigger] list[i])@, from);
                let id = list[i]@;
                lemma_text_listed(list, id);
                lemma_carried_ids(later, id);
                lemma_runner_calls(calls, nodes, id, from);
                assert(carries_result(later, id));
            }
            if exists|id: Seq<char>| #[trigger]
                carries_result(later, id) && last_such(
                    calls,
                    nodes,
                    |call: CallRecord<S>| ran(call, id),
                    from,
                ) {
                let id = choose|id: Seq<char>| #[trigger]
                    carries_result(later, id) && last_such(
                        calls,
                        nodes,
                        |call: CallRecord<S>| ran(call, id),
                        from,
                    );
                lemma_text_listed(list, id);
                lemma_carried_ids(later, id);
                lemma_runner_calls(calls, nodes, id, from);
                let i = choose|i: int| 0 <= i < list.len() && (#[trigger] list[i])@ == id;
                assert(tool_runner(nodes, list[i]@, from));
            }
        },
        RunDagEdgeKind::LlmToolResult => {
            let list = nodes[to].consumed_tool_call_ids@;
            if answer_link(nodes, e, list.len() as int) {
                let i = choose|i: int|
                    0 <= i < list.len() && tool_emitter(nodes, (#[trigger] list[i])@, from);
                let id = list[i]@;
                lemma_text_listed(list, id);
                lemma_carried_ids(later, id);
                lemma_emitter_calls(calls, nodes, id, from);
                assert(carries_result(later, id));
            }
            if exists|id: Seq<char>| #[trigger]
                carries_result(later, id) && last_such(
                    calls,
                    nodes,
                    |call: CallRecord<S>| call.kind == CallKind::Llm && asks_for(call, id),
                    from,
                ) {
                let id = choose|id: Seq<char>| #[trigger]
                    carries_result(later, id) && last_such(
                        calls,
                        nodes,
                        |call: CallRecord<S>| call.kind == CallKind::Llm && asks_for(call, id),
                        from,
                    );
                lemma_text_listed(list, id);
                lemma_carried_ids(later, id);
                lemma_emitter_calls(calls, nodes, id, from);
                let i = choose|i: int| 0 <= i < list.len() && (#[trigger] list[i])@ == id;
                assert(tool_emitter(nodes, list[i]@, from));
            }
        },
    }
}

proof fn lemma_runner_calls<S: Scalar>(
    calls: Seq<CallRecord<S>>,
    nodes: Seq<RunDagNode<S>>,
    id: Seq<char>,
    i: int,
)
    requires
        nodes_of(calls, nodes),
        0 <= i < nodes.len(),
    ensures
        tool_runner(nodes, id, i) <==> last_such(
            calls,
            nodes,
            |call: CallRecord<S>| ran(call, id),
            i,
        ),
{
    let p = |call: CallRecord<S>| ran(call, id);
    assert forall|j: int| 0 <= j < nodes.len() implies runs_tool(#[trigger] nodes[j], id) == p(
        call_at(calls, nodes, j),
    ) by {
        assert(stands_for(nodes[j], call_at(calls, nodes, j), nodes[j].call_index as int));
    }
    if tool_runner(nodes, id, i) {
        assert forall|j: int| i < j < nodes.len() implies !p(#[trigger] call_at(calls, nodes, j)) by {
            assert(!runs_tool(nodes[j], id));
        }
    }
    if last_such(calls, nodes, p, i) {
        assert forall|j: int| i < j < nodes.len() implies !runs_tool(#[trigger] nodes[j], id) by {
            assert(!p(call_at(calls, nodes, j)));
        }
        assert(runs_tool(nodes[i], id));
    }
}

proof fn lemma_emitter_calls<S: Scalar>(
    calls: Seq<CallRecord<S>>,
    nodes: Seq<RunDagNode<S>>,
    id: Seq<char>,
    i: int,
)
    requires
        nodes_of(calls, nodes),
        0 <= i < nodes.len(),
    ensures
        tool_emitter(nodes, id, i) <==> last_such(
            calls,
            nodes,
            |call: CallRecord<S>| call.kind == CallKind::Llm && asks_for(call, id),
            i,
        ),
{
    let p = |call: CallRecord<S>| call.kind == CallKind::Llm && asks_for(call, id);
    assert forall|j: int| 0 <= j < nodes.len() implies emits_tool(#[trigger] nodes[j], id) == p(
        call_at(calls, nodes, j),
    ) by {
        assert(stands_for(nodes[j], call_at(calls, nodes, j), nodes[j].call_index as int));
        lemma_asked_ids(call_at(calls, nodes, j), id);
    }
    if tool_emitter(nodes, id, i) {
        assert forall|j: int| i < j < nodes.len() implies !p(#[trigger] call_at(calls, nodes, j)) by {
            assert(!emits_tool(nodes[j], id));
        }
    }
    if last_such(calls, nodes, p, i) {
        assert forall|j: int| i < j < nodes.len() implies !emits_tool(#[trigger] nodes[j], id) by {
            assert(!p(call_at(calls, nodes, j)));
        }
        assert(emits_tool(nodes[i], id));
    }
}

/// Every completed call has one node in its run's graph, and no open call has any; nodes come in the
/// order of their starts, then of their ends, then of their records. A node tells of its call when it ran, in which scope and under which name;
/// LLM calls alone emit priorities.
pub proof fn law_completed_calls_are_the_nodes<S: Scalar>(
    calls: Seq<CallRecord<S>>,
    nodes: Seq<RunDagNode<S>>,
    c: int,
    i: int,
    j: int,
)
    requires
        nodes_of(calls, nodes),
        0 <= c < calls.len(),
        0 <= i < j < nodes.len(),
    ensures
        calls[c].ended_at is Some <==> exists|k: int|
            0 <= k < nodes.len() && (#[trigger] nodes[k]).call_index == c,
        nodes[i].call_index != nodes[j].call_index,
        nodes[i].started_at@ <= nodes[j].started_at@,
        nodes[i].started_at@ == nodes[j].started_at@ ==> nodes[i].ended_at@ <= nodes[j].ended_at@,
        nodes[i].started_at@ == nodes[j].started_at@ && nodes[i].ended_at@ == nodes[j].ended_at@
            ==> nodes[i].call_index < nodes[j].call_index,
        ({
            let call = call_at(calls, nodes, i);
            &&& nodes[i].index == i
            &&& nodes[i].run_call_index == call.run_call_index
            &&& nodes[i].call_index < calls.len()
            &&& call.ended_at == Some(nodes[i].ended_at)
            &&& nodes[i].started_at == call.started_at
            &&& nodes[i].scope_uuid == call.scope_uuid
            &&& nodes[i].parent_uuid == call.parent_uuid
            &&& nodes[i].name == call.name
            &&& nodes[i].kind == call.kind
            &&& nodes[i].emits_priority <==> call.kind == CallKind::Llm
        }),
{
    let order = nodes.map_values(|n: RunDagNode<S>| n.call_index as int);
    assert(order[i] == nodes[i].call_index && order[j] == nodes[j].call_index);
    assert(call_before(calls, order[i], order[j]));
    assert(stands_for(nodes[i], call_at(calls, nodes, i), nodes[i].call_index as int));
    assert(stands_for(nodes[j], call_at(calls, nodes, j), nodes[j].call_index as int));
    if calls[c].ended_at is Some {
        assert(order.contains(c));
        let k = choose|k: int| 0 <= k < order.len() && order[k] == c;
        assert(nodes[k].call_index == c);
    }
    if exists|k: int| 0 <= k < nodes.len() && (#[trigger] nodes[k]).call_index == c {
        let k = choose|k: int| 0 <= k < nodes.len() && (#[trigger] nodes[k]).call_index == c;
        assert(order[k] == c);
    }
}

/// The dependencies of a graph are listed once each, by the call depended on, then by the depending
/// one.
pub proof fn law_edges_are_listed_in_order<S: Scalar>(
    nodes: Seq<RunDagNode<S>>,
    edges: Seq<RunDagEdge>,
    i: int,
    j: int,
)
    requires
        edges_of(nodes, edges),
        0 <= i < j < edges.len(),
    ensures
        edges[i] != edges[j],
        edges[i].from <= edges[j].from,
        edges[i].from == edges[j].from ==> edges[i].to <= edges[j].to,
{
    assert(edge_before(edges[i], edges[j]));
}

/// A structural key spells the path from the outside in, then the kind and the name of the call; a
/// call outside of any scope stands at the root.
pub proof fn law_keys_spell_the_path(kind: Seq<char>, path: Seq<Seq<char>>, inner: Seq<char>, name: Seq<char>)
    ensures
        key_text(kind, Seq::empty(), name) == "root"@ + ("/"@ + kind + ":"@ + name),
        key_text(kind, seq![inner], name) == inner + ("/"@ + kind + ":"@ + name),
        path.len() > 0 ==> key_text(kind, path.push(inner), name) == joined(path, "/"@) + "/"@
            + inner + ("/"@ + kind + ":"@ + name),
{
    let end = "/"@ + kind + ":"@ + name;
    assert(path.push(inner).drop_last() =~= path);
    assert(key_text(kind, Seq::empty(), name) =~= "root"@ + end);
    assert(key_text(kind, seq![inner], name) =~= inner + end);
    if path.len() > 0 {
        let whole = joined(path.push(inner), "/"@);
        assert(whole == joined(path, "/"@) + "/"@ + inner);
        assert(whole + "/"@ + kind + ":"@ + name =~= whole + end);
    }
}

} // verus!
