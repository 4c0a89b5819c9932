//! Accumulation of telemetry events into runs, and what becomes of a finished run.
use crate::cache::HotCache;
use crate::context_helpers::{low_bits, truncate};
use crate::fixed::Fixed;
use crate::ids::{fresh_id, version_of};
use crate::json::{float_bits_of, json_entries, json_float_bits, json_get, json_object, json_view, member, JsonView};
use crate::osl_empirical::{call_sample, run_call_observed, run_prefix, OslEmpiricalState};
use crate::records::{same_call, share_optional, BackendTiming, CallKind, CallRecord, GraphCallContext, RunRecord, RunView};
use crate::request::{copy_finish_reason, AnnotatedLlmResponse};
use crate::scalar::{zero, zero_of, Scalar};
use crate::scope::{Event, ScopeCategory, ScopeType};
use crate::scope_metadata::{flag_of, scope_graph_metadata, word_of, words_of, GRAPH_DEPENDS_ON_TASK_IDS_KEY, GRAPH_NODE_KEY, GRAPH_NODE_NAME_KEY, GRAPH_SCOPE_KEY, GRAPH_TASK_ID_KEY};
use crate::subscriber::{bounds_run, event_to_call_record, is_run_boundary, started_by, starts_call};
use crate::table::without_prefix;
use crate::text::{copy_text, copy_texts, optional_text, same_text, texts};
use crate::time::Timestamp;
use serde_json::Value;
use std::collections::HashMap;
use vstd::prelude::*;
use vstd::std_specs::iter::IteratorSpec;

verus! {

broadcast use vstd::std_specs::hash::group_hash_axioms;

/// Most scopes that the search for a graph node climbs.
pub const MAX_SCOPE_FACT_DEPTH: usize = 64;

/// Response member that holds what the backend adds.
pub const NVEXT_KEY: &'static str = "nvext";

/// Member of what the backend adds that holds its timing.
pub const TIMING_KEY: &'static str = "timing";

/// Where an open call is recorded.
#[derive(Debug, Clone, Copy, PartialEq, Eq, Structural)]
pub struct CallLocator {
    /// Root scope of the run.
    pub root_uuid: u128,
    /// Position among the calls of the run.
    pub call_index: usize,
}

/// A completed LLM call of a run that is still open.
#[derive(Debug)]
pub struct CompletedRunCall<S: Scalar> {
    /// Root scope of the run.
    pub root_uuid: u128,
    /// The call.
    pub call: CallRecord<S>,
}

/// What an event brought about.
#[derive(Debug)]
pub struct RunEventOutcome<S: Scalar> {
    /// Run that the event finished.
    pub completed_run: Option<RunRecord<S>>,
    /// LLM call that the event completed.
    pub completed_llm_call: Option<CompletedRunCall<S>>,
    /// Root scope of the run that the event finished.
    pub finished_root_uuid: Option<u128>,
}

/// Facts of an open scope.
#[derive(Debug)]
pub struct ScopeFacts {
    /// Enclosing scope.
    pub parent_uuid: Option<u128>,
    /// Name of the scope.
    pub name: String,
    /// Whether the scope is a graph.
    pub is_graph_scope: bool,
    /// Whether the scope is a graph node.
    pub is_graph_node: bool,
    /// Name of the graph node, when given.
    pub graph_node_name: Option<String>,
    /// Task of the graph node, when given.
    pub graph_task_id: Option<String>,
    /// Tasks that the graph node waited for.
    pub graph_depends_on_task_ids: Vec<String>,
}

/// Facts of an open scope, in terms of text.
#[verifier::ext_equal]
pub struct FactsView {
    /// Enclosing scope.
    pub parent: Option<u128>,
    /// Name of the scope.
    pub name: Seq<char>,
    /// Whether the scope is a graph.
    pub is_graph_scope: bool,
    /// Whether the scope is a graph node.
    pub is_graph_node: bool,
    /// Name of the graph node.
    pub node_name: Option<Seq<char>>,
    /// Task of the graph node.
    pub task_id: Option<Seq<char>>,
    /// Tasks that the graph node waited for.
    pub depends_on: Seq<Seq<char>>,
}

impl View for ScopeFacts {
    type V = FactsView;

    open spec fn view(&self) -> FactsView {
        FactsView {
            parent: self.parent_uuid,
            name: self.name@,
            is_graph_scope: self.is_graph_scope,
            is_graph_node: self.is_graph_node,
            node_name: optional_text(self.graph_node_name),
            task_id: optional_text(self.graph_task_id),
            depends_on: texts(self.graph_depends_on_task_ids@),
        }
    }
}

/// The facts of the scope that an event opens.
pub open spec fn facts_of(event: Event) -> FactsView {
    FactsView {
        parent: event.parent_uuid,
        name: event.name@,
        is_graph_scope: flag_of(event.metadata, GRAPH_SCOPE_KEY@) == Some(true),
        is_graph_node: flag_of(event.metadata, GRAPH_NODE_KEY@) == Some(true),
        node_name: word_of(event.metadata, GRAPH_NODE_NAME_KEY@),
        task_id: word_of(event.metadata, GRAPH_TASK_ID_KEY@),
        depends_on: words_of(event.metadata, GRAPH_DEPENDS_ON_TASK_IDS_KEY@),
    }
}

fn scope_facts(event: &Event) -> (r: ScopeFacts)
    ensures
        r@ == facts_of(*event),
{
    let graph = scope_graph_metadata(event);
    ScopeFacts {
        parent_uuid: event.parent_uuid,
        name: event.name.clone(),
        is_graph_scope: graph.is_graph_scope,
        is_graph_node: graph.is_graph_node,
        graph_node_name: graph.node_name,
        graph_task_id: graph.task_id,
        graph_depends_on_task_ids: graph.depends_on_task_ids,
    }
}

/// A number that a backend reported, never below zero, when it is an ordinary one.
pub open spec fn nonnegative<S: Scalar>(timing: Map<Seq<char>, Value>, key: Seq<char>) -> Option<S> {
    if timing.contains_key(key) {
        match float_bits_of(timing[key]) {
            Some(bits) => {
                let ms = S::decoded(bits);
                if ms.finite() {
                    Some(ms.larger(zero_of()))
                } else {
                    None
                }
            },
            None => None,
        }
    } else {
        None
    }
}

/// The object under a key of an object.
pub open spec fn object_under(entries: Map<Seq<char>, Value>, key: Seq<char>) -> Option<
    Map<Seq<char>, Value>,
> {
    if entries.contains_key(key) {
        match json_view(entries[key]) {
            JsonView::Object(inner) => Some(inner),
            _ => None,
        }
    } else {
        None
    }
}

/// The timing that a backend reported.
pub open spec fn timing_reported<S: Scalar>(timing: Map<Seq<char>, Value>) -> BackendTiming<S> {
    BackendTiming {
        prefill_wait_time_ms: nonnegative(timing, "prefill_wait_time_ms"@),
        prefill_time_ms: nonnegative(timing, "prefill_time_ms"@),
        ttft_ms: nonnegative(timing, "ttft_ms"@),
        total_time_ms: nonnegative(timing, "total_time_ms"@),
        router_queue_depth: nonnegative(timing, "router_queue_depth"@),
    }
}

/// The timing among the extra fields of a response, when there is any.
pub open spec fn timing_of<S: Scalar>(extra: Map<Seq<char>, Value>) -> Option<BackendTiming<S>> {
    match object_under(extra, NVEXT_KEY@) {
        Some(nvext) => match object_under(nvext, TIMING_KEY@) {
            Some(timing) => if timing_reported::<S>(timing).blank() {
                None
            } else {
                Some(timing_reported(timing))
            },
            None => None,
        },
        None => None,
    }
}

fn read_nonnegative<S: Scalar>(timing: &serde_json::Map<String, Value>, key: &str) -> (r: Option<S>)
    ensures
        r == nonnegative::<S>(json_entries(*timing), key@),
{
    match json_get(timing, key) {
        Some(value) => match json_float_bits(value) {
            Some(bits) => {
                let ms = S::of_float_bits(bits);
                if ms.is_finite() {
                    Some(ms.max_of(zero::<S>()))
                } else {
                    None
                }
            },
            None => None,
        },
        None => None,
    }
}

fn object_at<'a>(entries: &'a serde_json::Map<String, Value>, key: &str) -> (r: Option<
    &'a serde_json::Map<String, Value>,
>)
    ensures
        match object_under(json_entries(*entries), key@) {
            Some(inner) => r is Some && json_entries(*r->0) == inner,
            None => r is None,
        },
{
    match json_get(entries, key) {
        Some(value) => json_object(value),
        None => None,
    }
}

/// Reads the timing that a backend added to a response.
pub fn backend_timing_from_response_extra<S: Scalar>(
    extra: &serde_json::Map<String, Value>,
) -> (r: Option<BackendTiming<S>>)
    ensures
        r == timing_of::<S>(json_entries(*extra)),
{
    let nvext = match object_at(extra, NVEXT_KEY) {
        Some(nvext) => nvext,
        None => {
            return None;
        },
    };
    let timing = match object_at(nvext, TIMING_KEY) {
        Some(timing) => timing,
        None => {
            return None;
        },
    };
    let backend_timing: BackendTiming<S> = BackendTiming {
        prefill_wait_time_ms: read_nonnegative(timing, "prefill_wait_time_ms"),
        prefill_time_ms: read_nonnegative(timing, "prefill_time_ms"),
        ttft_ms: read_nonnegative(timing, "ttft_ms"),
        total_time_ms: read_nonnegative(timing, "total_time_ms"),
        router_queue_depth: read_nonnegative(timing, "router_queue_depth"),
    };
    if backend_timing.is_empty() {
        None
    } else {
        Some(backend_timing)
    }
}

/// Whether an event is about an LLM call.
pub open spec fn about_llm(event: Event) -> bool {
    event.category matches Some(category) && category@ == "llm"@
}

/// A token count in 32 bits.
pub open spec fn token_count(tokens: Option<u64>) -> Option<u32> {
    match tokens {
        Some(n) => Some(low_bits(n)),
        None => None,
    }
}

/// A call record with what a response tells of it.
pub open spec fn response_noted<S: Scalar>(
    call: CallRecord<S>,
    response: AnnotatedLlmResponse,
) -> CallRecord<S> {
    CallRecord {
        output_tokens: match response.usage {
            Some(usage) => token_count(usage.completion_tokens),
            None => call.output_tokens,
        },
        prompt_tokens: match response.usage {
            Some(usage) => token_count(usage.prompt_tokens),
            None => call.prompt_tokens,
        },
        total_tokens: match response.usage {
            Some(usage) => token_count(usage.total_tokens),
            None => call.total_tokens,
        },
        model_name: response.model,
        tool_call_count: match response.tool_calls {
            Some(calls) => Some((calls@.len() % 0x1_0000_0000) as u32),
            None => None,
        },
        finish_reason: response.finish_reason,
        backend_timing: timing_of(json_entries(response.extra)),
        ..call
    }
}

/// A call record with what an event about an LLM call tells of it: the response, when there is one,
/// and what that tells.
pub open spec fn llm_end_noted<S: Scalar>(call: CallRecord<S>, event: Event) -> CallRecord<S> {
    if about_llm(event) {
        let answered = CallRecord { annotated_response: event.annotated_response, ..call };
        match event.annotated_response {
            Some(response) => response_noted(answered, *response),
            None => answered,
        }
    } else {
        call
    }
}

/// A call record after the event that ends the call.
pub open spec fn call_ended<S: Scalar>(call: CallRecord<S>, event: Event) -> CallRecord<S> {
    llm_end_noted(CallRecord { ended_at: Some(event.timestamp), ..call }, event)
}

fn count_tokens(tokens: Option<u64>) -> (r: Option<u32>)
    ensures
        r == token_count(tokens),
{
    match tokens {
        Some(n) => Some(truncate(n)),
        None => None,
    }
}

/// Notes in a call record what the event that ends the call tells of it.
pub fn apply_llm_end_metadata<S: Scalar>(call: &mut CallRecord<S>, event: &Event)
    ensures
        *final(call) == llm_end_noted(*old(call), *event),
{
    let is_llm = match &event.category {
        Some(category) => same_text(category.as_str(), "llm"),
        None => false,
    };
    if !is_llm {
        return;
    }
    call.annotated_response = share_optional(&event.annotated_response);
    if let Some(annotated) = &event.annotated_response {
        if let Some(usage) = annotated.usage {
            call.output_tokens = count_tokens(usage.completion_tokens);
            call.prompt_tokens = count_tokens(usage.prompt_tokens);
            call.total_tokens = count_tokens(usage.total_tokens);
        }
        call.model_name = copy_text(&annotated.model);
        call.tool_call_count = match &annotated.tool_calls {
            Some(calls) => Some((calls.len() as u64 % 0x1_0000_0000) as u32),
            None => None,
        };
        call.finish_reason = copy_finish_reason(&annotated.finish_reason);
        call.backend_timing = backend_timing_from_response_extra(&annotated.extra);
    }
}

/// Whether a call is open and has a name.
pub open spec fn open_under<S: Scalar>(call: CallRecord<S>, name: Seq<char>) -> bool {
    call.ended_at is None && call.name@ == name
}

/// The position of the last open call with a name.
pub open spec fn last_open<S: Scalar>(calls: Seq<CallRecord<S>>, name: Seq<char>) -> Option<int>
    decreases calls.len(),
{
    if calls.len() == 0 {
        None
    } else if open_under(calls.last(), name) {
        Some(calls.len() - 1)
    } else {
        last_open(calls.drop_last(), name)
    }
}

/// Finds the last open call with a name.
fn find_open_call<S: Scalar>(calls: &Vec<CallRecord<S>>, name: &str) -> (r: Option<usize>)
    ensures
        match r {
            Some(i) => last_open(calls@, name@) == Some(i as int) && i < calls.len(),
            None => last_open(calls@, name@) is None,
        },
{
    let mut i: usize = calls.len();
    proof {
        assert(calls@.take(i as int) =~= calls@);
    }
    while i > 0
        invariant
            i <= calls.len(),
            last_open(calls@, name@) == last_open(calls@.take(i as int), name@),
        decreases i,
    {
        proof {
            assert(calls@.take(i as int).drop_last() =~= calls@.take(i - 1));
        }
        i -= 1;
        if calls[i].ended_at.is_none() && same_text(calls[i].name.as_str(), name) {
            return Some(i);
        }
    }
    None
}

/// Something that belongs to a run.
pub trait Rooted: Copy {
    /// The root scope of the run.
    spec fn root(self) -> u128;

    /// Returns the root scope of the run.
    fn root_scope(self) -> (r: u128)
        ensures
            r == self.root(),
    ;
}

impl Rooted for u128 {
    open spec fn root(self) -> u128 {
        self
    }

    fn root_scope(self) -> (r: u128) {
        self
    }
}

impl Rooted for CallLocator {
    open spec fn root(self) -> u128 {
        self.root_uuid
    }

    fn root_scope(self) -> (r: u128) {
        self.root_uuid
    }
}

/// The entries that do not belong to a run.
pub open spec fn unrooted<V: Rooted>(entries: Map<u128, V>, root: u128) -> Map<u128, V> {
    Map::new(
        |key: u128| entries.contains_key(key) && entries[key].root() != root,
        |key: u128| entries[key],
    )
}

/// The entries whose keys another map has.
pub open spec fn known<V, W>(entries: Map<u128, V>, keys: Map<u128, W>) -> Map<u128, V> {
    Map::new(
        |key: u128| entries.contains_key(key) && keys.contains_key(key),
        |key: u128| entries[key],
    )
}

/// The views of the values of a map.
pub open spec fn id_views<T: View>(map: Map<u128, T>) -> Map<u128, T::V> {
    Map::new(|key: u128| map.contains_key(key), |key: u128| map[key]@)
}

/// Lists the keys of a map.
fn keys_of<V>(map: &HashMap<u128, V>) -> (r: Vec<u128>)
    ensures
        forall|key: u128| #[trigger] r@.contains(key) <==> map@.contains_key(key),
{
    let mut out: Vec<u128> = Vec::new();
    let keys = map.keys();
    let ghost all = keys.remaining().unref();
    proof {
        assert(all.to_set() == map@.dom());
    }
    for key in it: keys
        invariant
            it.seq().unref() == all,
            out@ == all.take(it.index() as int),
    {
        out.push(*key);
    }
    proof {
        assert(out@ =~= all);
        assert forall|key: u128| #[trigger] out@.contains(key) <==> map@.contains_key(key) by {
            assert(all.to_set().contains(key) <==> map@.dom().contains(key));
        }
    }
    out
}

/// Drops the entries that belong to a run.
fn drop_rooted<V: Rooted>(map: &mut HashMap<u128, V>, root: u128)
    ensures
        final(map)@ == unrooted(old(map)@, root),
{
    let keys = keys_of(map);
    let ghost before = map@;
    let mut i: usize = 0;
    while i < keys.len()
        invariant
            i <= keys.len(),
            forall|key: u128|
                #![trigger map@.contains_key(key)]
                #![trigger before.contains_key(key)]
                map@.contains_key(key) <==> before.contains_key(key) && (before[key].root() != root
                    || !keys@.take(i as int).contains(key)),
            forall|key: u128| #[trigger] map@.contains_key(key) ==> map@[key] == before[key],
        decreases keys.len() - i,
    {
        let key: u128 = keys[i];
        let ghost now = map@;
        let rooted = match map.get(&key) {
            Some(value) => value.root_scope() == root,
            None => false,
        };
        if rooted {
            let _ = map.remove(&key);
        }
        proof {
            assert forall|k: u128| keys@.take(i + 1).contains(k) <==> keys@.take(
                i as int,
            ).contains(k) || k == key by {
                if keys@.take(i as int).contains(k) {
                    let j = choose|j: int| 0 <= j < i && keys@.take(i as int)[j] == k;
                    assert(keys@.take(i + 1)[j] == k);
                }
                if k == key {
                    assert(keys@.take(i + 1)[i as int] == k);
                }
            }
        }
        i += 1;
    }
    proof {
        assert(keys@.take(keys.len() as int) =~= keys@);
        assert(map@ =~= unrooted(before, root));
    }
}

/// Drops the entries whose keys another map does not have.
fn keep_known<V, W>(map: &mut HashMap<u128, V>, others: &HashMap<u128, W>)
    ensures
        final(map)@ == known(old(map)@, others@),
{
    let keys = keys_of(map);
    let ghost before = map@;
    let mut i: usize = 0;
    while i < keys.len()
        invariant
            i <= keys.len(),
            forall|key: u128|
                #![trigger map@.contains_key(key)]
                #![trigger before.contains_key(key)]
                map@.contains_key(key) <==> before.contains_key(key) && (others@.contains_key(key)
                    || !keys@.take(i as int).contains(key)),
            forall|key: u128| #[trigger] map@.contains_key(key) ==> map@[key] == before[key],
        decreases keys.len() - i,
    {
        let key: u128 = keys[i];
        if !others.contains_key(&key) {
            let _ = map.remove(&key);
        }
        proof {
            assert forall|k: u128| keys@.take(i + 1).contains(k) <==> keys@.take(
                i as int,
            ).contains(k) || k == key by {
                if keys@.take(i as int).contains(k) {
                    let j = choose|j: int| 0 <= j < i && keys@.take(i as int)[j] == k;
                    assert(keys@.take(i + 1)[j] == k);
                }
                if k == key {
                    assert(keys@.take(i + 1)[i as int] == k);
                }
            }
        }
        i += 1;
    }
    proof {
        assert(keys@.take(keys.len() as int) =~= keys@);
        assert(map@ =~= known(before, others@));
    }
}

/// What the search for a graph node has found.
#[verifier::ext_equal]
pub struct GraphFinds {
    /// Name of the nearest graph.
    pub graph_name: Option<Seq<char>>,
    /// Name of the nearest graph node.
    pub node_name: Option<Seq<char>>,
    /// Task of the nearest graph node.
    pub task_id: Option<Seq<char>>,
    /// Tasks that it waited for.
    pub depends_on: Seq<Seq<char>>,
}

/// The facts of a graph context.
#[verifier::ext_equal]
pub struct GraphView {
    /// Graph scope name.
    pub graph_name: Option<Seq<char>>,
    /// Graph node name.
    pub node_name: Seq<char>,
    /// Graph task identifier.
    pub task_id: Seq<char>,
    /// Tasks that the node waited for.
    pub depends_on: Seq<Seq<char>>,
}

/// The facts of an optional graph context.
pub open spec fn graph_view(graph: Option<GraphCallContext>) -> Option<GraphView> {
    match graph {
        Some(g) => Some(
            GraphView {
                graph_name: optional_text(g.graph_name),
                node_name: g.node_name@,
                task_id: g.task_id@,
                depends_on: texts(g.depends_on_task_ids@),
            },
        ),
        None => None,
    }
}

/// A search before anything was found.
pub open spec fn nothing_found() -> GraphFinds {
    GraphFinds { graph_name: None, node_name: None, task_id: None, depends_on: Seq::empty() }
}

/// A search after one more scope: the first graph counts, and graph nodes until one has a task.
pub open spec fn scope_searched(finds: GraphFinds, facts: FactsView) -> GraphFinds {
    let looking = finds.task_id is None && facts.is_graph_node;
    GraphFinds {
        graph_name: if finds.graph_name is None && facts.is_graph_scope {
            Some(facts.name)
        } else {
            finds.graph_name
        },
        node_name: if looking {
            match facts.node_name {
                Some(name) => Some(name),
                None => Some(facts.name),
            }
        } else {
            finds.node_name
        },
        task_id: if looking {
            facts.task_id
        } else {
            finds.task_id
        },
        depends_on: if looking {
            facts.depends_on
        } else {
            finds.depends_on
        },
    }
}

/// Whether a search has found all there is to find.
pub open spec fn settled(finds: GraphFinds) -> bool {
    finds.graph_name is Some && finds.task_id is Some && finds.node_name is Some
}

/// A search that climbs from a scope to its enclosing ones, at most `hops` of them; it fails at a
/// scope that nothing is known of.
pub open spec fn climbed(
    facts: Map<u128, FactsView>,
    current: u128,
    hops: nat,
    finds: GraphFinds,
) -> Option<GraphFinds>
    decreases hops,
{
    if hops == 0 {
        Some(finds)
    } else if !facts.contains_key(current) {
        None
    } else {
        let now = scope_searched(finds, facts[current]);
        if settled(now) {
            Some(now)
        } else {
            match facts[current].parent {
                Some(parent) => climbed(facts, parent, (hops - 1) as nat, now),
                None => Some(now),
            }
        }
    }
}

/// The graph context of a call made inside a scope: a graph node with a task is needed.
pub open spec fn graph_inside(facts: Map<u128, FactsView>, parent: Option<u128>) -> Option<
    GraphView,
> {
    match parent {
        Some(scope) => match climbed(
            facts,
            scope,
            MAX_SCOPE_FACT_DEPTH as nat,
            nothing_found(),
        ) {
            Some(finds) => match (finds.node_name, finds.task_id) {
                (Some(node_name), Some(task_id)) => Some(
                    GraphView {
                        graph_name: finds.graph_name,
                        node_name,
                        task_id,
                        depends_on: finds.depends_on,
                    },
                ),
                _ => None,
            },
            None => None,
        },
        None => None,
    }
}

/// Accumulates events into runs.
pub struct RunAccumulator<S: Scalar> {
    agent_id: String,
    open_runs: HashMap<u128, RunRecord<S>>,
    event_roots: HashMap<u128, u128>,
    open_call_index: HashMap<u128, CallLocator>,
    scope_facts: HashMap<u128, ScopeFacts>,
}

/// The facts of an accumulator.
#[verifier::ext_equal]
pub struct AccumulatorView<S: Scalar> {
    /// Agent that the runs belong to.
    pub agent: Seq<char>,
    /// Open runs, by their root scope.
    pub runs: Map<u128, RunView<S>>,
    /// Root scope of the run that each open scope belongs to.
    pub roots: Map<u128, u128>,
    /// Where each open call is recorded.
    pub calls: Map<u128, CallLocator>,
    /// Facts of the open scopes.
    pub facts: Map<u128, FactsView>,
}

impl<S: Scalar> View for RunAccumulator<S> {
    type V = AccumulatorView<S>;

    closed spec fn view(&self) -> AccumulatorView<S> {
        AccumulatorView {
            agent: self.agent_id@,
            runs: id_views(self.open_runs@),
            roots: self.event_roots@,
            calls: self.open_call_index@,
            facts: id_views(self.scope_facts@),
        }
    }
}

/// An outcome of nothing.
pub open spec fn no_outcome<S: Scalar>() -> RunEventOutcome<S> {
    RunEventOutcome { completed_run: None, completed_llm_call: None, finished_root_uuid: None }
}

/// The run that an event belongs to: that of its own scope, else that of the enclosing one.
pub open spec fn run_of(roots: Map<u128, u128>, event: Event) -> Option<u128> {
    if roots.contains_key(event.uuid) {
        Some(roots[event.uuid])
    } else {
        match event.parent_uuid {
            Some(parent) => if roots.contains_key(parent) {
                Some(roots[parent])
            } else {
                None
            },
            None => None,
        }
    }
}

/// Whether `after` is `before` with a run opened by an event: an empty run under the event's scope.
pub open spec fn run_opened<S: Scalar>(
    before: AccumulatorView<S>,
    event: Event,
    after: AccumulatorView<S>,
) -> bool {
    &&& after == AccumulatorView {
        runs: before.runs.insert(
            event.uuid,
            RunView {
                id: after.runs[event.uuid].id,
                agent: before.agent,
                calls: Seq::empty(),
                started_at: event.timestamp,
                ended_at: None,
            },
        ),
        roots: before.roots.insert(event.uuid, event.uuid),
        facts: before.facts.insert(event.uuid, facts_of(event)),
        ..before
    }
    &&& version_of(after.runs[event.uuid].id) == 7
}

/// The root of the run that an event closes.
pub open spec fn closing_root(roots: Map<u128, u128>, event: Event) -> u128 {
    if roots.contains_key(event.uuid) {
        roots[event.uuid]
    } else {
        event.uuid
    }
}

/// An accumulator after an event that closes a run: the run is gone, and everything that belongs to
/// it.
pub open spec fn run_closed<S: Scalar>(before: AccumulatorView<S>, event: Event) -> AccumulatorView<
    S,
> {
    let root = closing_root(before.roots, event);
    let roots = unrooted(before.roots.remove(event.uuid), root);
    AccumulatorView {
        runs: before.runs.remove(root),
        roots,
        calls: unrooted(before.calls, root),
        facts: known(before.facts, roots),
        ..before
    }
}

/// Whether an outcome tells of the run that an event closes, when it was open.
pub open spec fn closing_outcome<S: Scalar>(
    before: AccumulatorView<S>,
    event: Event,
    outcome: RunEventOutcome<S>,
) -> bool {
    let root = closing_root(before.roots, event);
    if before.runs.contains_key(root) {
        &&& outcome.completed_run matches Some(run) && run@ == (RunView {
            ended_at: Some(event.timestamp),
            ..before.runs[root]
        })
        &&& outcome.finished_root_uuid == Some(root)
        &&& outcome.completed_llm_call is None
    } else {
        outcome == no_outcome::<S>()
    }
}

/// The ordinal of the call at a position, starting at one.
pub open spec fn ordinal(position: int) -> u32 {
    let low = position % 0x1_0000_0000;
    if low == u32::MAX {
        u32::MAX
    } else {
        (low + 1) as u32
    }
}

/// Whether `record` is the record of a call that an event starts in a run.
pub open spec fn call_opened_as<S: Scalar>(
    before: AccumulatorView<S>,
    event: Event,
    scope_path: Seq<String>,
    position: int,
    record: CallRecord<S>,
) -> bool {
    &&& started_by(event, scope_path, record)
    &&& record.parent_uuid == event.parent_uuid
    &&& graph_view(record.graph) == graph_inside(before.facts, event.parent_uuid)
    &&& record.run_call_index == Some(ordinal(position))
}

/// Whether `after` is `before` with the call that an event starts added to the run that the event
/// belongs to, when there is one.
pub open spec fn call_opened<S: Scalar>(
    before: AccumulatorView<S>,
    event: Event,
    scope_path: Seq<String>,
    after: AccumulatorView<S>,
) -> bool {
    match run_of(before.roots, event) {
        None => after == before,
        Some(root) => if starts_call(event) && before.runs.contains_key(root) {
            let calls = before.runs[root].calls;
            let record = after.runs[root].calls.last();
            &&& call_opened_as(
                before,
                event,
                scope_path,
                calls.len() as int,
                record,
            )
            &&& after == AccumulatorView {
                runs: before.runs.insert(
                    root,
                    RunView { calls: calls.push(record), ..before.runs[root] },
                ),
                roots: before.roots.insert(event.uuid, root),
                calls: before.calls.insert(
                    event.uuid,
                    CallLocator { root_uuid: root, call_index: calls.len() as usize },
                ),
                ..before
            }
        } else {
            after == AccumulatorView { roots: before.roots.insert(event.uuid, root), ..before }
        },
    }
}

/// Where the call is recorded that an event ends: where its start left it, else the last open call
/// of the run with the event's name.
pub open spec fn ending_call<S: Scalar>(before: AccumulatorView<S>, event: Event, root: u128) -> Option<
    (u128, int),
> {
    let located = before.calls.contains_key(event.uuid) && before.runs.contains_key(
        before.calls[event.uuid].root_uuid,
    ) && before.calls[event.uuid].call_index
        < before.runs[before.calls[event.uuid].root_uuid].calls.len();
    if located {
        Some((before.calls[event.uuid].root_uuid, before.calls[event.uuid].call_index as int))
    } else if before.runs.contains_key(root) {
        match last_open(before.runs[root].calls, event.name@) {
            Some(i) => Some((root, i)),
            None => None,
        }
    } else {
        None
    }
}

/// An accumulator after an event that ends a call.
pub open spec fn call_closed<S: Scalar>(before: AccumulatorView<S>, event: Event) -> AccumulatorView<
    S,
> {
    match run_of(before.roots, event) {
        None => before,
        Some(root) => AccumulatorView {
            runs: match ending_call(before, event, root) {
                Some((r, i)) => before.runs.insert(
                    r,
                    RunView {
                        calls: before.runs[r].calls.update(
                            i,
                            call_ended(before.runs[r].calls[i], event),
                        ),
                        ..before.runs[r]
                    },
                ),
                None => before.runs,
            },
            calls: before.calls.remove(event.uuid),
            roots: before.roots.remove(event.uuid),
            ..before
        },
    }
}

/// Whether an outcome tells of the LLM call that an event ends, and of nothing else.
pub open spec fn call_closed_outcome<S: Scalar>(
    before: AccumulatorView<S>,
    event: Event,
    outcome: RunEventOutcome<S>,
) -> bool {
    &&& outcome.completed_run is None
    &&& outcome.finished_root_uuid is None
    &&& match run_of(before.roots, event) {
        None => outcome.completed_llm_call is None,
        Some(root) => match ending_call(before, event, root) {
            Some((r, i)) => {
                let ended = call_ended(before.runs[r].calls[i], event);
                if ended.kind == CallKind::Llm {
                    outcome.completed_llm_call matches Some(completed) && completed.root_uuid
                        == root && same_call(completed.call, ended)
                } else {
                    outcome.completed_llm_call is None
                }
            },
            None => outcome.completed_llm_call is None,
        },
    }
}

/// An accumulator after an event that opens a scope inside a run.
pub open spec fn scope_opened<S: Scalar>(before: AccumulatorView<S>, event: Event) -> AccumulatorView<
    S,
> {
    match run_of(before.roots, event) {
        None => before,
        Some(root) => AccumulatorView {
            roots: before.roots.insert(event.uuid, root),
            facts: before.facts.insert(event.uuid, facts_of(event)),
            ..before
        },
    }
}

/// An accumulator after an event that closes a scope inside a run.
pub open spec fn scope_closed<S: Scalar>(before: AccumulatorView<S>, event: Event) -> AccumulatorView<
    S,
> {
    AccumulatorView {
        roots: before.roots.remove(event.uuid),
        facts: before.facts.remove(event.uuid),
        ..before
    }
}

/// Whether an event is about the scope of a call.
pub open spec fn about_call(event: Event) -> bool {
    event.scope_type == Some(ScopeType::Tool) || event.scope_type == Some(ScopeType::Llm)
}

/// Whether `after` and `outcome` are what an event makes of `before`.
pub open spec fn event_processed<S: Scalar>(
    before: AccumulatorView<S>,
    event: Event,
    scope_path: Seq<String>,
    after: AccumulatorView<S>,
    outcome: RunEventOutcome<S>,
) -> bool {
    if bounds_run(event) {
        if event.scope_category == Some(ScopeCategory::Start) {
            run_opened(before, event, after) && outcome == no_outcome::<S>()
        } else {
            after == run_closed(before, event) && closing_outcome(before, event, outcome)
        }
    } else if event.scope_category is None || event.scope_type is None {
        after == before && outcome == no_outcome::<S>()
    } else if event.scope_category == Some(ScopeCategory::Start) {
        if about_call(event) {
            call_opened(before, event, scope_path, after) && outcome == no_outcome::<S>()
        } else {
            after == scope_opened(before, event) && outcome == no_outcome::<S>()
        }
    } else {
        if about_call(event) {
            after == call_closed(before, event) && call_closed_outcome(before, event, outcome)
        } else {
            after == scope_closed(before, event) && outcome == no_outcome::<S>()
        }
    }
}

fn nothing<S: Scalar>() -> (r: RunEventOutcome<S>)
    ensures
        r == no_outcome::<S>(),
{
    RunEventOutcome { completed_run: None, completed_llm_call: None, finished_root_uuid: None }
}

fn ordinal_of(position: usize) -> (r: u32)
    ensures
        r == ordinal(position as int),
{
    let low: u32 = (position as u64 % 0x1_0000_0000) as u32;
    if low == u32::MAX {
        low
    } else {
        low + 1
    }
}

impl<S: Scalar> RunAccumulator<S> {
    /// Makes an accumulator without open runs.
    pub fn new(agent_id: String) -> (r: Self)
        ensures
            r@ == (AccumulatorView::<S> {
                agent: agent_id@,
                runs: Map::empty(),
                roots: Map::empty(),
                calls: Map::empty(),
                facts: Map::empty(),
            }),
    {
        let r = RunAccumulator {
            agent_id,
            open_runs: HashMap::new(),
            event_roots: HashMap::new(),
            open_call_index: HashMap::new(),
            scope_facts: HashMap::new(),
        };
        proof {
            assert(r@.runs =~= Map::<u128, RunView<S>>::empty());
            assert(r@.facts =~= Map::<u128, FactsView>::empty());
        }
        r
    }

    /// Counts the open runs.
    pub fn open_run_count(&self) -> (r: usize)
        ensures
            r == self@.runs.dom().len(),
    {
        proof {
            assert(self@.runs.dom() =~= self.open_runs@.dom());
        }
        self.open_runs.len()
    }

    /// Takes an event, and returns the run that it finished, if any.
    pub fn process_event(
        &mut self,
        event: &Event,
        scope_path: &[String],
        ) -> (r: Option<RunRecord<S>>)
        ensures
            exists|outcome: RunEventOutcome<S>| #[trigger]
                event_processed(
                    old(self)@,
                    *event,
                    scope_path@,
                    final(self)@,
                    outcome,
                ) && r == outcome.completed_run,
    {
        self.process_event_outcome(event, scope_path).completed_run
    }

    /// Takes an event.
    pub fn process_event_outcome(
        &mut self,
        event: &Event,
        scope_path: &[String],
        ) -> (r: RunEventOutcome<S>)
        ensures
            event_processed(old(self)@, *event, scope_path@, final(self)@, r),
    {
        if is_run_boundary(event) {
            return match event.scope_category {
                Some(ScopeCategory::Start) => {
                    self.start_run(event);
                    nothing()
                },
                _ => self.finish_run(event),
            };
        }
        match (event.scope_category, event.scope_type) {
            (Some(ScopeCategory::Start), Some(ScopeType::Tool | ScopeType::Llm)) => {
                self.track_call_start(event, scope_path);
                nothing()
            },
            (Some(ScopeCategory::End), Some(ScopeType::Tool | ScopeType::Llm)) => {
                RunEventOutcome {
                    completed_llm_call: self.track_call_end(event),
                    ..nothing()
                }
            },
            (Some(ScopeCategory::Start), Some(_)) => {
                self.track_nested_scope_start(event);
                nothing()
            },
            (Some(ScopeCategory::End), Some(_)) => {
                self.track_nested_scope_end(event);
                nothing()
            },
            _ => nothing(),
        }
    }

    fn start_run(&mut self, event: &Event)
        ensures
            run_opened(old(self)@, *event, final(self)@),
    {
        let root_uuid: u128 = event.uuid;
        let ghost before = self@;
        self.event_roots.insert(root_uuid, root_uuid);
        self.scope_facts.insert(root_uuid, scope_facts(event));
        let run = RunRecord {
            id: fresh_id(),
            agent_id: self.agent_id.clone(),
            calls: Vec::new(),
            started_at: event.timestamp,
            ended_at: None,
        };
        self.open_runs.insert(root_uuid, run);
        proof {
            let after = self@;
            assert(after.runs[event.uuid] == run@);
            assert(after.runs =~= before.runs.insert(event.uuid, run@));
            assert(after.facts =~= before.facts.insert(event.uuid, facts_of(*event)));
            assert(run@.calls =~= Seq::<CallRecord<S>>::empty());
        }
    }

    fn finish_run(&mut self, event: &Event) -> (r: RunEventOutcome<S>)
        ensures
            final(self)@ == run_closed(old(self)@, *event),
            closing_outcome(old(self)@, *event, r),
    {
        let ghost before = self@;
        let root_uuid: u128 = match self.event_roots.remove(&event.uuid) {
            Some(root_uuid) => root_uuid,
            None => event.uuid,
        };
        drop_rooted(&mut self.open_call_index, root_uuid);
        drop_rooted(&mut self.event_roots, root_uuid);
        keep_known(&mut self.scope_facts, &self.event_roots);
        let run = self.open_runs.remove(&root_uuid);
        proof {
            assert(self@.runs =~= before.runs.remove(root_uuid));
            assert(self@.facts =~= known(before.facts, self@.roots));
        }
        match run {
            Some(run) => {
                let mut run = run;
                run.ended_at = Some(event.timestamp);
                RunEventOutcome {
                    completed_run: Some(run),
                    completed_llm_call: None,
                    finished_root_uuid: Some(root_uuid),
                }
            },
            None => nothing(),
        }
    }

    fn track_nested_scope_start(&mut self, event: &Event)
        ensures
            final(self)@ == scope_opened(old(self)@, *event),
    {
        let ghost before = self@;
        if let Some(root_uuid) = self.infer_root_uuid(event) {
            self.event_roots.insert(event.uuid, root_uuid);
            self.scope_facts.insert(event.uuid, scope_facts(event));
            proof {
                assert(self@.facts =~= before.facts.insert(event.uuid, facts_of(*event)));
            }
        }
    }

    fn track_nested_scope_end(&mut self, event: &Event)
        ensures
            final(self)@ == scope_closed(old(self)@, *event),
    {
        let ghost before = self@;
        let _ = self.event_roots.remove(&event.uuid);
        let _ = self.scope_facts.remove(&event.uuid);
        proof {
            assert(self@.facts =~= before.facts.remove(event.uuid));
        }
    }

    fn track_call_start(
        &mut self,
        event: &Event,
        scope_path: &[String],
        )
        ensures
            call_opened(old(self)@, *event, scope_path@, final(self)@),
    {
        let ghost before = self@;
        let root_uuid: u128 = match self.infer_root_uuid(event) {
            Some(root_uuid) => root_uuid,
            None => {
                return;
            },
        };
        let graph = self.graph_call_context(event.parent_uuid);
        self.event_roots.insert(event.uuid, root_uuid);
        let started: Option<CallRecord<S>> = event_to_call_record(event, scope_path);
        if let Some(mut record) = started {
            if let Some(mut run) = self.open_runs.remove(&root_uuid) {
                let call_index: usize = run.calls.len();
                record.parent_uuid = event.parent_uuid;
                record.graph = graph;
                record.run_call_index = Some(ordinal_of(call_index));
                let ghost old_run = run@;
                run.calls.push(record);
                proof {
                    assert(run@ == (RunView { calls: old_run.calls.push(record), ..old_run }));
                }
                let ghost new_run = run@;
                self.open_runs.insert(root_uuid, run);
                self.open_call_index.insert(
                    event.uuid,
                    CallLocator { root_uuid, call_index },
                );
                proof {
                    assert(self@.runs =~= before.runs.insert(root_uuid, new_run));
                    assert(new_run.calls.last() == record);
                }
            } else {
                proof {
                    assert(self@.runs =~= before.runs);
                }
            }
        }
    }

    fn track_call_end(&mut self, event: &Event) -> (r: Option<CompletedRunCall<S>>)
        ensures
            final(self)@ == call_closed(old(self)@, *event),
            call_closed_outcome(
                old(self)@,
                *event,
                RunEventOutcome {
                    completed_run: None,
                    completed_llm_call: r,
                    finished_root_uuid: None,
                },
            ),
    {
        let ghost before = self@;
        let root_uuid: u128 = match self.infer_root_uuid(event) {
            Some(root_uuid) => root_uuid,
            None => {
                return None;
            },
        };
        let locator = self.open_call_index.remove(&event.uuid);
        let found = self.locate_ending_call(locator, event, root_uuid);
        let mut completed_call: Option<CompletedRunCall<S>> = None;
        if let Some((run_root, call_index)) = found {
            if let Some(mut run) = self.open_runs.remove(&run_root) {
                let ghost old_run = run@;
                run.calls[call_index].ended_at = Some(event.timestamp);
                apply_llm_end_metadata(&mut run.calls[call_index], event);
                let ghost ended = call_ended(old_run.calls[call_index as int], *event);
                proof {
                    assert(run.calls@ =~= old_run.calls.update(call_index as int, ended));
                }
                if run.calls[call_index].kind == CallKind::Llm {
                    completed_call = Some(
                        CompletedRunCall { root_uuid, call: run.calls[call_index].clone() },
                    );
                }
                let ghost new_run = run@;
                self.open_runs.insert(run_root, run);
                proof {
                    assert(self@.runs =~= before.runs.insert(run_root, new_run));
                }
            }
        } else {
            proof {
                assert(self@.runs =~= before.runs);
            }
        }
        let _ = self.event_roots.remove(&event.uuid);
        completed_call
    }

    /// Finds where the call is recorded that an event ends.
    fn locate_ending_call(&self, locator: Option<CallLocator>, event: &Event, root_uuid: u128) -> (r:
        Option<(u128, usize)>)
        ensures
            ({
                let located = locator matches Some(l) && self@.runs.contains_key(l.root_uuid)
                    && l.call_index < self@.runs[l.root_uuid].calls.len();
                if located {
                    r == Some((locator->0.root_uuid, locator->0.call_index))
                } else if self@.runs.contains_key(root_uuid) {
                    match (last_open(self@.runs[root_uuid].calls, event.name@), r) {
                        (Some(i), Some((run_root, call_index))) => run_root == root_uuid
                            && call_index == i && 0 <= i < self@.runs[root_uuid].calls.len(),
                        (None, None) => true,
                        _ => false,
                    }
                } else {
                    r is None
                }
            }),
    {
        if let Some(locator) = locator {
            if let Some(run) = self.open_runs.get(&locator.root_uuid) {
                if locator.call_index < run.calls.len() {
                    return Some((locator.root_uuid, locator.call_index));
                }
            }
        }
        match self.open_runs.get(&root_uuid) {
            Some(run) => match find_open_call(&run.calls, event.name.as_str()) {
                Some(call_index) => Some((root_uuid, call_index)),
                None => None,
            },
            None => None,
        }
    }

    fn infer_root_uuid(&self, event: &Event) -> (r: Option<u128>)
        ensures
            r == run_of(self@.roots, *event),
    {
        if let Some(root_uuid) = self.event_roots.get(&event.uuid) {
            return Some(*root_uuid);
        }
        match event.parent_uuid {
            Some(parent_uuid) => match self.event_roots.get(&parent_uuid) {
                Some(root_uuid) => Some(*root_uuid),
                None => None,
            },
            None => None,
        }
    }

    fn graph_call_context(&self, parent_uuid: Option<u128>) -> (r: Option<GraphCallContext>)
        ensures
            graph_view(r) == graph_inside(self@.facts, parent_uuid),
    {
        let start: u128 = match parent_uuid {
            Some(parent_uuid) => parent_uuid,
            None => {
                return None;
            },
        };
        let mut current_uuid: u128 = start;
        let mut graph_name: Option<String> = None;
        let mut node_name: Option<String> = None;
        let mut task_id: Option<String> = None;
        let mut depends_on_task_ids: Vec<String> = Vec::new();
        let mut hops: usize = MAX_SCOPE_FACT_DEPTH;
        let ghost mut finds = nothing_found();
        let ghost goal = climbed(
            self@.facts,
            start,
            MAX_SCOPE_FACT_DEPTH as nat,
            nothing_found(),
        );
        proof {
            assert(texts(depends_on_task_ids@) =~= Seq::<Seq<char>>::empty());
        }
        let mut climbing = true;
        while climbing
            invariant
                finds == (GraphFinds {
                    graph_name: optional_text(graph_name),
                    node_name: optional_text(node_name),
                    task_id: optional_text(task_id),
                    depends_on: texts(depends_on_task_ids@),
                }),
                climbing ==> goal == climbed(self@.facts, current_uuid, hops as nat, finds),
                !climbing ==> goal == Some(finds),
                parent_uuid == Some(start),
                goal == climbed(
                    self@.facts,
                    start,
                    MAX_SCOPE_FACT_DEPTH as nat,
                    nothing_found(),
                ),
            decreases
                hops,
                if climbing {
                    1int
                } else {
                    0int
                },
        {
            if hops == 0 {
                climbing = false;
            } else {
                let facts = match self.scope_facts.get(&current_uuid) {
                    Some(facts) => facts,
                    None => {
                        return None;
                    },
                };
                let ghost facts_view = facts@;
                proof {
                    assert(self@.facts.contains_key(current_uuid));
                    assert(self@.facts[current_uuid] == facts_view);
                }
                if graph_name.is_none() && facts.is_graph_scope {
                    graph_name = Some(facts.name.clone());
                }
                if task_id.is_none() && facts.is_graph_node {
                    task_id = copy_text(&facts.graph_task_id);
                    depends_on_task_ids = copy_texts(facts.graph_depends_on_task_ids.as_slice());
                    node_name = match &facts.graph_node_name {
                        Some(name) => Some(name.clone()),
                        None => Some(facts.name.clone()),
                    };
                }
                proof {
                    finds = scope_searched(finds, facts_view);
                }
                hops -= 1;
                if graph_name.is_some() && task_id.is_some() && node_name.is_some() {
                    climbing = false;
                } else {
                    match facts.parent_uuid {
                        Some(parent) => {
                            current_uuid = parent;
                        },
                        None => {
                            climbing = false;
                        },
                    }
                }
            }
        }
        match (node_name, task_id) {
            (Some(node_name), Some(task_id)) => Some(
                GraphCallContext { graph_name, node_name, task_id, depends_on_task_ids },
            ),
            _ => None,
        }
    }
}

/// Whether every open call is found where it is said to be recorded.
pub open spec fn calls_located<S: Scalar>(state: AccumulatorView<S>) -> bool {
    forall|scope: u128| #[trigger]
        state.calls.contains_key(scope) ==> {
            let at = state.calls[scope];
            &&& state.runs.contains_key(at.root_uuid)
            &&& at.call_index < state.runs[at.root_uuid].calls.len()
            &&& state.runs[at.root_uuid].calls[at.call_index as int].scope_uuid == scope
        }
}

/// Whether every run holds no more calls than a list can.
pub open spec fn runs_listable<S: Scalar>(state: AccumulatorView<S>) -> bool {
    forall|root: u128| #[trigger]
        state.runs.contains_key(root) ==> state.runs[root].calls.len() <= usize::MAX
}

/// Whether an event opens a run under a scope that already has an open one.
pub open spec fn reopens<S: Scalar>(state: AccumulatorView<S>, event: Event) -> bool {
    &&& bounds_run(event)
    &&& event.scope_category == Some(ScopeCategory::Start)
    &&& state.runs.contains_key(event.uuid)
}

/// As long as no run is opened twice, every open call is found where it is said to be recorded.
pub proof fn law_calls_stay_located<S: Scalar>(
    before: AccumulatorView<S>,
    event: Event,
    scope_path: Seq<String>,
    after: AccumulatorView<S>,
    outcome: RunEventOutcome<S>,
)
    requires
        runs_listable(before),
        calls_located(before),
        !reopens(before, event),
        event_processed(before, event, scope_path, after, outcome),
    ensures
        calls_located(after),
{
    assert forall|scope: u128| #[trigger] after.calls.contains_key(scope) implies {
        let at = after.calls[scope];
        &&& after.runs.contains_key(at.root_uuid)
        &&& at.call_index < after.runs[at.root_uuid].calls.len()
        &&& after.runs[at.root_uuid].calls[at.call_index as int].scope_uuid == scope
    } by {
        if before.calls.contains_key(scope) {
            assert(before.runs.contains_key(before.calls[scope].root_uuid));
        }
        if !bounds_run(event) && about_call(event) {
            match run_of(before.roots, event) {
                Some(root) => {
                    if before.runs.contains_key(root) {
                        assert(before.runs[root].calls.len() <= usize::MAX);
                        lemma_last_open(before.runs[root].calls, event.name@);
                    }
                },
                None => {},
            }
        }
    }
}

/// The last open call with a name is one of the calls.
proof fn lemma_last_open<S: Scalar>(calls: Seq<CallRecord<S>>, name: Seq<char>)
    ensures
        last_open(calls, name) matches Some(i) ==> 0 <= i < calls.len() && open_under(
            calls[i],
            name,
        ),
    decreases calls.len(),
{
    if calls.len() > 0 && !open_under(calls.last(), name) {
        lemma_last_open(calls.drop_last(), name);
    }
}

/// Of an open call that is found where it is said to be recorded, the event that ends it ends that
/// very call.
pub proof fn law_end_meets_its_call<S: Scalar>(
    before: AccumulatorView<S>,
    event: Event,
    root: u128,
)
    requires
        calls_located(before),
        before.calls.contains_key(event.uuid),
        run_of(before.roots, event) == Some(root),
    ensures
        ending_call(before, event, root) matches Some((r, i)) && before.runs.contains_key(r) && 0
            <= i < before.runs[r].calls.len() && before.runs[r].calls[i].scope_uuid == event.uuid
            && call_closed(before, event).runs[r].calls[i].ended_at == Some(event.timestamp),
{
}

/// Once a run is closed, nothing is left that belongs to it, and every other run is as it was.
pub proof fn law_closed_run_leaves_nothing<S: Scalar>(
    before: AccumulatorView<S>,
    event: Event,
    scope: u128,
)
    ensures
        ({
            let root = closing_root(before.roots, event);
            let after = run_closed(before, event);
            &&& !after.runs.contains_key(root)
            &&& after.roots.contains_key(scope) ==> after.roots[scope] != root
            &&& after.calls.contains_key(scope) ==> after.calls[scope].root_uuid != root
            &&& after.facts.contains_key(scope) ==> after.roots.contains_key(scope)
            &&& scope != root && before.runs.contains_key(scope) ==> after.runs.contains_key(scope)
                && after.runs[scope] == before.runs[scope]
        }),
{
}

/// Adds the sample of a completed call to the run's own output lengths, when the cache holds learned
/// ones.
pub fn observe_run_local_osl<S: Scalar>(
    hot_cache: &mut HotCache<S>,
    root_uuid: u128,
    completed_call: &CallRecord<S>,
)
    ensures
        *final(hot_cache) == (HotCache {
            osl_empirical: final(hot_cache).osl_empirical,
            ..*old(hot_cache)
        }),
        match (old(hot_cache).osl_empirical, final(hot_cache).osl_empirical) {
            (Some(before), Some(after)) => exists|now: Timestamp|
                #![trigger call_sample(*completed_call, None, now)]
                run_call_observed(
                    before,
                    root_uuid,
                    *completed_call,
                    now,
                    after,
                    call_sample(*completed_call, None, now) is Some,
                ),
            (before, after) => before is None && after is None,
        },
{
    match &mut hot_cache.osl_empirical {
        Some(state) => {
            let ghost before = *state;
            let sampled = state.observe_run_call(root_uuid, completed_call);
            proof {
                let now = choose|now: Timestamp| #[trigger]
                    run_call_observed(before, root_uuid, *completed_call, now, *state, sampled);
                assert(sampled == (call_sample(*completed_call, None, now) is Some));
            }
        },
        None => {},
    }
}

/// Drops the run's own output lengths.
pub fn clear_run_local_osl<S: Scalar>(hot_cache: &mut HotCache<S>, root_uuid: u128)
    ensures
        *final(hot_cache) == (HotCache {
            osl_empirical: final(hot_cache).osl_empirical,
            ..*old(hot_cache)
        }),
        match (old(hot_cache).osl_empirical, final(hot_cache).osl_empirical) {
            (Some(before), Some(after)) => after.run_contexts@ == without_prefix(
                before.run_contexts@,
                run_prefix(root_uuid),
            ) && after == (OslEmpiricalState { run_contexts: after.run_contexts, ..before }),
            (before, after) => before is None && after is None,
        },
{
    match &mut hot_cache.osl_empirical {
        Some(state) => state.clear_run_contexts(root_uuid),
        None => {},
    }
}

/// A finished run and its root scope.
#[derive(Debug)]
pub struct FinishedRun<S: Scalar> {
    /// Root scope of the run.
    pub root_uuid: Option<u128>,
    /// The run.
    pub run: RunRecord<S>,
}

/// What is to be done next about an event.
#[derive(Debug)]
#[allow(inconsistent_fields)]
pub enum DrainStage<S: Scalar> {
    /// Observe a completed call, then go on.
    ObserveCall {
        /// The call.
        completed: CompletedRunCall<S>,
        /// Run that the event finished.
        finished: Option<FinishedRun<S>>,
    },
    /// Store a finished run.
    StoreRun {
        /// The run.
        finished: FinishedRun<S>,
    },
    /// Let the learners learn from a stored run.
    RunLearners {
        /// The run.
        finished: FinishedRun<S>,
    },
    /// Load the plan anew.
    RefreshPlan {
        /// Root scope of the run.
        root_uuid: Option<u128>,
    },
    /// Clear what was kept for the run while it was open.
    ClearRun {
        /// Root scope of the run.
        root_uuid: u128,
    },
    /// Count the event as done.
    Acknowledge,
    /// Nothing is left to do.
    Done,
}

/// The stage that follows the observation of a call.
pub open spec fn after_observing<S: Scalar>(finished: Option<FinishedRun<S>>) -> DrainStage<S> {
    match finished {
        Some(finished) => DrainStage::StoreRun { finished },
        None => DrainStage::Acknowledge,
    }
}

/// The stage that clears a run, when its root scope is known.
pub open spec fn clearing<S: Scalar>(root_uuid: Option<u128>) -> DrainStage<S> {
    match root_uuid {
        Some(root_uuid) => DrainStage::ClearRun { root_uuid },
        None => DrainStage::Acknowledge,
    }
}

/// The first stage for an outcome.
pub open spec fn stage_for<S: Scalar>(outcome: RunEventOutcome<S>) -> DrainStage<S> {
    let finished = match outcome.completed_run {
        Some(run) => Some(FinishedRun { root_uuid: outcome.finished_root_uuid, run }),
        None => None,
    };
    match outcome.completed_llm_call {
        Some(completed) => DrainStage::ObserveCall { completed, finished },
        None => after_observing(finished),
    }
}

/// The stage after a stage; `succeeded` tells whether the stage did what it should.
pub open spec fn next_stage<S: Scalar>(stage: DrainStage<S>, succeeded: bool) -> DrainStage<S> {
    match stage {
        DrainStage::ObserveCall { finished, .. } => after_observing(finished),
        DrainStage::StoreRun { finished } => if succeeded {
            DrainStage::RunLearners { finished }
        } else {
            clearing(finished.root_uuid)
        },
        DrainStage::RunLearners { finished } => DrainStage::RefreshPlan {
            root_uuid: finished.root_uuid,
        },
        DrainStage::RefreshPlan { root_uuid } => clearing(root_uuid),
        DrainStage::ClearRun { .. } => DrainStage::Acknowledge,
        DrainStage::Acknowledge => DrainStage::Done,
        DrainStage::Done => DrainStage::Done,
    }
}

impl<S: Scalar> DrainStage<S> {
    /// Starts on an outcome.
    pub fn begin(outcome: RunEventOutcome<S>) -> (r: Self)
        ensures
            r == stage_for(outcome),
    {
        let finished = match outcome.completed_run {
            Some(run) => Some(FinishedRun { root_uuid: outcome.finished_root_uuid, run }),
            None => None,
        };
        match outcome.completed_llm_call {
            Some(completed) => DrainStage::ObserveCall { completed, finished },
            None => match finished {
                Some(finished) => DrainStage::StoreRun { finished },
                None => DrainStage::Acknowledge,
            },
        }
    }

    /// Goes on to the next stage; `succeeded` tells whether this one did what it should.
    pub fn advance(self, succeeded: bool) -> (r: Self)
        ensures
            r == next_stage(self, succeeded),
    {
        match self {
            DrainStage::ObserveCall { finished, .. } => match finished {
                Some(finished) => DrainStage::StoreRun { finished },
                None => DrainStage::Acknowledge,
            },
            DrainStage::StoreRun { finished } => if succeeded {
                DrainStage::RunLearners { finished }
            } else {
                match finished.root_uuid {
                    Some(root_uuid) => DrainStage::ClearRun { root_uuid },
                    None => DrainStage::Acknowledge,
                }
            },
            DrainStage::RunLearners { finished } => DrainStage::RefreshPlan {
                root_uuid: finished.root_uuid,
            },
            DrainStage::RefreshPlan { root_uuid } => match root_uuid {
                Some(root_uuid) => DrainStage::ClearRun { root_uuid },
                None => DrainStage::Acknowledge,
            },
            DrainStage::ClearRun { .. } => DrainStage::Acknowledge,
            DrainStage::Acknowledge => DrainStage::Done,
            DrainStage::Done => DrainStage::Done,
        }
    }
}

/// How far a stage is from the end.
pub open spec fn stages_left<S: Scalar>(stage: DrainStage<S>) -> nat {
    match stage {
        DrainStage::ObserveCall { .. } => 6,
        DrainStage::StoreRun { .. } => 5,
        DrainStage::RunLearners { .. } => 4,
        DrainStage::RefreshPlan { .. } => 3,
        DrainStage::ClearRun { .. } => 2,
        DrainStage::Acknowledge => 1,
        DrainStage::Done => 0,
    }
}

/// The stages from one to the end, when storing a run succeeds or fails as told.
pub open spec fn course<S: Scalar>(stage: DrainStage<S>, stored: bool) -> Seq<DrainStage<S>>
    decreases stages_left(stage),
{
    if stage is Done {
        Seq::empty()
    } else {
        seq![stage] + course(next_stage(stage, stored), stored)
    }
}

/// Whatever becomes of a run, an event is counted as done once, and last of all.
pub proof fn law_every_event_is_acknowledged_once<S: Scalar>(stage: DrainStage<S>, stored: bool)
    requires
        !(stage is Done),
    ensures
        course(stage, stored).len() > 0,
        course(stage, stored).last() is Acknowledge,
        forall|i: int|
            0 <= i < course(stage, stored).len() - 1 ==> !(#[trigger] course(stage, stored)[i]
                is Acknowledge),
    decreases stages_left(stage),
{
    let next = next_stage(stage, stored);
    let rest = course(next, stored);
    if next is Done {
        assert(course(stage, stored) =~= seq![stage]);
    } else {
        law_every_event_is_acknowledged_once(next, stored);
        assert(course(stage, stored) =~= seq![stage] + rest);
        assert forall|i: int| 0 <= i < course(stage, stored).len() - 1 implies !(
        #[trigger] course(stage, stored)[i] is Acknowledge) by {
            if i > 0 {
                assert(course(stage, stored)[i] == rest[i - 1]);
            }
        }
    }
}

/// Learners run on a finished run exactly when it was stored, and what was kept for it while it was
/// open is cleared whether it was or not.
pub proof fn law_finished_run_takes_its_course<S: Scalar>(
    outcome: RunEventOutcome<S>,
    root_uuid: u128,
    stored: bool,
)
    requires
        outcome.completed_run is Some,
        outcome.completed_llm_call is None,
        outcome.finished_root_uuid == Some(root_uuid),
    ensures
        ({
            let finished = FinishedRun {
                root_uuid: Some(root_uuid),
                run: outcome.completed_run->0,
            };
            course(stage_for(outcome), stored) == if stored {
                seq![
                    DrainStage::StoreRun { finished },
                    DrainStage::RunLearners { finished },
                    DrainStage::RefreshPlan { root_uuid: Some(root_uuid) },
                    DrainStage::ClearRun { root_uuid },
                    DrainStage::Acknowledge,
                ]
            } else {
                seq![
                    DrainStage::StoreRun { finished },
                    DrainStage::ClearRun { root_uuid },
                    DrainStage::Acknowledge,
                ]
            }
        }),
{
    reveal_with_fuel(course, 6);
    let finished = FinishedRun { root_uuid: Some(root_uuid), run: outcome.completed_run->0 };
    let stage = stage_for(outcome);
    assert(stage == DrainStage::StoreRun { finished });
    if stored {
        assert(course(stage, stored) =~= seq![
            DrainStage::StoreRun { finished },
            DrainStage::RunLearners { finished },
            DrainStage::RefreshPlan { root_uuid: Some(root_uuid) },
            DrainStage::ClearRun { root_uuid },
            DrainStage::Acknowledge,
        ]);
    } else {
        assert(course(stage, stored) =~= seq![
            DrainStage::StoreRun { finished },
            DrainStage::ClearRun { root_uuid },
            DrainStage::Acknowledge,
        ]);
    }
}

/// The number that a backend reported under a key, and never one below zero.
pub open spec fn reports(timing: Map<Seq<char>, Value>, key: Seq<char>, ms: Option<Fixed>) -> bool {
    if timing.contains_key(key) && float_bits_of(timing[key]) is Some {
        let told = Fixed::decoded(float_bits_of(timing[key])->0).millionths;
        if i64::MIN < told < i64::MAX {
            ms == Some(
                Fixed {
                    millionths: if told < 0 {
                        0
                    } else {
                        told
                    },
                },
            )
        } else {
            ms is None
        }
    } else {
        ms is None
    }
}

/// The timing of a call is what the backend put under the timing of its extension, each number under
/// its own name.
pub proof fn law_timing_is_what_was_reported(
    extra: Map<Seq<char>, Value>,
    extension: Map<Seq<char>, Value>,
    timing: Map<Seq<char>, Value>,
)
    requires
        extra.contains_key("nvext"@) && json_view(extra["nvext"@]) == JsonView::Object(extension),
        extension.contains_key("timing"@) && json_view(extension["timing"@]) == JsonView::Object(
            timing,
        ),
    ensures
        match timing_of::<Fixed>(extra) {
            Some(told) => {
                &&& reports(timing, "prefill_wait_time_ms"@, told.prefill_wait_time_ms)
                &&& reports(timing, "prefill_time_ms"@, told.prefill_time_ms)
                &&& reports(timing, "ttft_ms"@, told.ttft_ms)
                &&& reports(timing, "total_time_ms"@, told.total_time_ms)
                &&& reports(timing, "router_queue_depth"@, told.router_queue_depth)
            },
            None => {
                &&& reports(timing, "prefill_wait_time_ms"@, None)
                &&& reports(timing, "prefill_time_ms"@, None)
                &&& reports(timing, "ttft_ms"@, None)
                &&& reports(timing, "total_time_ms"@, None)
                &&& reports(timing, "router_queue_depth"@, None)
            },
        },
{
}

/// A response without a timing of the backend leaves the call without one.
pub proof fn law_no_timing_without_a_report<S: Scalar>(extra: Map<Seq<char>, Value>)
    requires
        !extra.contains_key("nvext"@) || !(json_view(extra["nvext"@]) is Object) || {
            let extension = json_view(extra["nvext"@])->Object_0;
            !extension.contains_key("timing"@) || !(json_view(extension["timing"@]) is Object)
        },
    ensures
        timing_of::<S>(extra) is None,
{
}

/// The end of an LLM call is noted in the record that its start left: when it ended, what the response
/// says of tokens, model, tool calls and why it stopped, and what the backend reported. Everything
/// that the start left stays. The outcome hands the call out under the root of its run.
#[verifier::spinoff_prover]
#[verifier::rlimit(40)]
pub proof fn law_response_is_recorded<S: Scalar>(
    before: AccumulatorView<S>,
    event: Event,
    scope_path: Seq<String>,
    after: AccumulatorView<S>,
    outcome: RunEventOutcome<S>,
    response: AnnotatedLlmResponse,
)
    requires
        event_processed(before, event, scope_path, after, outcome),
        calls_located(before),
        before.calls.contains_key(event.uuid),
        before.roots.contains_key(event.uuid),
        before.runs.contains_key(before.roots[event.uuid]),
        event.scope_category == Some(ScopeCategory::End),
        event.scope_type == Some(ScopeType::Llm),
        event.category matches Some(category) && category@ == "llm"@,
        event.annotated_response matches Some(told) && *told == response,
        before.runs[before.calls[event.uuid].root_uuid].calls[before.calls[event.uuid].call_index as int].kind
            == CallKind::Llm,
    ensures
        ({
            let at = before.calls[event.uuid];
            let was = before.runs[at.root_uuid].calls[at.call_index as int];
            let call = after.runs[at.root_uuid].calls[at.call_index as int];
            &&& was.scope_uuid == event.uuid
            &&& after.runs.contains_key(at.root_uuid)
            &&& after.runs[at.root_uuid].calls.len() == before.runs[at.root_uuid].calls.len()
            &&& forall|i: int|
                0 <= i < after.runs[at.root_uuid].calls.len() && i != at.call_index
                    ==> #[trigger] after.runs[at.root_uuid].calls[i]
                    == before.runs[at.root_uuid].calls[i]
            &&& call.ended_at == Some(event.timestamp)
            &&& call.annotated_response == event.annotated_response
            &&& call.model_name == response.model
            &&& call.finish_reason == response.finish_reason
            &&& response.tool_calls is None ==> call.tool_call_count is None
            &&& response.tool_calls matches Some(asked) ==> (asked@.len() <= u32::MAX
                ==> call.tool_call_count == Some(asked@.len() as u32))
            &&& response.usage matches Some(usage) ==> {
                &&& usage.completion_tokens is None ==> call.output_tokens is None
                &&& usage.prompt_tokens is None ==> call.prompt_tokens is None
                &&& usage.total_tokens is None ==> call.total_tokens is None
                &&& usage.completion_tokens matches Some(n) ==> (n <= u32::MAX
                    ==> call.output_tokens == Some(n as u32))
                &&& usage.prompt_tokens matches Some(n) ==> (n <= u32::MAX ==> call.prompt_tokens
                    == Some(n as u32))
                &&& usage.total_tokens matches Some(n) ==> (n <= u32::MAX ==> call.total_tokens
                    == Some(n as u32))
            }
            &&& call.backend_timing == timing_of::<S>(json_entries(response.extra))
            &&& call.kind == was.kind && call.name == was.name
            &&& call.started_at == was.started_at && call.scope_uuid == was.scope_uuid
            &&& call.annotated_request == was.annotated_request
            &&& call.function_path == was.function_path && call.graph == was.graph
            &&& call.adaptive_hints == was.adaptive_hints && call.run_call_index
                == was.run_call_index
            &&& call.parent_uuid == was.parent_uuid && call.tool_call_id == was.tool_call_id
            &&& outcome.completed_llm_call matches Some(completed) && completed.root_uuid
                == before.roots[event.uuid] && same_call(completed.call, call)
            &&& outcome.completed_run is None
            &&& !after.calls.contains_key(event.uuid) && !after.roots.contains_key(event.uuid)
            &&& forall|root: u128|
                root != at.root_uuid && #[trigger] before.runs.contains_key(root)
                    ==> after.runs.contains_key(root) && after.runs[root] == before.runs[root]
        }),
{
    let at = before.calls[event.uuid];
    assert(before.runs.contains_key(at.root_uuid));
}

/// The end of a tool call is noted in the record that its start left, and hands nothing out.
pub proof fn law_tool_end_is_recorded<S: Scalar>(
    before: AccumulatorView<S>,
    event: Event,
    scope_path: Seq<String>,
    after: AccumulatorView<S>,
    outcome: RunEventOutcome<S>,
)
    requires
        event_processed(before, event, scope_path, after, outcome),
        calls_located(before),
        before.calls.contains_key(event.uuid),
        before.roots.contains_key(event.uuid),
        event.scope_category == Some(ScopeCategory::End),
        event.scope_type == Some(ScopeType::Tool),
        event.category matches Some(category) && category@ != "llm"@,
        before.runs[before.calls[event.uuid].root_uuid].calls[before.calls[event.uuid].call_index as int].kind
            == CallKind::Tool,
    ensures
        ({
            let at = before.calls[event.uuid];
            let was = before.runs[at.root_uuid].calls[at.call_index as int];
            &&& after.runs[at.root_uuid].calls[at.call_index as int] == (CallRecord {
                ended_at: Some(event.timestamp),
                ..was
            })
            &&& outcome.completed_llm_call is None && outcome.completed_run is None
            &&& !after.calls.contains_key(event.uuid)
        }),
{
    let at = before.calls[event.uuid];
    assert(before.runs.contains_key(at.root_uuid));
}

/// The start of a call is recorded at the end of the run that its enclosing scope belongs to, numbered
/// from one in the order of the starts, and the end of the call will be met there.
pub proof fn law_calls_join_their_run<S: Scalar>(
    before: AccumulatorView<S>,
    event: Event,
    scope_path: Seq<String>,
    after: AccumulatorView<S>,
    outcome: RunEventOutcome<S>,
    parent: u128,
)
    requires
        event_processed(before, event, scope_path, after, outcome),
        event.scope_category == Some(ScopeCategory::Start),
        event.scope_type == Some(ScopeType::Llm) || event.scope_type == Some(ScopeType::Tool),
        starts_call(event),
        !before.roots.contains_key(event.uuid),
        event.parent_uuid == Some(parent),
        before.roots.contains_key(parent),
        before.runs.contains_key(before.roots[parent]),
        before.runs[before.roots[parent]].calls.len() < u32::MAX,
    ensures
        ({
            let root = before.roots[parent];
            let calls = before.runs[root].calls;
            let run = after.runs[root];
            &&& after.runs.contains_key(root)
            &&& run.calls.len() == calls.len() + 1
            &&& forall|i: int| 0 <= i < calls.len() ==> #[trigger] run.calls[i] == calls[i]
            &&& started_by(event, scope_path, run.calls[calls.len() as int])
            &&& run.calls[calls.len() as int].run_call_index == Some((calls.len() + 1) as u32)
            &&& run.calls[calls.len() as int].parent_uuid == Some(parent)
            &&& graph_view(run.calls[calls.len() as int].graph) == graph_inside(
                before.facts,
                Some(parent),
            )
            &&& after.facts == before.facts && after.agent == before.agent
            &&& run.id == before.runs[root].id && run.started_at == before.runs[root].started_at
            &&& after.roots.contains_key(event.uuid) && after.roots[event.uuid] == root
            &&& after.calls.contains_key(event.uuid) && after.calls[event.uuid].root_uuid == root
            &&& after.calls[event.uuid].call_index == calls.len()
            &&& outcome.completed_run is None && outcome.completed_llm_call is None
        }),
{
    assert(calls_fit(before.runs[before.roots[parent]].calls.len() as int));
}

spec fn calls_fit(n: int) -> bool {
    0 <= n < u32::MAX ==> n <= usize::MAX
}

/// A scope that opens inside a run belongs to the run, and what opens inside that scope too.
pub proof fn law_scopes_join_their_run<S: Scalar>(
    before: AccumulatorView<S>,
    event: Event,
    scope_path: Seq<String>,
    after: AccumulatorView<S>,
    outcome: RunEventOutcome<S>,
    parent: u128,
)
    requires
        event_processed(before, event, scope_path, after, outcome),
        !bounds_run(event),
        event.scope_category == Some(ScopeCategory::Start),
        event.scope_type is Some,
        !before.roots.contains_key(event.uuid),
        event.parent_uuid == Some(parent),
        before.roots.contains_key(parent),
    ensures
        after.roots.contains_key(event.uuid),
        after.roots[event.uuid] == before.roots[parent],
        after.roots.contains_key(parent) && after.roots[parent] == before.roots[parent],
        event.scope_type != Some(ScopeType::Llm) && event.scope_type != Some(ScopeType::Tool) ==> {
            &&& after.facts.contains_key(event.uuid)
            &&& after.facts[event.uuid] == facts_of(event)
            &&& after.runs == before.runs
        },
{
}

/// The facts of an open scope are its name, the scope around it and what its metadata says of graphs.
pub proof fn law_scope_facts_are_told(event: Event, metadata: Value)
    requires
        event.metadata == Some(metadata),
    ensures
        ({
            let facts = facts_of(event);
            let node = member(json_view(metadata), "nemo_flow.graph.node"@);
            let graph = member(json_view(metadata), "nemo_flow.graph.scope"@);
            let task = member(json_view(metadata), "nemo_flow.graph.task_id"@);
            let name = member(json_view(metadata), "nemo_flow.graph.node_name"@);
            &&& facts.parent == event.parent_uuid
            &&& facts.name == event.name@
            &&& facts.is_graph_node <==> node is Some && json_view(node->0) == JsonView::Bool(true)
            &&& facts.is_graph_scope <==> graph is Some && json_view(graph->0) == JsonView::Bool(
                true,
            )
            &&& facts.task_id is Some <==> task is Some && json_view(task->0) is Text
            &&& facts.task_id is Some ==> json_view(task->0) == JsonView::Text(facts.task_id->0)
            &&& facts.node_name is Some <==> name is Some && json_view(name->0) is Text
            &&& facts.node_name is Some ==> json_view(name->0) == JsonView::Text(
                facts.node_name->0,
            )
            &&& facts.depends_on == words_of(
                Some(metadata),
                "nemo_flow.graph.depends_on_task_ids"@,
            )
        }),
{
}

/// A scope that is closed is forgotten, and nothing else is.
pub proof fn law_closed_scopes_are_forgotten<S: Scalar>(
    before: AccumulatorView<S>,
    event: Event,
    scope_path: Seq<String>,
    after: AccumulatorView<S>,
    outcome: RunEventOutcome<S>,
    other: u128,
)
    requires
        event_processed(before, event, scope_path, after, outcome),
        !bounds_run(event),
        event.scope_category == Some(ScopeCategory::End),
        event.scope_type is Some,
        event.scope_type != Some(ScopeType::Llm) && event.scope_type != Some(ScopeType::Tool),
        other != event.uuid,
    ensures
        !after.roots.contains_key(event.uuid) && !after.facts.contains_key(event.uuid),
        before.roots.contains_key(other) ==> after.roots.contains_key(other) && after.roots[other]
            == before.roots[other],
        before.facts.contains_key(other) ==> after.facts.contains_key(other) && after.facts[other]
            == before.facts[other],
        after.runs == before.runs && after.calls == before.calls,
        outcome.completed_run is None && outcome.completed_llm_call is None,
{
}

/// An agent that opens a run begins it empty, under its own scope and for the accumulator's agent.
/// Once the agent's scope is closed, the run is handed out with the calls that were recorded in it.
pub proof fn law_closed_run_is_handed_out<S: Scalar>(
    before: AccumulatorView<S>,
    event: Event,
    scope_path: Seq<String>,
    after: AccumulatorView<S>,
    outcome: RunEventOutcome<S>,
)
    requires
        event_processed(before, event, scope_path, after, outcome),
        bounds_run(event),
    ensures
        event.scope_category == Some(ScopeCategory::Start) ==> {
            let run = after.runs[event.uuid];
            &&& after.runs.contains_key(event.uuid)
            &&& run.calls.len() == 0
            &&& run.started_at == event.timestamp
            &&& run.ended_at is None
            &&& run.agent == before.agent
            &&& after.roots.contains_key(event.uuid) && after.roots[event.uuid] == event.uuid
            &&& outcome.completed_run is None
        },
        event.scope_category == Some(ScopeCategory::End) && before.roots.contains_key(event.uuid)
            && before.roots[event.uuid] == event.uuid && before.runs.contains_key(event.uuid) ==> {
            let was = before.runs[event.uuid];
            &&& outcome.completed_run matches Some(run) && run.calls@ == was.calls && run.id
                == was.id && run.agent_id@ == was.agent && run.started_at == was.started_at
                && run.ended_at == Some(event.timestamp)
            &&& outcome.finished_root_uuid == Some(event.uuid)
            &&& !after.runs.contains_key(event.uuid)
        },
{
}

/// An end that no start was met for ends the last open call of its name, and no other.
pub proof fn law_last_open_call_of_a_name<S: Scalar>(
    calls: Seq<CallRecord<S>>,
    name: Seq<char>,
    i: int,
)
    requires
        0 <= i < calls.len(),
        calls[i].ended_at is None && calls[i].name@ == name,
        forall|j: int|
            i < j < calls.len() ==> (#[trigger] calls[j]).ended_at is Some || calls[j].name@
                != name,
    ensures
        last_open(calls, name) == Some(i),
    decreases calls.len(),
{
    if i < calls.len() - 1 {
        assert(calls[calls.len() - 1].ended_at is Some || calls[calls.len() - 1].name@ != name);
        law_last_open_call_of_a_name(calls.drop_last(), name, i);
    }
}

/// Whether `chain` are scopes from the inside out, each known and enclosed by the next, the last one
/// by none.
pub open spec fn enclosing(facts: Map<u128, FactsView>, chain: Seq<u128>) -> bool {
    &&& forall|i: int| 0 <= i < chain.len() ==> facts.contains_key(#[trigger] chain[i])
    &&& forall|i: int, j: int|
        0 <= i && j == i + 1 && j < chain.len() ==> facts[#[trigger] chain[i]].parent == Some(
            #[trigger] chain[j],
        )
    &&& chain.len() > 0 ==> facts[chain.last()].parent is None
}

/// Whether a scope is a graph node with a task.
pub open spec fn has_task(facts: FactsView) -> bool {
    facts.is_graph_node && facts.task_id is Some
}

/// A call made inside scopes belongs to the task of the innermost graph node with a task, under the
/// name of that node and with the tasks that it waited for, and to the innermost graph.
pub proof fn law_calls_belong_to_the_nearest_task(
    facts: Map<u128, FactsView>,
    chain: Seq<u128>,
    k: int,
    g: int,
)
    requires
        0 < chain.len() <= 64,
        enclosing(facts, chain),
        0 <= k < chain.len(),
        has_task(facts[chain[k]]),
        forall|i: int| 0 <= i < k ==> !has_task(facts[#[trigger] chain[i]]),
        0 <= g <= chain.len(),
        g < chain.len() ==> facts[chain[g]].is_graph_scope,
        forall|i: int| 0 <= i < g ==> !facts[#[trigger] chain[i]].is_graph_scope,
    ensures
        ({
            let node = facts[chain[k]];
            graph_inside(facts, Some(chain[0])) == Some(
                GraphView {
                    graph_name: if g < chain.len() {
                        Some(facts[chain[g]].name)
                    } else {
                        None
                    },
                    node_name: match node.node_name {
                        Some(name) => name,
                        None => node.name,
                    },
                    task_id: node.task_id->0,
                    depends_on: node.depends_on,
                },
            )
        }),
{
    lemma_climb(facts, chain, 0, k, g, 64, nothing_found());
}

/// A call made inside scopes of which none is a graph node with a task belongs to no graph.
pub proof fn law_no_graph_without_a_task(facts: Map<u128, FactsView>, chain: Seq<u128>)
    requires
        0 < chain.len() <= 64,
        enclosing(facts, chain),
        forall|i: int| 0 <= i < chain.len() ==> !has_task(facts[#[trigger] chain[i]]),
    ensures
        graph_inside(facts, Some(chain[0])) is None,
        graph_inside(facts, None) is None,
{
    lemma_climb_without_task(facts, chain, 0, 64, nothing_found());
}

#[verifier::spinoff_prover]
#[verifier::rlimit(40)]
proof fn lemma_climb(
    facts: Map<u128, FactsView>,
    chain: Seq<u128>,
    i: int,
    k: int,
    g: int,
    hops: nat,
    finds: GraphFinds,
)
    requires
        0 <= i < chain.len(),
        chain.len() - i <= hops,
        enclosing(facts, chain),
        0 <= k < chain.len(),
        has_task(facts[chain[k]]),
        forall|j: int| 0 <= j < k ==> !has_task(facts[#[trigger] chain[j]]),
        0 <= g <= chain.len(),
        g < chain.len() ==> facts[chain[g]].is_graph_scope,
        forall|j: int| 0 <= j < g ==> !facts[#[trigger] chain[j]].is_graph_scope,
        i <= k ==> finds.task_id is None,
        i > k ==> finds.task_id == facts[chain[k]].task_id && finds.depends_on
            == facts[chain[k]].depends_on && finds.node_name == Some(
            match facts[chain[k]].node_name {
                Some(name) => name,
                None => facts[chain[k]].name,
            },
        ),
        i <= g ==> finds.graph_name is None,
        i > g ==> finds.graph_name == Some(facts[chain[g]].name),
    ensures
        climbed(facts, chain[i], hops, finds) matches Some(f) && f.task_id
            == facts[chain[k]].task_id && f.depends_on == facts[chain[k]].depends_on
            && f.node_name == Some(
            match facts[chain[k]].node_name {
                Some(name) => name,
                None => facts[chain[k]].name,
            },
        ) && f.graph_name == if g < chain.len() {
            Some(facts[chain[g]].name)
        } else {
            None
        },
    decreases chain.len() - i,
{
    let here = facts[chain[i]];
    assert(facts.contains_key(chain[i]));
    assert(i < k ==> !has_task(here));
    assert(i < g ==> !here.is_graph_scope);
    let now = scope_searched(finds, here);
    if !settled(now) && i + 1 < chain.len() {
        assert(here.parent == Some(chain[i + 1]));
        lemma_climb(facts, chain, i + 1, k, g, (hops - 1) as nat, now);
    }
}

proof fn lemma_climb_without_task(
    facts: Map<u128, FactsView>,
    chain: Seq<u128>,
    i: int,
    hops: nat,
    finds: GraphFinds,
)
    requires
        0 <= i < chain.len(),
        chain.len() - i <= hops,
        enclosing(facts, chain),
        forall|j: int| 0 <= j < chain.len() ==> !has_task(facts[#[trigger] chain[j]]),
        finds.task_id is None,
    ensures
        climbed(facts, chain[i], hops, finds) matches Some(f) && f.task_id is None,
    decreases chain.len() - i,
{
    let here = facts[chain[i]];
    assert(facts.contains_key(chain[i]));
    assert(!has_task(here));
    let now = scope_searched(finds, here);
    if i + 1 < chain.len() {
        assert(here.parent == Some(chain[i + 1]));
        lemma_climb_without_task(facts, chain, i + 1, (hops - 1) as nat, now);
    }
}

/// A completed call is observed before anything else is done about the event that completed it.
pub proof fn law_completed_calls_are_observed_first<S: Scalar>(
    outcome: RunEventOutcome<S>,
    stored: bool,
)
    requires
        outcome.completed_llm_call is Some,
    ensures
        ({
            let stages = course(stage_for(outcome), stored);
            &&& stages.len() >= 2
            &&& stages[0] is ObserveCall
            &&& stages[0]->completed == outcome.completed_llm_call->0
            &&& outcome.completed_run is None ==> stages.len() == 2 && stages[1] is Acknowledge
            &&& outcome.completed_run matches Some(run) ==> stages[1] is StoreRun
                && stages[1]->StoreRun_finished.run == run
        }),
{
    reveal_with_fuel(course, 3);
    let stage = stage_for(outcome);
    let next = next_stage(stage, stored);
    assert(course(stage, stored) =~= seq![stage] + course(next, stored));
    assert(course(next, stored) =~= seq![next] + course(next_stage(next, stored), stored));
}

} // verus!
