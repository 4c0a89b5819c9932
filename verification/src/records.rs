//! Run and call record types collected by the adaptive telemetry pipeline.
use crate::feedback::{feedback_form, feedback_read, is_form_of, law_form_reads_back, read_feedback_form};
use crate::json::{json_empty_object, json_entries, json_get, json_get_mut, json_insert, json_object, json_object_mut, json_view, member, JsonView};
use crate::request::{copy_finish_reason, AnnotatedLlmRequest, AnnotatedLlmResponse, FinishReason};
use crate::scalar::Scalar;
use crate::text::{copy_text, copy_texts, optional_text};
use crate::time::Timestamp;
use serde_json::Value;
use std::sync::Arc;
use vstd::prelude::*;

verus! {

/// Member of a request's extra fields that holds runtime-internal data.
pub const NEMO_FLOW_INTERNAL_EXTRA_KEY: &'static str = "_nemo_flow_internal";

/// Member of the runtime-internal data that holds the adaptive feedback.
pub const ADAPTIVE_HINTS_EXTRA_KEY: &'static str = "adaptive_hints";

/// Compact backend timing extracted from an annotated LLM response.
#[derive(Debug, PartialEq)]
pub struct BackendTiming<S: Scalar> {
    /// Backend admission/prefill queue wait in milliseconds, when provided.
    pub prefill_wait_time_ms: Option<S>,
    /// Backend prefill execution time in milliseconds, when provided.
    pub prefill_time_ms: Option<S>,
    /// Backend time-to-first-token in milliseconds, when provided.
    pub ttft_ms: Option<S>,
    /// Backend total request time in milliseconds, when provided.
    pub total_time_ms: Option<S>,
    /// Router queue depth reported by the backend, when provided.
    pub router_queue_depth: Option<S>,
}

impl<S: Scalar> Clone for BackendTiming<S> {
    fn clone(&self) -> (r: Self)
        ensures
            r == *self,
    {
        *self
    }
}

impl<S: Scalar> Copy for BackendTiming<S> {

}

impl<S: Scalar> BackendTiming<S> {
    /// No timing field is present.
    pub open spec fn blank(self) -> bool {
        &&& self.prefill_wait_time_ms is None
        &&& self.prefill_time_ms is None
        &&& self.ttft_ms is None
        &&& self.total_time_ms is None
        &&& self.router_queue_depth is None
    }

    /// Whether no timing fields are present.
    pub fn is_empty(&self) -> (r: bool)
        ensures
            r == self.blank(),
    {
        self.prefill_wait_time_ms.is_none() && self.prefill_time_ms.is_none()
            && self.ttft_ms.is_none() && self.total_time_ms.is_none()
            && self.router_queue_depth.is_none()
    }
}

impl<S: Scalar> Default for BackendTiming<S> {
    fn default() -> (r: Self)
        ensures
            r.blank(),
    {
        BackendTiming {
            prefill_wait_time_ms: None,
            prefill_time_ms: None,
            ttft_ms: None,
            total_time_ms: None,
            router_queue_depth: None,
        }
    }
}

/// Adaptive hint feedback captured at request time for learner updates.
#[derive(Debug)]
pub struct CallAdaptiveHints {
    /// Priority residual arm selected on the request path, when adaptive priority is enabled.
    pub selected_priority_residual_arm: Option<u8>,
    /// Context key used for the selected priority residual decision, when present.
    pub selected_priority_residual_key: Option<String>,
    /// Final priority emitted to the backend.
    pub emitted_priority: Option<u32>,
    /// Maximum priority allowed by the structural policy for this call.
    pub priority_cap: Option<u32>,
    /// Empirical OSL source selected on the request path, when empirical OSL is enabled.
    pub selected_osl_source: Option<String>,
    /// Final OSL emitted to the backend after request caps, when present.
    pub emitted_osl: Option<u32>,
    /// Whether the selected empirical OSL context passed confidence.
    pub osl_confidence_passed: Option<bool>,
    /// Number of samples in the selected empirical OSL context.
    pub osl_sample_count: Option<u32>,
}

/// Feedback without any fact in it.
pub open spec fn no_feedback() -> CallAdaptiveHints {
    CallAdaptiveHints {
        selected_priority_residual_arm: None,
        selected_priority_residual_key: None,
        emitted_priority: None,
        priority_cap: None,
        selected_osl_source: None,
        emitted_osl: None,
        osl_confidence_passed: None,
        osl_sample_count: None,
    }
}

impl CallAdaptiveHints {
    /// Whether this feedback record contains no learner-update facts.
    pub fn is_empty(&self) -> (r: bool)
        ensures
            r == (*self == no_feedback()),
            r == (self@ == blank_feedback()),
    {
        self.selected_priority_residual_arm.is_none()
            && self.selected_priority_residual_key.is_none() && self.emitted_priority.is_none()
            && self.priority_cap.is_none() && self.selected_osl_source.is_none()
            && self.emitted_osl.is_none() && self.osl_confidence_passed.is_none()
            && self.osl_sample_count.is_none()
    }
}

impl Default for CallAdaptiveHints {
    fn default() -> (r: Self)
        ensures
            r == no_feedback(),
    {
        CallAdaptiveHints {
            selected_priority_residual_arm: None,
            selected_priority_residual_key: None,
            emitted_priority: None,
            priority_cap: None,
            selected_osl_source: None,
            emitted_osl: None,
            osl_confidence_passed: None,
            osl_sample_count: None,
        }
    }
}

impl Clone for CallAdaptiveHints {
    fn clone(&self) -> (r: Self)
        ensures
            r == *self,
    {
        CallAdaptiveHints {
            selected_priority_residual_arm: self.selected_priority_residual_arm,
            selected_priority_residual_key: copy_text(&self.selected_priority_residual_key),
            emitted_priority: self.emitted_priority,
            priority_cap: self.priority_cap,
            selected_osl_source: copy_text(&self.selected_osl_source),
            emitted_osl: self.emitted_osl,
            osl_confidence_passed: self.osl_confidence_passed,
            osl_sample_count: self.osl_sample_count,
        }
    }
}

/// Feedback in terms of text.
pub struct FeedbackView {
    /// Residual arm.
    pub arm: Option<u8>,
    /// Key of the residual context.
    pub key: Option<Seq<char>>,
    /// Emitted priority.
    pub emitted_priority: Option<u32>,
    /// Priority cap.
    pub priority_cap: Option<u32>,
    /// Source of the output length.
    pub osl_source: Option<Seq<char>>,
    /// Emitted output length.
    pub emitted_osl: Option<u32>,
    /// Whether its samples passed.
    pub osl_confidence_passed: Option<bool>,
    /// How many samples it has.
    pub osl_sample_count: Option<u32>,
}

impl View for CallAdaptiveHints {
    type V = FeedbackView;

    open spec fn view(&self) -> FeedbackView {
        FeedbackView {
            arm: self.selected_priority_residual_arm,
            key: optional_text(self.selected_priority_residual_key),
            emitted_priority: self.emitted_priority,
            priority_cap: self.priority_cap,
            osl_source: optional_text(self.selected_osl_source),
            emitted_osl: self.emitted_osl,
            osl_confidence_passed: self.osl_confidence_passed,
            osl_sample_count: self.osl_sample_count,
        }
    }
}

/// Optional feedback in terms of text.
pub open spec fn feedback_view(feedback: Option<CallAdaptiveHints>) -> Option<FeedbackView> {
    match feedback {
        Some(f) => Some(f@),
        None => None,
    }
}

/// Feedback without any fact in it.
pub open spec fn blank_feedback() -> FeedbackView {
    FeedbackView {
        arm: None,
        key: None,
        emitted_priority: None,
        priority_cap: None,
        osl_source: None,
        emitted_osl: None,
        osl_confidence_passed: None,
        osl_sample_count: None,
    }
}

impl CallAdaptiveHints {
    /// Returns the feedback on the output length alone.
    pub fn only_osl_feedback(&self) -> (r: Self)
        ensures
            r == (CallAdaptiveHints {
                selected_priority_residual_arm: None,
                selected_priority_residual_key: None,
                emitted_priority: None,
                priority_cap: None,
                ..*self
            }),
    {
        CallAdaptiveHints {
            selected_priority_residual_arm: None,
            selected_priority_residual_key: None,
            emitted_priority: None,
            priority_cap: None,
            selected_osl_source: copy_text(&self.selected_osl_source),
            emitted_osl: self.emitted_osl,
            osl_confidence_passed: self.osl_confidence_passed,
            osl_sample_count: self.osl_sample_count,
        }
    }
}

/// The feedback value stored among a request's extra fields.
pub open spec fn stored_feedback(extra: Map<Seq<char>, Value>) -> Option<Value> {
    if extra.contains_key(NEMO_FLOW_INTERNAL_EXTRA_KEY@) {
        member(json_view(extra[NEMO_FLOW_INTERNAL_EXTRA_KEY@]), ADAPTIVE_HINTS_EXTRA_KEY@)
    } else {
        None
    }
}

/// Whether a request's extra fields have room for runtime-internal data: nothing stands in its
/// place, or an object does.
pub open spec fn takes_feedback(extra: Map<Seq<char>, Value>) -> bool {
    extra.contains_key(NEMO_FLOW_INTERNAL_EXTRA_KEY@) ==> json_view(
        extra[NEMO_FLOW_INTERNAL_EXTRA_KEY@],
    ) is Object
}

/// The runtime-internal data among a request's extra fields, empty when there is none.
pub open spec fn internal_data(extra: Map<Seq<char>, Value>) -> Map<Seq<char>, Value> {
    if extra.contains_key(NEMO_FLOW_INTERNAL_EXTRA_KEY@) {
        match json_view(extra[NEMO_FLOW_INTERNAL_EXTRA_KEY@]) {
            JsonView::Object(entries) => entries,
            _ => Map::empty(),
        }
    } else {
        Map::empty()
    }
}

/// Whether `after` are the extra fields `before` with the feedback `value` stored among them.
pub open spec fn feedback_stored(
    before: Map<Seq<char>, Value>,
    after: Map<Seq<char>, Value>,
    value: Value,
) -> bool {
    let key = NEMO_FLOW_INTERNAL_EXTRA_KEY@;
    &&& after == before.insert(key, after[key])
    &&& json_view(after[key]) == JsonView::Object(
        internal_data(before).insert(ADAPTIVE_HINTS_EXTRA_KEY@, value),
    )
}

/// Whether `after` are the extra fields `before` with feedback stored among them in JSON form.
pub open spec fn feedback_written(
    before: Map<Seq<char>, Value>,
    after: Map<Seq<char>, Value>,
    f: FeedbackView,
) -> bool {
    match stored_feedback(after) {
        Some(value) => feedback_stored(before, after, value) && is_form_of(value, f),
        None => false,
    }
}

/// Attach local-only adaptive feedback to an annotated request.
pub fn write_call_adaptive_hints(annotated: &mut AnnotatedLlmRequest, hints: &CallAdaptiveHints)
    ensures
        *final(annotated) == (AnnotatedLlmRequest { extra: final(annotated).extra, ..*old(
            annotated,
        ) }),
        if hints@ != blank_feedback() && takes_feedback(json_entries(old(annotated).extra)) {
            feedback_written(
                json_entries(old(annotated).extra),
                json_entries(final(annotated).extra),
                hints@,
            )
        } else {
            json_entries(final(annotated).extra) == json_entries(old(annotated).extra)
        },
{
    if hints.is_empty() {
        return;
    }
    let value = feedback_form(hints);
    let ghost before = json_entries(annotated.extra);
    let ghost key = NEMO_FLOW_INTERNAL_EXTRA_KEY@;
    if json_get(&annotated.extra, NEMO_FLOW_INTERNAL_EXTRA_KEY).is_none() {
        json_insert(&mut annotated.extra, NEMO_FLOW_INTERNAL_EXTRA_KEY, json_empty_object());
    }
    let internal = match json_get_mut(&mut annotated.extra, NEMO_FLOW_INTERNAL_EXTRA_KEY) {
        Some(internal) => internal,
        None => {
            return;
        },
    };
    match json_object_mut(internal) {
        Some(object) => json_insert(object, ADAPTIVE_HINTS_EXTRA_KEY, value),
        None => {},
    }
    proof {
        let after = json_entries(annotated.extra);
        assert(after =~= before.insert(key, after[key]));
        assert(!takes_feedback(before) ==> after =~= before);
        assert(Map::<Seq<char>, Value>::empty() =~= internal_data(before) || before.contains_key(
            key,
        ));
        if takes_feedback(before) {
            assert(feedback_stored(before, after, value));
            assert(stored_feedback(after) == Some(value));
        }
    }
}

/// The feedback that a request's extra fields carry, unless it says nothing.
pub open spec fn carried_feedback(extra: Map<Seq<char>, Value>) -> Option<FeedbackView> {
    match stored_feedback(extra) {
        Some(value) => if feedback_read(value) == Some(blank_feedback()) {
            None
        } else {
            feedback_read(value)
        },
        None => None,
    }
}

/// Read local-only adaptive feedback from an annotated request.
pub fn read_call_adaptive_hints(annotated: &AnnotatedLlmRequest) -> (r: Option<CallAdaptiveHints>)
    ensures
        feedback_view(r) == carried_feedback(json_entries(annotated.extra)),
{
    let internal = match json_get(&annotated.extra, NEMO_FLOW_INTERNAL_EXTRA_KEY) {
        Some(internal) => internal,
        None => {
            return None;
        },
    };
    let object = match json_object(internal) {
        Some(object) => object,
        None => {
            return None;
        },
    };
    let value = match json_get(object, ADAPTIVE_HINTS_EXTRA_KEY) {
        Some(value) => value,
        None => {
            return None;
        },
    };
    match read_feedback_form(value) {
        Some(hints) => if hints.is_empty() {
            None
        } else {
            Some(hints)
        },
        None => None,
    }
}

/// Feedback that was written to a request is read from it again, equal in every fact. Writing leaves
/// every other member of the extra fields, and of the runtime-internal data among them, as it was.
pub proof fn law_feedback_reads_back(
    before: Map<Seq<char>, Value>,
    after: Map<Seq<char>, Value>,
    f: FeedbackView,
    other: Seq<char>,
)
    requires
        f != blank_feedback(),
        takes_feedback(before),
        feedback_written(before, after, f),
    ensures
        carried_feedback(after) == Some(f),
        other != NEMO_FLOW_INTERNAL_EXTRA_KEY@ ==> (after.contains_key(other)
            <==> before.contains_key(other)),
        other != NEMO_FLOW_INTERNAL_EXTRA_KEY@ && before.contains_key(other) ==> after[other]
            == before[other],
        other != ADAPTIVE_HINTS_EXTRA_KEY@ ==> (internal_data(after).contains_key(other)
            <==> internal_data(before).contains_key(other)),
        other != ADAPTIVE_HINTS_EXTRA_KEY@ && internal_data(before).contains_key(other)
            ==> internal_data(after)[other] == internal_data(before)[other],
{
    law_form_reads_back(stored_feedback(after)->0, f);
}

/// Kind of runtime call captured in adaptive telemetry.
#[derive(Debug, Clone, Copy, PartialEq, Eq, Hash, Structural)]
pub enum CallKind {
    /// LLM or model-provider invocation.
    Llm,
    /// Tool invocation.
    Tool,
}

/// Compact graph context for a call.
///
/// These facts are intentionally small: enough to reconstruct graph/node dependency structure
/// without storing full framework metadata in every call.
#[derive(Debug)]
pub struct GraphCallContext {
    /// Graph scope name, when available.
    pub graph_name: Option<String>,
    /// Graph node name that issued this call.
    pub node_name: String,
    /// Graph task identifier for this node execution.
    pub task_id: String,
    /// Graph task identifiers that this node execution waited for.
    pub depends_on_task_ids: Vec<String>,
}

/// Whether two graph contexts hold the same facts.
pub open spec fn same_graph(a: Option<GraphCallContext>, b: Option<GraphCallContext>) -> bool {
    match (a, b) {
        (None, None) => true,
        (Some(x), Some(y)) => {
            &&& x.depends_on_task_ids@ == y.depends_on_task_ids@
            &&& x == (GraphCallContext { depends_on_task_ids: x.depends_on_task_ids, ..y })
        },
        _ => false,
    }
}

/// Copies a graph context.
pub fn copy_graph(graph: &Option<GraphCallContext>) -> (r: Option<GraphCallContext>)
    ensures
        same_graph(r, *graph),
{
    match graph {
        Some(g) => Some(
            GraphCallContext {
                graph_name: copy_text(&g.graph_name),
                node_name: g.node_name.clone(),
                task_id: g.task_id.clone(),
                depends_on_task_ids: copy_texts(g.depends_on_task_ids.as_slice()),
            },
        ),
        None => None,
    }
}

/// Telemetry record for a single tool or LLM call.
#[derive(Debug)]
pub struct CallRecord<S: Scalar> {
    /// Category of call represented by this record.
    pub kind: CallKind,
    /// Logical tool or provider name.
    pub name: String,
    /// Timestamp when the call began.
    pub started_at: Timestamp,
    /// Timestamp when the call finished, when known.
    pub ended_at: Option<Timestamp>,
    /// Runtime scope UUID for this call.
    pub scope_uuid: u128,
    /// Output token count reported by the provider, when available.
    pub output_tokens: Option<u32>,
    /// Prompt token count reported by the provider, when available.
    pub prompt_tokens: Option<u32>,
    /// Total token count reported by the provider, when available.
    pub total_tokens: Option<u32>,
    /// Normalized model name associated with the call, when available.
    pub model_name: Option<String>,
    /// Number of tool calls issued by the provider, when available.
    pub tool_call_count: Option<u32>,
    /// Provider tool-call correlation identifier for tool calls, when available.
    pub tool_call_id: Option<String>,
    /// Annotated request captured for cache analysis, when available.
    pub annotated_request: Option<Arc<AnnotatedLlmRequest>>,
    /// Annotated response captured for cache analysis, when available.
    pub annotated_response: Option<Arc<AnnotatedLlmResponse>>,
    /// Agent/function scope path captured at call-start time.
    pub function_path: Vec<String>,
    /// Runtime parent scope UUID for this call, when available.
    pub parent_uuid: Option<u128>,
    /// Compact graph node identity for calls issued inside a graph node.
    pub graph: Option<GraphCallContext>,
    /// Run-local ordinal for this call, starting at one.
    pub run_call_index: Option<u32>,
    /// Normalized finish reason, when reported by the provider.
    pub finish_reason: Option<FinishReason>,
    /// Backend timing extracted from response metadata, when available.
    pub backend_timing: Option<BackendTiming<S>>,
    /// Adaptive hints and learner feedback captured when the request was issued.
    pub adaptive_hints: Option<CallAdaptiveHints>,
}

impl<S: Scalar> Default for CallRecord<S> {
    fn default() -> (r: Self)
        ensures
            r.kind == CallKind::Llm,
            r.name@ == ""@,
            r.started_at@ == 0,
            r.ended_at is None,
            r.scope_uuid == 0,
            r.output_tokens is None,
            r.prompt_tokens is None,
            r.total_tokens is None,
            r.model_name is None,
            r.tool_call_count is None,
            r.tool_call_id is None,
            r.annotated_request is None,
            r.annotated_response is None,
            r.function_path@.len() == 0,
            r.parent_uuid is None,
            r.graph is None,
            r.run_call_index is None,
            r.finish_reason is None,
            r.backend_timing is None,
            r.adaptive_hints is None,
    {
        CallRecord {
            kind: CallKind::Llm,
            name: "".to_owned(),
            started_at: Timestamp::epoch(),
            ended_at: None,
            scope_uuid: 0,
            output_tokens: None,
            prompt_tokens: None,
            total_tokens: None,
            model_name: None,
            tool_call_count: None,
            tool_call_id: None,
            annotated_request: None,
            annotated_response: None,
            function_path: Vec::new(),
            parent_uuid: None,
            graph: None,
            run_call_index: None,
            finish_reason: None,
            backend_timing: None,
            adaptive_hints: None,
        }
    }
}

/// Shares an annotated request or response.
///
/// Calls `std::sync::Arc`'s `Clone::clone`: the copy points to the same value.
#[verifier::external_body]
pub(crate) fn share<T>(shared: &Arc<T>) -> (r: Arc<T>)
    ensures
        r == *shared,
{
    shared.clone()
}

/// Shares an optional annotated request or response.
pub fn share_optional<T>(shared: &Option<Arc<T>>) -> (r: Option<Arc<T>>)
    ensures
        r == *shared,
{
    match shared {
        Some(value) => Some(share(value)),
        None => None,
    }
}

/// Whether two call records hold the same facts.
pub open spec fn same_call<S: Scalar>(a: CallRecord<S>, b: CallRecord<S>) -> bool {
    &&& a.function_path@ == b.function_path@
    &&& same_graph(a.graph, b.graph)
    &&& a == (CallRecord { function_path: a.function_path, graph: a.graph, ..b })
}

impl<S: Scalar> Clone for CallRecord<S> {
    fn clone(&self) -> (r: Self)
        ensures
            same_call(r, *self),
    {
        CallRecord {
            kind: self.kind,
            name: self.name.clone(),
            started_at: self.started_at,
            ended_at: self.ended_at,
            scope_uuid: self.scope_uuid,
            output_tokens: self.output_tokens,
            prompt_tokens: self.prompt_tokens,
            total_tokens: self.total_tokens,
            model_name: copy_text(&self.model_name),
            tool_call_count: self.tool_call_count,
            tool_call_id: copy_text(&self.tool_call_id),
            annotated_request: share_optional(&self.annotated_request),
            annotated_response: share_optional(&self.annotated_response),
            function_path: copy_texts(self.function_path.as_slice()),
            parent_uuid: self.parent_uuid,
            graph: copy_graph(&self.graph),
            run_call_index: self.run_call_index,
            finish_reason: copy_finish_reason(&self.finish_reason),
            backend_timing: self.backend_timing,
            adaptive_hints: match &self.adaptive_hints {
                Some(hints) => Some(hints.clone()),
                None => None,
            },
        }
    }
}

/// Telemetry record for one observed agent run.
#[derive(Debug)]
pub struct RunRecord<S: Scalar> {
    /// Unique run identifier.
    pub id: u128,
    /// Agent identifier that produced the run.
    pub agent_id: String,
    /// Calls observed during the run.
    pub calls: Vec<CallRecord<S>>,
    /// Timestamp when the run began.
    pub started_at: Timestamp,
    /// Timestamp when the run finished, when known.
    pub ended_at: Option<Timestamp>,
}

/// The facts of a run.
#[verifier::ext_equal]
pub struct RunView<S: Scalar> {
    /// Run identifier.
    pub id: u128,
    /// Agent identifier.
    pub agent: Seq<char>,
    /// Calls.
    pub calls: Seq<CallRecord<S>>,
    /// When the run began.
    pub started_at: Timestamp,
    /// When the run finished.
    pub ended_at: Option<Timestamp>,
}

impl<S: Scalar> View for RunRecord<S> {
    type V = RunView<S>;

    open spec fn view(&self) -> RunView<S> {
        RunView {
            id: self.id,
            agent: self.agent_id@,
            calls: self.calls@,
            started_at: self.started_at,
            ended_at: self.ended_at,
        }
    }
}

} // verus!
