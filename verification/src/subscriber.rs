//! Event-to-record mapping helpers.
use crate::context_helpers::run_boundary_path;
use crate::json::{json_at, json_entries, json_view, member, JsonView};
use crate::records::{carried_feedback, feedback_view, read_call_adaptive_hints, share_optional, CallKind, CallRecord};
use crate::scalar::Scalar;
use crate::scope::{Event, Scope, ScopeCategory, ScopeType};
use crate::scope_metadata::{flag_of, run_boundary_override, RUN_BOUNDARY_KEY};
use crate::text::{copy_text, copy_texts, same_text};
use vstd::prelude::*;

verus! {

/// The kind of call that an event is about.
pub open spec fn call_kind_of(event: Event) -> Option<CallKind> {
    match event.category {
        Some(category) => if category@ == "llm"@ {
            Some(CallKind::Llm)
        } else if category@ == "tool"@ {
            Some(CallKind::Tool)
        } else {
            None
        },
        None => None,
    }
}

/// Whether an event marks the start of a call that is recorded.
pub open spec fn starts_call(event: Event) -> bool {
    event.scope_category == Some(ScopeCategory::Start) && call_kind_of(event) is Some
}

/// Whether `record` is the record that an event starts: what the event tells of the call, the scope
/// path, the feedback of an LLM request, and nothing of how the call ends.
pub open spec fn started_by<S: Scalar>(
    event: Event,
    scope_path: Seq<String>,
    record: CallRecord<S>,
) -> bool {
    &&& Some(record.kind) == call_kind_of(event)
    &&& record.name == event.name
    &&& record.started_at == event.timestamp
    &&& record.ended_at is None
    &&& record.scope_uuid == event.uuid
    &&& record.output_tokens is None
    &&& record.prompt_tokens is None
    &&& record.total_tokens is None
    &&& record.model_name is None
    &&& record.tool_call_count is None
    &&& record.tool_call_id == event.tool_call_id
    &&& record.annotated_request == if record.kind == CallKind::Llm {
        event.annotated_request
    } else {
        None
    }
    &&& record.annotated_response is None
    &&& record.function_path@ == scope_path
    &&& record.finish_reason is None
    &&& record.backend_timing is None
    &&& feedback_view(record.adaptive_hints) == match record.annotated_request {
        Some(request) => carried_feedback(json_entries(request.extra)),
        None => None,
    }
}

fn call_kind(event: &Event) -> (r: Option<CallKind>)
    ensures
        r == call_kind_of(*event),
{
    match &event.category {
        Some(category) => if same_text(category.as_str(), "llm") {
            Some(CallKind::Llm)
        } else if same_text(category.as_str(), "tool") {
            Some(CallKind::Tool)
        } else {
            None
        },
        None => None,
    }
}

/// Makes the record of a call from the event that starts it.
pub fn event_to_call_record<S: Scalar>(event: &Event, scope_path: &[String]) -> (r: Option<
    CallRecord<S>,
>)
    ensures
        r is Some <==> starts_call(*event),
        r matches Some(record) ==> started_by(*event, scope_path@, record)
            && record.parent_uuid is None && record.graph is None && record.run_call_index is None,
{
    match event.scope_category {
        Some(ScopeCategory::Start) => {},
        _ => {
            return None;
        },
    }
    let kind = match call_kind(event) {
        Some(kind) => kind,
        None => {
            return None;
        },
    };
    let annotated_request = match kind {
        CallKind::Llm => share_optional(&event.annotated_request),
        CallKind::Tool => None,
    };
    let adaptive_hints = match &annotated_request {
        Some(request) => read_call_adaptive_hints(request),
        None => None,
    };
    Some(
        CallRecord {
            kind,
            name: event.name.clone(),
            started_at: event.timestamp,
            scope_uuid: event.uuid,
            tool_call_id: copy_text(&event.tool_call_id),
            annotated_request,
            adaptive_hints,
            function_path: copy_texts(scope_path),
            ..CallRecord::default()
        },
    )
}

/// Whether an event bounds a run: it marks an end of an agent's scope, unless the metadata says that
/// the scope bounds none.
pub open spec fn bounds_run(event: Event) -> bool {
    &&& event.scope_type == Some(ScopeType::Agent)
    &&& event.scope_category is Some
    &&& flag_of(event.metadata, RUN_BOUNDARY_KEY@) != Some(false)
}

/// Tests whether an event bounds a run.
pub fn is_run_boundary(event: &Event) -> (r: bool)
    ensures
        r == bounds_run(*event),
{
    match event.scope_type {
        Some(ScopeType::Agent) => {},
        _ => {
            return false;
        },
    }
    if event.scope_category.is_none() {
        return false;
    }
    match run_boundary_override(event) {
        Some(flag) => flag,
        None => true,
    }
}

/// The events of a scope bound a run exactly when the open scope does.
pub proof fn law_scopes_and_events_agree_on_boundaries(event: Event, scope: Scope)
    requires
        event.scope_type == Some(scope.scope_type),
        event.scope_category is Some,
        event.metadata == scope.metadata,
    ensures
        bounds_run(event) == crate::context_helpers::bounds_run(scope),
{
    reveal_with_fuel(json_at, 2);
    let path = run_boundary_path();
    assert(path.drop_last() =~= Seq::<Seq<char>>::empty());
}

/// A record starts with the start of an LLM or tool call, and holds what the event says of it: when it
/// began, under which scope, path and name, with which correlation identifier, and, of an LLM call,
/// the request. It has no end, no result and no measurement.
pub proof fn law_starts_are_recorded<S: Scalar>(
    event: Event,
    scope_path: Seq<String>,
    record: CallRecord<S>,
)
    requires
        started_by(event, scope_path, record),
    ensures
        starts_call(event) <==> {
            &&& event.scope_category == Some(ScopeCategory::Start)
            &&& event.category matches Some(category) && (category@ == "llm"@ || category@
                == "tool"@)
        },
        starts_call(event) ==> (record.kind == CallKind::Llm <==> event.category->0@ == "llm"@),
        record.name == event.name,
        record.started_at == event.timestamp,
        record.scope_uuid == event.uuid,
        record.function_path@ == scope_path,
        record.tool_call_id == event.tool_call_id,
        record.kind == CallKind::Llm ==> record.annotated_request == event.annotated_request,
        record.kind == CallKind::Tool ==> record.annotated_request is None
            && record.adaptive_hints is None,
        record.kind == CallKind::Llm && event.annotated_request is Some ==> feedback_view(
            record.adaptive_hints,
        ) == carried_feedback(json_entries(event.annotated_request->0.extra)),
        record.ended_at is None && record.output_tokens is None && record.prompt_tokens is None,
        record.total_tokens is None && record.model_name is None && record.finish_reason is None,
        record.annotated_response is None && record.backend_timing is None,
{
}

/// The start or the end of an agent's scope bounds a run, unless its metadata says that it does not.
pub proof fn law_agents_bound_runs(event: Event)
    ensures
        bounds_run(event) <==> {
            &&& event.scope_type == Some(ScopeType::Agent)
            &&& event.scope_category is Some
            &&& !(event.metadata matches Some(metadata) && member(
                json_view(metadata),
                "nemo_flow.run_boundary"@,
            ) matches Some(value) && json_view(value) == JsonView::Bool(false))
        },
{
}

} // verus!
