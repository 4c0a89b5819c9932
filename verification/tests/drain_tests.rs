use std::sync::Arc;

use adaptive::cache::HotCache;
use adaptive::drain::{
    apply_llm_end_metadata, backend_timing_from_response_extra, clear_run_local_osl,
    observe_run_local_osl, DrainStage, RunAccumulator,
};
use adaptive::fixed::Fixed;
use adaptive::osl_empirical::OslEmpiricalState;
use adaptive::feedback::{feedback_form, read_feedback_form};
use adaptive::records::{
    read_call_adaptive_hints, write_call_adaptive_hints, BackendTiming,
    CallAdaptiveHints, CallKind, CallRecord,
};
use adaptive::request::{
    AnnotatedLlmRequest, AnnotatedLlmResponse, FinishReason, ResponseToolCall, Usage,
};
use adaptive::scope::{Event, ScopeCategory, ScopeType};
use adaptive::subscriber::{event_to_call_record, is_run_boundary};
use adaptive::time::Timestamp;
use serde_json::Value;

fn at(seconds: i64) -> Timestamp {
    Timestamp::new(seconds, 0).unwrap()
}

fn object(entries: Vec<(&str, Value)>) -> Value {
    let mut map = serde_json::Map::new();
    for (key, value) in entries {
        map.insert(key.to_string(), value);
    }
    Value::Object(map)
}

fn text(s: &str) -> Value {
    Value::String(s.to_string())
}

fn event(
    uuid: u128,
    parent_uuid: Option<u128>,
    name: &str,
    seconds: i64,
    scope_category: ScopeCategory,
    scope_type: ScopeType,
) -> Event {
    Event {
        uuid,
        parent_uuid,
        name: name.to_string(),
        timestamp: at(seconds),
        scope_category: Some(scope_category),
        scope_type: Some(scope_type),
        category: match scope_type {
            ScopeType::Llm => Some("llm".to_string()),
            ScopeType::Tool => Some("tool".to_string()),
            _ => None,
        },
        metadata: None,
        tool_call_id: None,
        annotated_request: None,
        annotated_response: None,
    }
}

fn start(uuid: u128, parent: Option<u128>, name: &str, seconds: i64, kind: ScopeType) -> Event {
    event(uuid, parent, name, seconds, ScopeCategory::Start, kind)
}

fn end(uuid: u128, parent: Option<u128>, name: &str, seconds: i64, kind: ScopeType) -> Event {
    event(uuid, parent, name, seconds, ScopeCategory::End, kind)
}

fn accumulator() -> RunAccumulator<Fixed> {
    RunAccumulator::new("agent".to_string())
}

fn path() -> Vec<String> {
    vec!["agent".to_string(), "step".to_string()]
}

fn request() -> AnnotatedLlmRequest {
    AnnotatedLlmRequest {
        messages: vec![],
        model: Some("model".to_string()),
        params: None,
        tools: None,
        max_output_tokens: None,
        extra: serde_json::Map::new(),
    }
}

fn response() -> AnnotatedLlmResponse {
    let timing = object(vec![
        ("prefill_wait_time_ms", Value::from(12.5)),
        ("total_time_ms", Value::from(-3)),
        ("ttft_ms", text("soon")),
    ]);
    let mut extra = serde_json::Map::new();
    extra.insert("nvext".to_string(), object(vec![("timing", timing)]));
    AnnotatedLlmResponse {
        model: Some("answering".to_string()),
        tool_calls: Some(vec![ResponseToolCall {
            id: "call-1".to_string(),
            name: "search".to_string(),
        }]),
        finish_reason: Some(FinishReason::Stop),
        usage: Some(Usage {
            prompt_tokens: Some(100),
            completion_tokens: Some(0x1_0000_0005),
            total_tokens: None,
        }),
        extra,
    }
}

#[test]
fn run_collects_its_calls() {
    let mut runs = accumulator();
    assert!(runs
        .process_event(&start(1, None, "agent", 0, ScopeType::Agent), &[])
        .is_none());
    assert_eq!(runs.open_run_count(), 1);
    runs.process_event(&start(2, Some(1), "step", 1, ScopeType::Function), &path());
    runs.process_event(&start(3, Some(2), "llm", 2, ScopeType::Llm), &path());
    let mut finished_call = end(3, Some(2), "llm", 5, ScopeType::Llm);
    finished_call.annotated_response = Some(Arc::new(response()));
    let outcome = runs.process_event_outcome(&finished_call, &path());
    let completed = outcome.completed_llm_call.unwrap();
    assert_eq!(completed.root_uuid, 1);
    assert_eq!(completed.call.model_name.as_deref(), Some("answering"));
    runs.process_event(&start(4, Some(2), "tool", 6, ScopeType::Tool), &path());
    let outcome =
        runs.process_event_outcome(&end(4, Some(2), "tool", 7, ScopeType::Tool), &path());
    assert!(outcome.completed_llm_call.is_none());
    runs.process_event(&end(2, Some(1), "step", 8, ScopeType::Function), &path());

    let outcome =
        runs.process_event_outcome(&end(1, None, "agent", 9, ScopeType::Agent), &[]);
    assert_eq!(outcome.finished_root_uuid, Some(1));
    let run = outcome.completed_run.unwrap();
    assert_eq!(runs.open_run_count(), 0);
    assert_eq!(run.agent_id, "agent");
    assert_eq!(run.started_at, at(0));
    assert_eq!(run.ended_at, Some(at(9)));
    assert_eq!(uuid::Uuid::from_u128(run.id).get_version_num(), 7);
    assert_eq!(run.calls.len(), 2);
    assert_eq!(run.calls[0].kind, CallKind::Llm);
    assert_eq!(run.calls[0].run_call_index, Some(1));
    assert_eq!(run.calls[0].parent_uuid, Some(2));
    assert_eq!(run.calls[0].scope_uuid, 3);
    assert_eq!(run.calls[0].function_path, path());
    assert_eq!(run.calls[0].ended_at, Some(at(5)));
    assert_eq!(run.calls[1].kind, CallKind::Tool);
    assert_eq!(run.calls[1].run_call_index, Some(2));
    assert_eq!(run.calls[1].ended_at, Some(at(7)));
}

#[test]
fn runs_are_kept_apart() {
    let mut runs = accumulator();
    runs.process_event(&start(1, None, "a", 0, ScopeType::Agent), &[]);
    runs.process_event(&start(2, None, "b", 0, ScopeType::Agent), &[]);
    runs.process_event(&start(3, Some(1), "llm", 1, ScopeType::Llm), &[]);
    runs.process_event(&start(4, Some(2), "llm", 1, ScopeType::Llm), &[]);
    runs.process_event(&end(4, Some(2), "llm", 2, ScopeType::Llm), &[]);
    let first = runs
        .process_event(&end(1, None, "a", 3, ScopeType::Agent), &[])
        .unwrap();
    assert_eq!(first.calls.len(), 1);
    assert_eq!(first.calls[0].ended_at, None);
    assert_eq!(runs.open_run_count(), 1);
    let late = runs.process_event_outcome(&end(3, Some(1), "llm", 4, ScopeType::Llm), &[]);
    assert!(late.completed_llm_call.is_none());
    let second = runs
        .process_event(&end(2, None, "b", 5, ScopeType::Agent), &[])
        .unwrap();
    assert_eq!(second.calls[0].ended_at, Some(at(2)));
}

#[test]
fn calls_outside_of_any_run_are_dropped() {
    let mut runs = accumulator();
    runs.process_event(&start(3, Some(1), "llm", 1, ScopeType::Llm), &[]);
    runs.process_event(&end(3, Some(1), "llm", 2, ScopeType::Llm), &[]);
    assert!(runs
        .process_event(&end(1, None, "a", 3, ScopeType::Agent), &[])
        .is_none());
    assert_eq!(runs.open_run_count(), 0);
}

#[test]
fn end_under_another_identifier_meets_the_last_open_call_of_that_name() {
    let mut runs = accumulator();
    runs.process_event(&start(1, None, "a", 0, ScopeType::Agent), &[]);
    runs.process_event(&start(3, Some(1), "llm", 1, ScopeType::Llm), &[]);
    runs.process_event(&start(4, Some(1), "llm", 2, ScopeType::Llm), &[]);
    runs.process_event(&end(99, Some(1), "llm", 5, ScopeType::Llm), &[]);
    let run = runs
        .process_event(&end(1, None, "a", 9, ScopeType::Agent), &[])
        .unwrap();
    assert_eq!(run.calls[0].ended_at, None);
    assert_eq!(run.calls[1].ended_at, Some(at(5)));
}

#[test]
fn nested_agents_can_decline_to_bound_a_run() {
    let mut runs = accumulator();
    runs.process_event(&start(1, None, "chat", 0, ScopeType::Agent), &[]);
    let mut graph = start(2, Some(1), "graph", 1, ScopeType::Agent);
    graph.metadata = Some(object(vec![
        ("nemo_flow.run_boundary", Value::Bool(false)),
        ("nemo_flow.graph.scope", Value::Bool(true)),
    ]));
    assert!(!is_run_boundary(&graph));
    runs.process_event(&graph, &[]);
    let mut node = start(3, Some(2), "node", 1, ScopeType::Function);
    node.metadata = Some(object(vec![
        ("nemo_flow.graph.node", Value::Bool(true)),
        ("nemo_flow.graph.task_id", text("task-1")),
        (
            "nemo_flow.graph.depends_on_task_ids",
            Value::Array(vec![text("task-0"), Value::Null]),
        ),
    ]));
    runs.process_event(&node, &[]);
    runs.process_event(&start(4, Some(3), "llm", 2, ScopeType::Llm), &[]);
    assert_eq!(runs.open_run_count(), 1);
    let run = runs
        .process_event(&end(1, None, "chat", 9, ScopeType::Agent), &[])
        .unwrap();
    let context = run.calls[0].graph.as_ref().unwrap();
    assert_eq!(context.graph_name.as_deref(), Some("graph"));
    assert_eq!(context.node_name, "node");
    assert_eq!(context.task_id, "task-1");
    assert_eq!(context.depends_on_task_ids, vec!["task-0"]);
}

#[test]
fn only_agent_scopes_bound_runs() {
    assert!(is_run_boundary(&start(1, None, "a", 0, ScopeType::Agent)));
    assert!(is_run_boundary(&end(1, None, "a", 0, ScopeType::Agent)));
    assert!(!is_run_boundary(&start(1, None, "f", 0, ScopeType::Function)));
    let mut mark = start(1, None, "a", 0, ScopeType::Agent);
    mark.scope_category = None;
    assert!(!is_run_boundary(&mark));
}

#[test]
fn records_hold_what_the_start_event_tells() {
    let hints = CallAdaptiveHints {
        emitted_priority: Some(2),
        ..CallAdaptiveHints::default()
    };
    let mut annotated = request();
    write_call_adaptive_hints(&mut annotated, &hints);
    let annotated = Arc::new(annotated);
    let mut llm = start(3, Some(1), "llm", 1, ScopeType::Llm);
    llm.tool_call_id = Some("id".to_string());
    llm.annotated_request = Some(annotated.clone());
    let record: CallRecord<Fixed> = event_to_call_record(&llm, &path()).unwrap();
    assert_eq!(record.kind, CallKind::Llm);
    assert_eq!(record.name, "llm");
    assert_eq!(record.tool_call_id.as_deref(), Some("id"));
    assert_eq!(record.function_path, path());
    assert_eq!(record.adaptive_hints.unwrap().emitted_priority, Some(2));
    assert!(record.annotated_request.is_some());

    llm.annotated_request = Some(Arc::new(request()));
    let plain: CallRecord<Fixed> = event_to_call_record(&llm, &[]).unwrap();
    assert!(plain.annotated_request.is_some());
    assert!(plain.adaptive_hints.is_none());

    let mut tool = start(3, Some(1), "tool", 1, ScopeType::Tool);
    tool.annotated_request = Some(annotated);
    let record: CallRecord<Fixed> = event_to_call_record(&tool, &[]).unwrap();
    assert_eq!(record.kind, CallKind::Tool);
    assert!(record.annotated_request.is_none());
    assert!(record.adaptive_hints.is_none());

    let ended: Option<CallRecord<Fixed>> =
        event_to_call_record(&end(3, None, "llm", 1, ScopeType::Llm), &[]);
    assert!(ended.is_none());
    let other: Option<CallRecord<Fixed>> =
        event_to_call_record(&start(3, None, "f", 1, ScopeType::Function), &[]);
    assert!(other.is_none());
}

#[test]
fn end_of_an_llm_call_tells_of_the_response() {
    let mut call: CallRecord<Fixed> = CallRecord::default();
    let mut ended = end(3, None, "llm", 1, ScopeType::Llm);
    ended.annotated_response = Some(Arc::new(response()));
    apply_llm_end_metadata(&mut call, &ended);
    assert_eq!(call.prompt_tokens, Some(100));
    assert_eq!(call.output_tokens, Some(5));
    assert_eq!(call.total_tokens, None);
    assert_eq!(call.model_name.as_deref(), Some("answering"));
    assert_eq!(call.tool_call_count, Some(1));
    assert!(matches!(call.finish_reason, Some(FinishReason::Stop)));
    let timing = call.backend_timing.unwrap();
    assert_eq!(timing.prefill_wait_time_ms, Some(Fixed { millionths: 12_500_000 }));
    assert_eq!(timing.total_time_ms, Some(Fixed { millionths: 0 }));
    assert_eq!(timing.ttft_ms, None);
    assert!(call.annotated_response.is_some());

    let mut tool: CallRecord<Fixed> = CallRecord::default();
    let mut ended = end(3, None, "tool", 1, ScopeType::Tool);
    ended.annotated_response = Some(Arc::new(response()));
    apply_llm_end_metadata(&mut tool, &ended);
    assert!(tool.annotated_response.is_none());
}

#[test]
fn responses_without_timing_have_none() {
    let none = serde_json::Map::new();
    assert_eq!(backend_timing_from_response_extra::<Fixed>(&none), None);
    let mut odd = serde_json::Map::new();
    odd.insert("nvext".to_string(), text("x"));
    assert_eq!(backend_timing_from_response_extra::<Fixed>(&odd), None);
    let mut empty = serde_json::Map::new();
    empty.insert("nvext".to_string(), object(vec![("timing", object(vec![]))]));
    assert_eq!(backend_timing_from_response_extra::<Fixed>(&empty), None);
    assert!(BackendTiming::<Fixed>::default().is_empty());
}

fn full_feedback() -> CallAdaptiveHints {
    CallAdaptiveHints {
        selected_priority_residual_arm: Some(2),
        selected_priority_residual_key: Some("crit:high".to_string()),
        emitted_priority: Some(3),
        priority_cap: Some(u32::MAX),
        selected_osl_source: Some("run".to_string()),
        emitted_osl: Some(0),
        osl_confidence_passed: Some(false),
        osl_sample_count: Some(17),
    }
}

fn full_form() -> Value {
    object(vec![
        ("selected_priority_residual_arm", Value::from(2)),
        ("selected_priority_residual_key", text("crit:high")),
        ("emitted_priority", Value::from(3)),
        ("priority_cap", Value::from(u32::MAX)),
        ("selected_osl_source", text("run")),
        ("emitted_osl", Value::from(0)),
        ("osl_confidence_passed", Value::from(false)),
        ("osl_sample_count", Value::from(17)),
    ])
}

fn assert_same_feedback(a: &CallAdaptiveHints, b: &CallAdaptiveHints) {
    assert_eq!(a.selected_priority_residual_arm, b.selected_priority_residual_arm);
    assert_eq!(a.selected_priority_residual_key, b.selected_priority_residual_key);
    assert_eq!(a.emitted_priority, b.emitted_priority);
    assert_eq!(a.priority_cap, b.priority_cap);
    assert_eq!(a.selected_osl_source, b.selected_osl_source);
    assert_eq!(a.emitted_osl, b.emitted_osl);
    assert_eq!(a.osl_confidence_passed, b.osl_confidence_passed);
    assert_eq!(a.osl_sample_count, b.osl_sample_count);
}

#[test]
fn feedback_travels_with_the_request() {
    let mut annotated = request();
    annotated.extra.insert("other".to_string(), Value::from(1));
    annotated
        .extra
        .insert("_nemo_flow_internal".to_string(), object(vec![("kept", text("x"))]));
    assert!(read_call_adaptive_hints(&annotated).is_none());
    write_call_adaptive_hints(&mut annotated, &CallAdaptiveHints::default());
    assert_eq!(
        annotated.extra.get("_nemo_flow_internal"),
        Some(&object(vec![("kept", text("x"))]))
    );
    let hints = full_feedback();
    write_call_adaptive_hints(&mut annotated, &hints);
    assert_eq!(
        annotated.extra.get("_nemo_flow_internal"),
        Some(&object(vec![("kept", text("x")), ("adaptive_hints", full_form())]))
    );
    assert_eq!(annotated.extra.get("other"), Some(&Value::from(1)));
    assert_same_feedback(&read_call_adaptive_hints(&annotated).unwrap(), &hints);

    let mut blocked = request();
    blocked.extra.insert("_nemo_flow_internal".to_string(), Value::from(1));
    write_call_adaptive_hints(&mut blocked, &hints);
    assert_eq!(blocked.extra.get("_nemo_flow_internal"), Some(&Value::from(1)));
    assert!(read_call_adaptive_hints(&blocked).is_none());
}

#[test]
fn feedback_form_holds_the_known_facts_alone() {
    assert_eq!(feedback_form(&full_feedback()), full_form());
    assert_eq!(feedback_form(&CallAdaptiveHints::default()), object(vec![]));
    let one = CallAdaptiveHints {
        emitted_osl: Some(7),
        ..CallAdaptiveHints::default()
    };
    assert_eq!(feedback_form(&one), object(vec![("emitted_osl", Value::from(7))]));
}

#[test]
fn feedback_is_read_from_objects_and_lists() {
    assert_same_feedback(&read_feedback_form(&full_form()).unwrap(), &full_feedback());
    let list = Value::Array(vec![
        Value::from(2),
        text("crit:high"),
        Value::from(3),
        Value::from(u32::MAX),
        text("run"),
        Value::from(0),
        Value::from(false),
        Value::from(17),
    ]);
    assert_same_feedback(&read_feedback_form(&list).unwrap(), &full_feedback());
    let short = read_feedback_form(&Value::Array(vec![Value::Null, text("k")])).unwrap();
    assert_eq!(short.selected_priority_residual_arm, None);
    assert_eq!(short.selected_priority_residual_key.as_deref(), Some("k"));
    assert_eq!(short.osl_sample_count, None);
    let odd = object(vec![("unknown", text("x")), ("emitted_priority", Value::Null)]);
    assert!(read_feedback_form(&odd).unwrap().is_empty());
}

#[test]
fn unreadable_facts_spoil_feedback() {
    for (key, value) in [
        ("selected_priority_residual_arm", Value::from(256)),
        ("selected_priority_residual_arm", Value::from(-1)),
        ("emitted_priority", Value::from(1.0)),
        ("priority_cap", Value::from(u64::from(u32::MAX) + 1)),
        ("selected_osl_source", Value::from(1)),
        ("osl_confidence_passed", text("true")),
        ("osl_sample_count", text("1")),
    ] {
        let mut form = full_form();
        form.as_object_mut().unwrap().insert(key.to_string(), value);
        assert!(read_feedback_form(&form).is_none(), "{key}");
    }
    assert!(read_feedback_form(&text("x")).is_none());
    assert!(read_feedback_form(&Value::Null).is_none());
    assert!(read_feedback_form(&Value::Array(vec![Value::Null; 9])).is_none());
    assert!(read_feedback_form(&Value::Array(vec![Value::Null; 8])).is_some());

    let mut annotated = request();
    annotated.extra.insert(
        "_nemo_flow_internal".to_string(),
        object(vec![("adaptive_hints", object(vec![]))]),
    );
    assert!(read_call_adaptive_hints(&annotated).is_none());
}

fn names(stage: DrainStage<Fixed>, stored: bool) -> Vec<&'static str> {
    let mut out = vec![];
    let mut stage = stage;
    loop {
        let name = match &stage {
            DrainStage::ObserveCall { .. } => "observe",
            DrainStage::StoreRun { .. } => "store",
            DrainStage::RunLearners { .. } => "learn",
            DrainStage::RefreshPlan { .. } => "refresh",
            DrainStage::ClearRun { .. } => "clear",
            DrainStage::Acknowledge => "acknowledge",
            DrainStage::Done => return out,
        };
        out.push(name);
        let succeeded = name != "store" || stored;
        stage = stage.advance(succeeded);
    }
}

#[test]
fn finished_run_takes_its_course() {
    let finished = || {
        let mut runs = accumulator();
        runs.process_event(&start(1, None, "a", 0, ScopeType::Agent), &[]);
        runs.process_event_outcome(&end(1, None, "a", 3, ScopeType::Agent), &[])
    };
    assert_eq!(
        names(DrainStage::begin(finished()), true),
        vec!["store", "learn", "refresh", "clear", "acknowledge"]
    );
    assert_eq!(
        names(DrainStage::begin(finished()), false),
        vec!["store", "clear", "acknowledge"]
    );
}

#[test]
fn completed_call_is_observed_and_every_event_acknowledged() {
    let mut runs = accumulator();
    runs.process_event(&start(1, None, "a", 0, ScopeType::Agent), &[]);
    runs.process_event(&start(3, Some(1), "llm", 1, ScopeType::Llm), &[]);
    let completed =
        runs.process_event_outcome(&end(3, Some(1), "llm", 2, ScopeType::Llm), &[]);
    assert_eq!(names(DrainStage::begin(completed), true), vec!["observe", "acknowledge"]);
    let quiet = runs.process_event_outcome(
        &start(5, Some(1), "f", 2, ScopeType::Function),
        &[],
    );
    assert_eq!(names(DrainStage::begin(quiet), true), vec!["acknowledge"]);
}

#[test]
fn run_local_lengths_come_and_go_with_the_run() {
    let mut cache: HotCache<Fixed> = HotCache::default();
    let call = CallRecord {
        output_tokens: Some(7),
        annotated_request: Some(Arc::new(request())),
        ..CallRecord::default()
    };
    observe_run_local_osl(&mut cache, 1, &call);
    clear_run_local_osl(&mut cache, 1);
    assert!(cache.osl_empirical.is_none());
    cache.osl_empirical = Some(OslEmpiricalState::new("agent".to_string()));
    observe_run_local_osl(&mut cache, 1, &call);
    observe_run_local_osl(&mut cache, 2, &call);
    observe_run_local_osl(&mut cache, 3, &CallRecord::default());
    assert_eq!(cache.osl_empirical.as_ref().unwrap().run_contexts.len(), 2);
    clear_run_local_osl(&mut cache, 1);
    assert_eq!(cache.osl_empirical.as_ref().unwrap().run_contexts.len(), 1);
}
