use adaptive::adaptive_hints_intercept::{
    apply_dag_priority_prior, apply_empirical_osl_overlay, apply_manual_latency_override,
    build_agent_hints, complete_request, fallback_priority_prior, inject_agent_hints,
    merge_feedback, plan_request, priority_cap_for_workflow_class, request_ends_with_tool_result,
    AdaptiveHintsIntercept, HintSelection, AGENT_HINTS_HEADER_KEY,
};
use adaptive::cache::{AgentHints, HotCache, LlmCallPrediction, PredictionMetrics};
use adaptive::context_helpers::{set_latency_sensitivity, WorkflowClass};
use adaptive::dag::state::{DagCpmNodeState, DagCpmState};
use adaptive::order::Ordered;
use adaptive::osl_empirical::{
    OslContextKey, OslContextScope, OslContextStats, OslEmpiricalState, OslRequestSignature,
};
use adaptive::priority_residual::{
    PressureState, PriorityResidualAction, PriorityResidualArmState, PriorityResidualContextState,
    PriorityResidualState,
};
use adaptive::records::{read_call_adaptive_hints, CallAdaptiveHints};
use adaptive::request::{
    AnnotatedLlmRequest, GenerationParams, LlmRequest, Message, MessageContent,
};
use adaptive::scalar::Scalar;
use adaptive::scope::{Scope, ScopeStack, ScopeType};
use adaptive::time::Timestamp;
use serde_json::Value;

/// Machine floating point as the number type.
#[derive(Debug, Clone, Copy, PartialEq)]
struct F(f64);

impl Ordered for F {
    fn not_after(self, other: F) -> bool {
        self.0.total_cmp(&other.0).is_le()
    }
}

impl Scalar for F {
    fn of_ratio(num: i64, den: u64) -> F {
        F(num as f64 / den as f64)
    }
    fn of_float_bits(bits: u64) -> F {
        F(f64::from_bits(bits))
    }
    fn infinity() -> F {
        F(f64::INFINITY)
    }
    fn add(self, rhs: F) -> F {
        F(self.0 + rhs.0)
    }
    fn sub(self, rhs: F) -> F {
        F(self.0 - rhs.0)
    }
    fn mul(self, rhs: F) -> F {
        F(self.0 * rhs.0)
    }
    fn div(self, rhs: F) -> F {
        F(self.0 / rhs.0)
    }
    fn max_of(self, rhs: F) -> F {
        F(self.0.max(rhs.0))
    }
    fn min_of(self, rhs: F) -> F {
        F(self.0.min(rhs.0))
    }
    fn lt(self, rhs: F) -> bool {
        self.0 < rhs.0
    }
    fn le(self, rhs: F) -> bool {
        self.0 <= rhs.0
    }
    fn is_finite(self) -> bool {
        self.0.is_finite()
    }
    fn round(self) -> i64 {
        self.0.round() as i64
    }
    fn ln_1p(self) -> F {
        F(self.0.ln_1p())
    }
    fn sqrt(self) -> F {
        F(self.0.sqrt())
    }
}

fn object(entries: Vec<(&str, Value)>) -> Value {
    let mut map = serde_json::Map::new();
    for (key, value) in entries {
        map.insert(key.to_string(), value);
    }
    Value::Object(map)
}

fn text(s: &str) -> Value {
    Value::String(s.to_string())
}

fn metrics(mean: f64, p50: f64, p90: f64, p95: f64) -> PredictionMetrics<F> {
    PredictionMetrics {
        sample_count: 10,
        mean: F(mean),
        p50: F(p50),
        p90: F(p90),
        p95: F(p95),
    }
}

fn make_prediction(latency_sensitivity: Option<u32>) -> LlmCallPrediction<F> {
    LlmCallPrediction {
        remaining_calls: metrics(5.0, 5.0, 8.0, 9.0),
        interarrival_ms: metrics(200.0, 180.0, 300.0, 350.0),
        output_tokens: metrics(100.0, 90.0, 150.0, 180.0),
        latency_sensitivity,
    }
}

fn annotated_with_messages(messages: Vec<Message>) -> AnnotatedLlmRequest {
    AnnotatedLlmRequest {
        messages,
        model: Some("model".into()),
        params: None,
        tools: None,
        max_output_tokens: None,
        extra: serde_json::Map::new(),
    }
}

fn user(text: &str) -> Message {
    Message::User {
        content: MessageContent::Text(text.into()),
    }
}

fn tool_result() -> Message {
    Message::Tool {
        content: MessageContent::Text("tool result".into()),
        tool_call_id: "call-1".into(),
    }
}

fn scope(name: &str, scope_type: ScopeType, uuid: u128) -> Scope {
    Scope {
        name: name.to_string(),
        scope_type,
        uuid,
        parent_uuid: None,
        metadata: None,
    }
}

fn root_stack() -> ScopeStack {
    ScopeStack {
        root: scope("root", ScopeType::Agent, 1),
        nested: vec![],
    }
}

fn empty_request() -> LlmRequest {
    LlmRequest {
        headers: serde_json::Map::new(),
        content: object(vec![]),
    }
}

fn hints_json(hints: &AgentHints<F>) -> Value {
    object(vec![
        ("osl", Value::from(hints.osl)),
        ("iat", Value::from(hints.iat)),
        ("priority", Value::from(hints.priority)),
        ("latency_sensitivity", Value::from(hints.latency_sensitivity.0)),
        ("prefix_id", text(&hints.prefix_id)),
        ("total_requests", Value::from(hints.total_requests)),
    ])
}

fn hot_cache() -> HotCache<F> {
    HotCache::default()
}

/// Takes one request through the three steps of the intercept.
fn send(
    cache: Option<&HotCache<F>>,
    lookup: &dyn Fn(&[String], u32) -> Option<LlmCallPrediction<F>>,
    stack: &ScopeStack,
    request: LlmRequest,
    annotated: Option<AnnotatedLlmRequest>,
) -> (LlmRequest, Option<AnnotatedLlmRequest>) {
    let mut intercept = AdaptiveHintsIntercept::new((), "fallback-agent".to_string());
    let mut request = request;
    let mut annotated = annotated;
    let context = intercept.observe_request(Some(stack));
    assert_eq!(intercept.call_counter, 2);
    let prediction = lookup(&context.scope_path, context.call_index);
    let plan = plan_request(cache, prediction.as_ref(), "model", &context, annotated.as_ref());
    let hints = plan.hints.as_ref().map(hints_json);
    complete_request(&mut request, &mut annotated, &plan, hints);
    (request, annotated)
}

fn no_prediction(_path: &[String], _call_index: u32) -> Option<LlmCallPrediction<F>> {
    None
}

fn learned(observation_count: u32, slack_ms: f64, criticality: f64) -> DagCpmState<F> {
    let mut dag_cpm = DagCpmState::new("fallback-agent".to_string());
    dag_cpm.nodes.insert(
        "root/llm:model".to_string(),
        DagCpmNodeState {
            observation_count,
            duration_ms_ewma: F(1000.0),
            slack_ms_ewma: F(slack_ms),
            criticality_ewma: F(criticality),
            queue_horizon_ms_ewma: F(3000.0),
            last_updated_at: None,
        },
    );
    dag_cpm
}

#[test]
fn test_build_agent_hints_from_prediction() {
    let pred = make_prediction(Some(4));

    let hints = build_agent_hints(Some(&pred), &None, "test-agent", 2, 3).unwrap();
    assert_eq!(hints.osl, 150, "osl = output_tokens.p90");
    assert_eq!(hints.iat, 200, "iat = interarrival_ms.mean");
    assert_eq!(hints.priority, 1, "priority = 5 - 4 = 1");
    assert!((hints.latency_sensitivity.0 - 4.0).abs() < f64::EPSILON);
    assert_eq!(hints.prefix_id, "test-agent-d3");
    assert_eq!(hints.total_requests, 7, "total_requests = 5 + 2 = 7");
}

#[test]
fn test_build_agent_hints_falls_back_to_defaults() {
    let defaults = AgentHints {
        osl: 42,
        iat: 99,
        priority: 1,
        latency_sensitivity: F(4.0),
        prefix_id: "fallback".into(),
        total_requests: 10,
    };
    let hints = build_agent_hints(None, &Some(defaults.clone()), "agent", 1, 0).unwrap();
    assert_eq!(hints.osl, 42);
    assert_eq!(hints.prefix_id, "fallback");
}

#[test]
fn test_build_agent_hints_none_when_no_prediction_and_no_defaults() {
    let hints = build_agent_hints::<F>(None, &None, "agent", 1, 0);
    assert!(hints.is_none());
}

#[test]
fn test_build_agent_hints_defaults_missing_latency_sensitivity_to_one() {
    let pred = make_prediction(None);
    let hints = build_agent_hints(Some(&pred), &None, "fallback-agent", 4, 1).unwrap();
    assert_eq!(hints.priority, 4);
    assert_eq!(hints.latency_sensitivity, F(1.0));
    assert_eq!(hints.prefix_id, "fallback-agent-d1");
    assert_eq!(hints.total_requests, 9);
}

#[test]
fn test_adaptive_hints_intercept_new() {
    let intercept = AdaptiveHintsIntercept::new(hot_cache(), "test".to_string());
    assert_eq!(intercept.call_counter, 1);
    assert_eq!(intercept.agent_id, "test");
}

#[test]
fn test_adaptive_hints_intercept_injects_prediction_hints_and_manual_override() {
    let cache = hot_cache();
    let mut stack = root_stack();
    stack.nested.push(scope("scope-agent", ScopeType::Agent, 2));
    stack.nested.push(scope("step", ScopeType::Function, 3));
    set_latency_sensitivity(Ok(&mut stack), 5).unwrap();
    let lookup = |path: &[String], call_index: u32| {
        if path == ["scope-agent".to_string(), "step".to_string()] && call_index == 1 {
            Some(make_prediction(Some(2)))
        } else {
            None
        }
    };

    let annotated = annotated_with_messages(vec![user("hello")]);
    let before = format!("{annotated:?}");
    let (request, returned_annotated) =
        send(Some(&cache), &lookup, &stack, empty_request(), Some(annotated));

    let body_hints = &request.content["nvext"]["agent_hints"];
    assert_eq!(body_hints["osl"], Value::from(150));
    assert_eq!(body_hints["iat"], Value::from(200));
    assert_eq!(body_hints["latency_sensitivity"], Value::from(5.0));
    assert_eq!(body_hints["priority"], Value::from(0));
    assert_eq!(body_hints["prefix_id"], text("scope-agent-d2"));
    assert_eq!(body_hints["total_requests"], Value::from(6));
    assert_eq!(request.headers.get(AGENT_HINTS_HEADER_KEY).unwrap(), body_hints);
    assert_eq!(format!("{:?}", returned_annotated.unwrap()), before);
}

#[test]
fn test_adaptive_hints_intercept_uses_defaults_and_ignores_poisoned_cache() {
    let defaults = AgentHints {
        osl: 9,
        iat: 12,
        priority: 3,
        latency_sensitivity: F(2.0),
        prefix_id: "defaults".into(),
        total_requests: 11,
    };
    let mut cache = hot_cache();
    cache.agent_hints_default = Some(defaults.clone());
    let (request, annotated) =
        send(Some(&cache), &no_prediction, &root_stack(), empty_request(), None);
    assert_eq!(
        request.headers.get(AGENT_HINTS_HEADER_KEY),
        Some(&hints_json(&defaults))
    );
    assert_eq!(
        request.content["nvext"]["agent_hints"]["prefix_id"],
        "defaults"
    );
    assert!(annotated.is_none());

    let (poisoned_request, _) = send(
        None,
        &no_prediction,
        &root_stack(),
        LlmRequest {
            headers: serde_json::Map::new(),
            content: object(vec![("existing", Value::Bool(true))]),
        },
        None,
    );
    assert!(poisoned_request.headers.get(AGENT_HINTS_HEADER_KEY).is_none());
    assert_eq!(
        poisoned_request.content,
        object(vec![("existing", Value::Bool(true))])
    );
}

#[test]
fn test_adaptive_hints_intercept_overrides_cached_priority_from_dag_cpm() {
    let mut cache = hot_cache();
    cache.dag_cpm = Some(learned(3, 0.0, 1.0));
    cache.agent_hints_default = Some(AgentHints {
        osl: 9,
        iat: 12,
        priority: 0,
        latency_sensitivity: F(2.0),
        prefix_id: "defaults".into(),
        total_requests: 11,
    });

    let (request, _) = send(Some(&cache), &no_prediction, &root_stack(), empty_request(), None);

    let body_hints = &request.content["nvext"]["agent_hints"];
    assert_eq!(body_hints["priority"], Value::from(3));
    assert_eq!(body_hints["osl"], Value::from(9));
    assert_eq!(body_hints["prefix_id"], text("defaults"));
}

#[test]
fn test_adaptive_hints_intercept_emits_priority_only_from_dag_cpm() {
    let mut cache = hot_cache();
    cache.dag_cpm = Some(learned(1, 1500.0, 0.5));

    let (request, _) = send(Some(&cache), &no_prediction, &root_stack(), empty_request(), None);

    let body_hints = &request.content["nvext"]["agent_hints"];
    assert_eq!(body_hints["priority"], Value::from(2));
    assert_eq!(body_hints["osl"], Value::from(0));
    assert_eq!(body_hints["iat"], Value::from(0));
    assert_eq!(body_hints["prefix_id"], text("fallback-agent-d0"));
}

fn residual_state(now: Timestamp, key: &str) -> PriorityResidualState<F> {
    let mut residual_context = PriorityResidualContextState::default();
    residual_context.arms[PriorityResidualAction::Noop.arm() as usize] = PriorityResidualArmState {
        pulls: 1,
        effective_pulls: F(1.0),
        mean_loss: F(1.0),
    };
    residual_context.total_pulls = 1;
    residual_context.last_updated_at = Some(now);
    let mut priority_residual = PriorityResidualState::new("fallback-agent".to_string());
    priority_residual.contexts.insert(key.to_string(), residual_context);
    priority_residual.pressure_by_model.insert(
        "model".to_string(),
        PressureState {
            prefill_wait_time_ms: F(1200.0),
            last_updated_at: Some(now),
        },
    );
    priority_residual
}

#[test]
fn test_adaptive_hints_intercept_applies_priority_residual_and_records_feedback() {
    let now = Timestamp::now();
    let residual_key = "crit:medium|pressure:high|model:model";
    let mut cache = hot_cache();
    cache.dag_cpm = Some(learned(1, 1200.0, 0.6));
    cache.priority_residual = Some(residual_state(now, residual_key));
    let annotated = annotated_with_messages(vec![user("hello")]);

    let (request, returned_annotated) = send(
        Some(&cache),
        &no_prediction,
        &root_stack(),
        empty_request(),
        Some(annotated),
    );

    assert_eq!(
        request.content["nvext"]["agent_hints"]["priority"],
        Value::from(3)
    );
    assert!(request.content.get("_nemo_flow_internal").is_none());
    let internal = returned_annotated
        .unwrap()
        .extra
        .get("_nemo_flow_internal")
        .unwrap()
        .clone();
    assert_eq!(
        internal["adaptive_hints"]["selected_priority_residual_arm"],
        Value::from(2)
    );
    assert_eq!(
        internal["adaptive_hints"]["selected_priority_residual_key"],
        text(residual_key)
    );
    assert_eq!(internal["adaptive_hints"]["emitted_priority"], Value::from(3));
}

fn class_stack(key: &str, class: &str) -> ScopeStack {
    let mut stack = root_stack();
    stack.root.metadata = Some(object(vec![(
        "nemo_flow_adaptive",
        object(vec![(key, text(class))]),
    )]));
    stack
}

#[test]
fn test_adaptive_hints_intercept_uses_workflow_class_priority_cap() {
    let mut cache = hot_cache();
    cache.dag_cpm = Some(learned(3, 0.0, 1.0));
    let stack = class_stack("scheduling_class", "interactive");

    let (request, _) = send(Some(&cache), &no_prediction, &stack, empty_request(), None);

    assert_eq!(
        request.content["nvext"]["agent_hints"]["priority"],
        Value::from(5)
    );
}

#[test]
fn test_adaptive_hints_intercept_uses_join_fallback_without_matching_dag_cpm_node() {
    let mut cache = hot_cache();
    cache.dag_cpm = Some(DagCpmState::new("fallback-agent".to_string()));
    let annotated = annotated_with_messages(vec![tool_result()]);

    let (request, _) = send(
        Some(&cache),
        &no_prediction,
        &root_stack(),
        empty_request(),
        Some(annotated),
    );

    let body_hints = &request.content["nvext"]["agent_hints"];
    assert_eq!(body_hints["priority"], Value::from(2));
    assert_eq!(body_hints["osl"], Value::from(0));
    assert_eq!(body_hints["prefix_id"], text("fallback-agent-d0"));
}

#[test]
fn test_adaptive_hints_intercept_caps_join_fallback_for_background_workflow() {
    let mut cache = hot_cache();
    cache.dag_cpm = Some(DagCpmState::new("fallback-agent".to_string()));
    let annotated = annotated_with_messages(vec![tool_result()]);
    let stack = class_stack("workflow_class", "background");

    let (request, _) = send(Some(&cache), &no_prediction, &stack, empty_request(), Some(annotated));

    assert_eq!(
        request.content["nvext"]["agent_hints"]["priority"],
        Value::from(1)
    );
}

#[test]
fn test_adaptive_hints_intercept_uses_small_root_fallback_without_matching_dag_cpm_node() {
    let mut cache = hot_cache();
    cache.dag_cpm = Some(DagCpmState::new("fallback-agent".to_string()));

    let (request, _) = send(Some(&cache), &no_prediction, &root_stack(), empty_request(), None);

    assert_eq!(
        request.content["nvext"]["agent_hints"]["priority"],
        Value::from(1)
    );
}

#[test]
fn test_apply_manual_latency_override_and_inject_agent_hints_cover_manual_paths() {
    let base_hints = AgentHints {
        osl: 10,
        iat: 20,
        priority: 3,
        latency_sensitivity: F(3.0),
        prefix_id: "base-d1".into(),
        total_requests: 4,
    };

    let unchanged =
        apply_manual_latency_override(Some(base_hints.clone()), Some(2), "agent", 1).unwrap();
    assert_eq!(unchanged.latency_sensitivity, F(3.0));

    let manual_only = apply_manual_latency_override::<F>(None, Some(5), "agent", 2).unwrap();
    assert_eq!(manual_only.osl, 0);
    assert_eq!(manual_only.iat, 0);
    assert_eq!(manual_only.latency_sensitivity, F(5.0));
    assert_eq!(manual_only.prefix_id, "agent-d2");
    assert_eq!(manual_only.total_requests, 0);

    assert!(apply_manual_latency_override::<F>(None, None, "agent", 0).is_none());

    let mut non_object_request = LlmRequest {
        headers: serde_json::Map::new(),
        content: text("scalar"),
    };
    inject_agent_hints(&mut non_object_request, hints_json(&manual_only));
    assert_eq!(
        non_object_request.headers.get(AGENT_HINTS_HEADER_KEY),
        Some(&hints_json(&manual_only))
    );
    assert_eq!(non_object_request.content, text("scalar"));
}

#[test]
fn higher_manual_sensitivity_sets_the_priority() {
    let base = AgentHints {
        osl: 10,
        iat: 20,
        priority: 3,
        latency_sensitivity: F(1.0),
        prefix_id: "p".into(),
        total_requests: 4,
    };
    let raised = apply_manual_latency_override(Some(base.clone()), Some(4), "agent", 1).unwrap();
    assert_eq!(raised.latency_sensitivity, F(4.0));
    assert_eq!(raised.priority, 1);
    assert_eq!(raised.osl, 10);
    let most = apply_manual_latency_override(Some(base.clone()), Some(9), "agent", 1).unwrap();
    assert_eq!(most.priority, 0);
    let kept = apply_manual_latency_override(Some(base), None, "agent", 1).unwrap();
    assert_eq!(kept.priority, 3);
}

#[test]
fn predictions_are_held_to_their_ranges() {
    let mut pred = make_prediction(Some(9));
    pred.output_tokens.p90 = F(-4.0);
    pred.interarrival_ms.mean = F(1e20);
    pred.remaining_calls.mean = F(f64::NAN);
    let hints = build_agent_hints(Some(&pred), &None, "a", 7, 0).unwrap();
    assert_eq!(hints.osl, 0);
    assert_eq!(hints.iat, u32::MAX);
    assert_eq!(hints.priority, 0);
    assert_eq!(hints.total_requests, 7);
}

#[test]
fn caps_follow_the_workflow_class() {
    assert_eq!(priority_cap_for_workflow_class(Some(WorkflowClass::Background)), 1);
    assert_eq!(priority_cap_for_workflow_class(Some(WorkflowClass::Standard)), 3);
    assert_eq!(priority_cap_for_workflow_class(Some(WorkflowClass::Interactive)), 5);
    assert_eq!(priority_cap_for_workflow_class(None), 3);
}

#[test]
fn fallbacks_need_a_reason() {
    let join = annotated_with_messages(vec![user("q"), tool_result()]);
    let plain = annotated_with_messages(vec![tool_result(), user("q")]);
    assert!(request_ends_with_tool_result(Some(&join)));
    assert!(!request_ends_with_tool_result(Some(&plain)));
    assert!(!request_ends_with_tool_result(Some(&annotated_with_messages(vec![]))));
    assert!(!request_ends_with_tool_result(None));
    assert_eq!(fallback_priority_prior(Some(&join), 5, 2, 3), Some(2));
    assert_eq!(fallback_priority_prior(Some(&join), 5, 2, 1), Some(1));
    assert_eq!(fallback_priority_prior(Some(&join), 5, 2, 0), None);
    assert_eq!(fallback_priority_prior(Some(&plain), 5, 2, 3), None);
    assert_eq!(fallback_priority_prior(Some(&plain), 1, 2, 3), Some(1));
    assert_eq!(fallback_priority_prior(None, 5, 0, 3), Some(1));
}

#[test]
fn fallback_only_raises_a_priority() {
    let hints = |priority: i32| AgentHints {
        osl: 1,
        iat: 2,
        priority,
        latency_sensitivity: F(0.0),
        prefix_id: "p".into(),
        total_requests: 3,
    };
    let select = |priority: i32| {
        apply_dag_priority_prior(
            Some(hints(priority)),
            None,
            None,
            "root/llm:model",
            "model",
            "agent",
            0,
            3,
            Some(2),
        )
        .hints
        .unwrap()
        .priority
    };
    assert_eq!(select(0), 2);
    assert_eq!(select(4), 4);
}

#[test]
fn feedback_on_the_priority_is_kept_and_on_the_length_replaced() {
    let mut selection: HintSelection<F> = HintSelection {
        hints: None,
        feedback: Some(CallAdaptiveHints {
            emitted_priority: Some(3),
            emitted_osl: Some(7),
            ..CallAdaptiveHints::default()
        }),
    };
    merge_feedback(&mut selection, CallAdaptiveHints::default());
    assert_eq!(selection.feedback.as_ref().unwrap().emitted_osl, Some(7));
    merge_feedback(
        &mut selection,
        CallAdaptiveHints {
            emitted_priority: Some(1),
            priority_cap: Some(5),
            osl_sample_count: Some(2),
            ..CallAdaptiveHints::default()
        },
    );
    let feedback = selection.feedback.unwrap();
    assert_eq!(feedback.emitted_priority, Some(3));
    assert_eq!(feedback.priority_cap, Some(5));
    assert_eq!(feedback.emitted_osl, None);
    assert_eq!(feedback.osl_sample_count, Some(2));
}

fn confident_lengths(request: &AnnotatedLlmRequest) -> OslEmpiricalState {
    let mut state = OslEmpiricalState::new("fallback-agent".to_string());
    state.contexts.insert(
        OslContextKey {
            scope: OslContextScope::Workflow {
                agent_id: "fallback-agent".to_string(),
            },
            model: "model".to_string(),
            signature: OslRequestSignature::from_request(request),
        }
        .storage_key(),
        OslContextStats {
            samples: (1..=10).map(|n| n * 100).collect(),
            last_updated_at: None,
        },
    );
    state
}

#[test]
fn learned_length_goes_into_hints_and_feedback() {
    let mut request = annotated_with_messages(vec![user("q")]);
    let mut cache = hot_cache();
    cache.osl_empirical = Some(confident_lengths(&request));
    request.params = Some(GenerationParams { max_tokens: Some(640) });

    let (sent, annotated) = send(
        Some(&cache),
        &no_prediction,
        &root_stack(),
        empty_request(),
        Some(request),
    );

    let body_hints = &sent.content["nvext"]["agent_hints"];
    assert_eq!(body_hints["osl"], Value::from(640));
    assert_eq!(body_hints["priority"], Value::from(0));
    let annotated = annotated.unwrap();
    let stored = read_call_adaptive_hints(&annotated).unwrap();
    assert_eq!(stored.emitted_osl, Some(640));
}

#[test]
fn lengths_without_a_request_take_the_hint_back() {
    let request = annotated_with_messages(vec![user("q")]);
    let state = confident_lengths(&request);
    let selection = HintSelection {
        hints: Some(AgentHints {
            osl: 9,
            iat: 0,
            priority: 0,
            latency_sensitivity: F(0.0),
            prefix_id: "p".into(),
            total_requests: 0,
        }),
        feedback: None,
    };
    let overlaid = apply_empirical_osl_overlay(selection, Some(&state), None, None, "model", "a", 0);
    assert_eq!(overlaid.hints.unwrap().osl, 0);
    assert!(overlaid.feedback.is_none());
}

#[test]
fn manual_sensitivity_keeps_priority_feedback_out() {
    let now = Timestamp::now();
    let request = annotated_with_messages(vec![user("q")]);
    let mut cache = hot_cache();
    cache.dag_cpm = Some(learned(1, 1200.0, 0.6));
    cache.priority_residual = Some(residual_state(now, "crit:medium|pressure:high|model:model"));
    cache.osl_empirical = Some(confident_lengths(&request));
    let mut stack = root_stack();
    set_latency_sensitivity(Ok(&mut stack), 4).unwrap();

    let (sent, annotated) =
        send(Some(&cache), &no_prediction, &stack, empty_request(), Some(request));

    assert_eq!(sent.content["nvext"]["agent_hints"]["priority"], Value::from(1));
    assert_eq!(sent.content["nvext"]["agent_hints"]["osl"], Value::from(900));
    let annotated = annotated.unwrap();
    let stored = read_call_adaptive_hints(&annotated).unwrap();
    assert_eq!(stored.emitted_osl, Some(900));
    assert_eq!(stored.emitted_priority, None);
    assert_eq!(stored.selected_priority_residual_arm, None);
}

#[test]
fn injection_keeps_other_extensions_and_leaves_odd_ones_alone() {
    let mut request = LlmRequest {
        headers: serde_json::Map::new(),
        content: object(vec![("nvext", object(vec![("x", Value::from(1))]))]),
    };
    inject_agent_hints(&mut request, text("hints"));
    assert_eq!(request.content["nvext"]["x"], Value::from(1));
    assert_eq!(request.content["nvext"]["agent_hints"], text("hints"));

    let mut odd = LlmRequest {
        headers: serde_json::Map::new(),
        content: object(vec![("nvext", Value::from(3))]),
    };
    inject_agent_hints(&mut odd, text("hints"));
    assert_eq!(odd.content, object(vec![("nvext", Value::from(3))]));
    assert_eq!(odd.headers.get(AGENT_HINTS_HEADER_KEY), Some(&text("hints")));
}

#[test]
fn requests_are_counted_and_the_open_agent_named() {
    let mut intercept = AdaptiveHintsIntercept::new((), "own".to_string());
    assert_eq!(intercept.effective_agent_id(None), "own");
    let first = intercept.observe_request(None);
    assert_eq!(first.call_index, 1);
    assert_eq!(first.effective_agent_id, "own");
    assert_eq!(first.priority_cap, 3);
    assert_eq!(first.root_uuid, None);
    let mut stack = root_stack();
    stack.nested.push(scope("open", ScopeType::Agent, 2));
    let second = intercept.observe_request(Some(&stack));
    assert_eq!(second.call_index, 2);
    assert_eq!(second.effective_agent_id, "open");
    assert_eq!(second.root_uuid, Some(1));
    intercept.call_counter = u32::MAX;
    assert_eq!(intercept.observe_request(None).call_index, u32::MAX);
    assert_eq!(intercept.call_counter, 0);
}
