use std::collections::VecDeque;
use std::sync::Arc;

use adaptive::fixed::Fixed;
use adaptive::osl_empirical::{
    cap_osl_to_request_limit, OslContextKey, OslContextScope, OslContextStats,
    OslEmpiricalLearner, OslEmpiricalState, OslMessageRole, OslRequestSignature,
    MAX_PERSISTENT_CONTEXTS, MAX_RUN_CONTEXTS, MAX_SAMPLES_PER_CONTEXT, OSL_MAX_SPREAD_MULTIPLIER,
};
use adaptive::records::{CallKind, CallRecord, RunRecord};
use adaptive::request::{
    AnnotatedLlmRequest, FinishReason, GenerationParams, Message, MessageContent, ToolDefinition,
};
use adaptive::time::Timestamp;

fn millis(ms: i64) -> Timestamp {
    Timestamp::new(ms.div_euclid(1000), ms.rem_euclid(1000) as u32 * 1_000_000).unwrap()
}

fn request(messages: Vec<Message>, tools: Option<Vec<ToolDefinition>>) -> AnnotatedLlmRequest {
    AnnotatedLlmRequest {
        messages,
        model: Some("model-a".to_string()),
        params: None,
        tools,
        max_output_tokens: None,
        extra: serde_json::Map::new(),
    }
}

fn user(text: &str) -> Message {
    Message::User {
        content: MessageContent::Text(text.to_string()),
    }
}

fn tool_definition() -> ToolDefinition {
    ToolDefinition {
        name: "search".to_string(),
    }
}

fn llm_call(
    output_tokens: Option<u32>,
    annotated_request: Option<AnnotatedLlmRequest>,
) -> CallRecord<Fixed> {
    let now = millis(1000);
    CallRecord {
        kind: CallKind::Llm,
        name: "llm".to_string(),
        started_at: now,
        ended_at: Some(now),
        output_tokens,
        model_name: Some("model-a".to_string()),
        annotated_request: annotated_request.map(Arc::new),
        ..Default::default()
    }
}

fn sample_run(calls: Vec<CallRecord<Fixed>>) -> RunRecord<Fixed> {
    let now = millis(2000);
    RunRecord {
        id: uuid::Uuid::now_v7().as_u128(),
        agent_id: "agent-a".to_string(),
        calls,
        started_at: now,
        ended_at: Some(now),
    }
}

fn stats(samples: &[u32]) -> OslContextStats {
    OslContextStats {
        samples: samples.iter().copied().collect(),
        last_updated_at: None,
    }
}

fn workflow_key(signature: OslRequestSignature) -> OslContextKey {
    OslContextKey {
        scope: OslContextScope::Workflow {
            agent_id: "agent-a".to_string(),
        },
        model: "model-a".to_string(),
        signature,
    }
}

fn global_key(signature: OslRequestSignature) -> OslContextKey {
    OslContextKey {
        scope: OslContextScope::Global,
        model: "model-a".to_string(),
        signature,
    }
}

#[test]
fn request_signature_handles_empty_messages() {
    let signature = OslRequestSignature::from_request(&request(vec![], None));

    assert_eq!(signature.last_message_role, OslMessageRole::Unknown);
    assert!(!signature.has_prior_assistant_message);
    assert!(!signature.has_prior_tool_message);
    assert!(!signature.tools_defined);
}

#[test]
fn request_signature_reads_initial_user_request() {
    let signature = OslRequestSignature::from_request(&request(
        vec![
            Message::System {
                content: MessageContent::Text("system".to_string()),
            },
            user("question"),
        ],
        Some(vec![tool_definition()]),
    ));

    assert_eq!(signature.last_message_role, OslMessageRole::User);
    assert!(!signature.has_prior_assistant_message);
    assert!(!signature.has_prior_tool_message);
    assert!(signature.tools_defined);
}

#[test]
fn request_signature_reads_tool_loop_request() {
    let signature = OslRequestSignature::from_request(&request(
        vec![
            user("question"),
            Message::Assistant { content: None },
            Message::Tool {
                content: MessageContent::Text("result".to_string()),
                tool_call_id: "call-1".to_string(),
            },
        ],
        Some(vec![tool_definition()]),
    ));

    assert_eq!(signature.last_message_role, OslMessageRole::Tool);
    assert!(signature.has_prior_assistant_message);
    assert!(signature.has_prior_tool_message);
    assert!(signature.tools_defined);
}

#[test]
fn context_storage_key_is_stable_and_length_prefixed() {
    let key = OslContextKey {
        scope: OslContextScope::Workflow {
            agent_id: "agent|with:separators".to_string(),
        },
        model: "model|with:separators".to_string(),
        signature: OslRequestSignature {
            last_message_role: OslMessageRole::Tool,
            has_prior_assistant_message: true,
            has_prior_tool_message: true,
            tools_defined: false,
        },
    }
    .storage_key();

    assert_eq!(
        key,
        "scope=workflow:21:agent|with:separators|model=21:model|with:separators|last=tool|prior_asst=1|prior_tool=1|tools=0"
    );
}

#[test]
fn context_storage_key_distinguishes_scopes() {
    let root_uuid = 42;
    let signature = OslRequestSignature {
        last_message_role: OslMessageRole::User,
        has_prior_assistant_message: false,
        has_prior_tool_message: false,
        tools_defined: true,
    };

    let run_key = OslContextKey {
        scope: OslContextScope::Run { root_uuid },
        model: "model-a".to_string(),
        signature,
    }
    .storage_key();
    let global_key = global_key(signature).storage_key();

    assert_ne!(run_key, global_key);
    assert!(run_key.starts_with("scope=run:"));
    assert!(global_key.starts_with("scope=global"));
    assert!(run_key.contains(&uuid::Uuid::from_u128(42).to_string()));
}

#[test]
fn nearest_rank_quantile_uses_exact_integer_rank() {
    let stats = stats(&[10, 20, 30, 40, 50, 60, 70, 80, 90, 100]);

    assert_eq!(stats.nearest_rank_quantile(50), Some(50));
    assert_eq!(stats.nearest_rank_quantile(85), Some(90));
    assert_eq!(stats.nearest_rank_quantile(90), Some(90));
    assert_eq!(stats.nearest_rank_quantile(100), Some(100));
    assert_eq!(stats.nearest_rank_quantile(0), None);
    assert_eq!(stats.nearest_rank_quantile(101), None);
}

#[test]
fn confidence_requires_min_samples() {
    let stats = stats(&[100, 100, 100]);

    assert!(!stats.is_confident(4));
    assert!(stats.is_confident(3));
}

#[test]
fn confidence_uses_exact_p90_p50_spread_boundary() {
    let passing = stats(&[10, 10, 10, 10, 10, 10, 10, 10, 40, 40]);
    let failing = stats(&[10, 10, 10, 10, 10, 10, 10, 10, 41, 41]);

    assert_eq!(OSL_MAX_SPREAD_MULTIPLIER, 4);
    assert!(passing.is_confident(10));
    assert!(!failing.is_confident(10));
}

#[test]
fn predict_p85_requires_confidence() {
    let confident = stats(&[10, 20, 30, 40, 50, 60, 70, 80, 90, 100]);
    let unstable = stats(&[1, 1, 1, 1, 1, 1, 1, 1, 100, 100]);

    assert_eq!(confident.predict_p85(10), Some(90));
    assert_eq!(unstable.predict_p85(10), None);
}

#[test]
fn empirical_state_prefers_run_local_prediction_then_persistent_prediction() {
    let root_uuid = 7;
    let make = || request(vec![user("question")], Some(vec![tool_definition()]));
    let signature = OslRequestSignature::from_request(&make());
    let mut state = OslEmpiricalState::new("agent-a".to_string());
    state.contexts.insert(
        workflow_key(signature).storage_key(),
        stats(&[100, 200, 300, 400, 500, 600, 700, 800, 900, 1000]),
    );

    for output_tokens in [10, 20, 30] {
        let call = llm_call(Some(output_tokens), Some(make()));
        assert!(state.observe_run_call(root_uuid, &call));
    }

    let run_outcome = state.predict(Some(root_uuid), "agent-a", "model-a", signature);
    assert_eq!(run_outcome.source, "run_local");
    assert_eq!(run_outcome.emitted_osl, Some(30));
    assert!(run_outcome.confidence_passed);
    assert_eq!(run_outcome.sample_count, Some(3));

    let persistent_outcome = state.predict(None, "agent-a", "model-a", signature);
    assert_eq!(persistent_outcome.source, "workflow");
    assert_eq!(persistent_outcome.emitted_osl, Some(900));
    assert!(persistent_outcome.confidence_passed);

    state.clear_run_contexts(root_uuid);
    assert!(state.run_contexts.is_empty());
    assert_eq!(
        state
            .predict(Some(root_uuid), "agent-a", "model-a", signature)
            .emitted_osl,
        Some(900)
    );
}

#[test]
fn empirical_state_reports_unconfident_and_missing_contexts() {
    let req = request(vec![user("question")], None);
    let signature = OslRequestSignature::from_request(&req);
    let mut state = OslEmpiricalState::new("agent-a".to_string());

    let missing = state.predict(None, "agent-a", "model-a", signature);
    assert_eq!(missing.source, "none");
    assert_eq!(missing.emitted_osl, None);
    assert!(!missing.confidence_passed);
    assert_eq!(missing.sample_count, None);

    state.observe_run_call(12, &llm_call(Some(100), Some(req)));
    let unconfident = state.predict(Some(12), "agent-a", "model-a", signature);
    assert_eq!(unconfident.source, "run_local");
    assert_eq!(unconfident.emitted_osl, None);
    assert!(!unconfident.confidence_passed);
    assert_eq!(unconfident.sample_count, Some(1));
}

#[test]
fn empirical_state_bounds_persistent_and_run_context_counts() {
    let mut state = OslEmpiricalState::new("agent-a".to_string());
    let old_time = millis(1000);
    let new_time = millis(2000);
    for index in 0..=MAX_PERSISTENT_CONTEXTS {
        state.contexts.insert(
            format!("persistent-{index}"),
            OslContextStats {
                samples: VecDeque::from([index as u32]),
                last_updated_at: Some(old_time),
            },
        );
    }
    state.contexts.insert(
        "newest".to_string(),
        OslContextStats {
            samples: VecDeque::from([999]),
            last_updated_at: Some(new_time),
        },
    );

    let req = request(vec![user("question")], None);
    let signature = OslRequestSignature::from_request(&req);
    state.observe_context(workflow_key(signature), 42, new_time);
    assert!(state.contexts.len() <= MAX_PERSISTENT_CONTEXTS);
    assert!(state.contexts.contains_key("newest"));

    let call = llm_call(Some(42), Some(req));
    assert!(state.observe_run_call(1, &call));

    for index in 0..=MAX_RUN_CONTEXTS {
        state.run_contexts.insert(
            format!("run-{index}"),
            OslContextStats {
                samples: VecDeque::from([index as u32]),
                last_updated_at: Some(old_time),
            },
        );
    }
    assert!(state.observe_run_call(2, &call));
    assert!(state.run_contexts.len() <= MAX_RUN_CONTEXTS);
}

#[test]
fn observe_records_time_and_evicts_oldest_samples() {
    let mut stats = OslContextStats::default();
    let first = millis(1000);
    let second = millis(2000);
    let third = millis(3000);

    stats.observe_with_limit(10, first, 2);
    stats.observe_with_limit(20, second, 2);
    stats.observe_with_limit(30, third, 2);

    assert_eq!(stats.sample_count(), 2);
    assert_eq!(stats.samples, VecDeque::from([20, 30]));
    assert_eq!(stats.last_updated_at, Some(third));
}

#[test]
fn observe_with_zero_limit_retains_no_samples() {
    let mut stats = OslContextStats::default();
    let observed_at = millis(1000);

    stats.observe_with_limit(10, observed_at, 0);

    assert_eq!(stats.sample_count(), 0);
    assert_eq!(stats.last_updated_at, Some(observed_at));
}

#[test]
fn empirical_learner_persists_workflow_and_global_contexts() {
    let learner = OslEmpiricalLearner::new("agent-a".to_string());
    let make = || request(vec![user("question")], Some(vec![tool_definition()]));
    let signature = OslRequestSignature::from_request(&make());
    let run = sample_run(vec![
        llm_call(Some(100), Some(make())),
        llm_call(Some(180), Some(make())),
    ]);

    let state = learner.process_run(None, &run).unwrap();

    let workflow = state.contexts.get(&workflow_key(signature).storage_key()).unwrap();
    assert_eq!(workflow.samples, VecDeque::from([100, 180]));
    let global = state.contexts.get(&global_key(signature).storage_key()).unwrap();
    assert_eq!(global.samples, VecDeque::from([100, 180]));
}

#[test]
fn empirical_learner_skips_invalid_completed_call_samples() {
    let learner = OslEmpiricalLearner::new("agent-a".to_string());
    let valid_req = || request(vec![user("question")], None);
    let mut no_model_req = valid_req();
    no_model_req.model = None;
    let mut length_call = llm_call(Some(300), Some(valid_req()));
    length_call.finish_reason = Some(FinishReason::Length);

    let run = sample_run(vec![
        llm_call(Some(120), Some(valid_req())),
        llm_call(None, Some(request(vec![], None))),
        llm_call(Some(200), None),
        CallRecord {
            model_name: None,
            ..llm_call(Some(220), Some(no_model_req))
        },
        length_call,
        CallRecord {
            kind: CallKind::Tool,
            ..llm_call(Some(500), Some(request(vec![], None)))
        },
    ]);

    let state = learner.process_run(None, &run).unwrap();

    let mut retained_samples: Vec<u32> = state
        .contexts
        .keys()
        .iter()
        .flat_map(|key| state.contexts.get(key).unwrap().samples.clone())
        .collect();
    retained_samples.sort_unstable();
    assert_eq!(retained_samples, vec![120, 120]);
}

#[test]
fn learning_keeps_the_bound_at_every_sample() {
    let learner = OslEmpiricalLearner::new("agent-a".to_string());
    let make = || request(vec![user("question")], None);
    let signature = OslRequestSignature::from_request(&make());
    let mut loaded = OslEmpiricalState::new("agent-a".to_string());
    for index in 0..MAX_PERSISTENT_CONTEXTS {
        loaded.contexts.insert(
            format!("persistent-{index}"),
            OslContextStats {
                samples: VecDeque::from([index as u32]),
                last_updated_at: Some(millis(5000)),
            },
        );
    }
    // The first sample is staler than all that is kept, so its contexts go at once.
    let mut late = llm_call(Some(180), Some(make()));
    late.ended_at = Some(millis(9000));
    let run = sample_run(vec![llm_call(Some(100), Some(make())), late]);

    let state = learner.process_run(Some(loaded), &run).unwrap();

    assert_eq!(state.contexts.len(), MAX_PERSISTENT_CONTEXTS);
    let workflow = state.contexts.get(&workflow_key(signature).storage_key()).unwrap();
    assert_eq!(workflow.samples, VecDeque::from([180]));
    let global = state.contexts.get(&global_key(signature).storage_key()).unwrap();
    assert_eq!(global.samples, VecDeque::from([180]));
}

#[test]
fn run_without_samples_teaches_nothing() {
    let learner = OslEmpiricalLearner::new("agent-a".to_string());
    assert!(learner.process_run::<Fixed>(None, &sample_run(vec![])).is_none());
}

#[test]
fn samples_beyond_the_window_are_forgotten() {
    let mut stats = OslContextStats::default();
    for n in 0..MAX_SAMPLES_PER_CONTEXT as u32 + 2 {
        stats.observe(n, millis(1));
    }
    assert_eq!(stats.sample_count(), MAX_SAMPLES_PER_CONTEXT);
    assert_eq!(stats.samples[0], 2);
}

#[test]
fn clearing_one_run_keeps_the_others() {
    let mut state = OslEmpiricalState::new("agent-a".to_string());
    let make = || request(vec![user("question")], None);
    assert!(state.observe_run_call(1, &llm_call(Some(5), Some(make()))));
    assert!(state.observe_run_call(2, &llm_call(Some(6), Some(make()))));
    assert!(state.observe_run_call(16, &llm_call(Some(7), Some(make()))));
    assert_eq!(state.run_contexts.len(), 3);
    state.clear_run_contexts(1);
    assert_eq!(state.run_contexts.len(), 2);
    let signature = OslRequestSignature::from_request(&make());
    assert_eq!(state.predict(Some(1), "agent-a", "model-a", signature).source, "none");
    assert_eq!(state.predict(Some(16), "agent-a", "model-a", signature).sample_count, Some(1));
}

#[test]
fn global_history_comes_last() {
    let req = request(vec![user("question")], None);
    let signature = OslRequestSignature::from_request(&req);
    let mut state = OslEmpiricalState::new("agent-a".to_string());
    for n in 1..=10 {
        state.observe_context(global_key(signature), n * 10, millis(i64::from(n)));
    }
    let outcome = state.predict(Some(9), "agent-a", "model-a", signature);
    assert_eq!(outcome.source, "global");
    assert_eq!(outcome.emitted_osl, Some(90));
    assert!(outcome.confidence_passed);
    assert_eq!(outcome.sample_count, Some(10));
    let persistent = state.predict_persistent("agent-a", "model-a", signature);
    assert_eq!(persistent, Some(90));
}

#[test]
fn predictions_are_held_to_the_limit_of_the_request() {
    let mut req = request(vec![], None);
    assert_eq!(cap_osl_to_request_limit(50, &req), 50);
    req.max_output_tokens = Some(40);
    assert_eq!(cap_osl_to_request_limit(50, &req), 40);
    req.params = Some(GenerationParams { max_tokens: None });
    assert_eq!(cap_osl_to_request_limit(50, &req), 40);
    req.params = Some(GenerationParams { max_tokens: Some(45) });
    assert_eq!(cap_osl_to_request_limit(50, &req), 45);
    req.params = Some(GenerationParams { max_tokens: Some(u64::MAX) });
    assert_eq!(cap_osl_to_request_limit(50, &req), 50);
}
