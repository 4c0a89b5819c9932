use std::sync::Arc;

use adaptive::dag::cpm::{
    compute_cpm, compute_cpm_with_horizons, cpm_call_samples, DagCpmCallSample,
    DEFAULT_QUEUE_HORIZON_MS,
};
use adaptive::dag::graph::{
    build_completed_run_dag, llm_structural_key, CompletedRunDag, RunDagEdge, RunDagEdgeKind,
};
use adaptive::dag::state::{
    backend_prefill_wait_ms, project_priority_prior, DagCpmLearner, DagCpmNodeState, DagCpmState,
    DagQueueWaitWindow, DAG_CPM_EWMA_ALPHA_TENTHS, DAG_CPM_MAX_NODES, DAG_CPM_QUEUE_WAIT_WINDOW,
    DAG_CPM_RETENTION_DAYS, MAX_DAG_PRIORITY_CAP,
};
use adaptive::dag::topology::adjacency;
use adaptive::model::model_bucket;
use adaptive::order::Ordered;
use adaptive::records::{BackendTiming, CallKind, CallRecord, RunRecord};
use adaptive::request::{
    AnnotatedLlmRequest, AnnotatedLlmResponse, Message, MessageContent, ResponseToolCall,
};
use adaptive::scalar::Scalar;
use adaptive::time::Timestamp;

/// Machine floating point as the number type.
#[derive(Debug, Clone, Copy, PartialEq)]
struct F(f64);

impl Ordered for F {
    fn not_after(self, other: F) -> bool {
        self.0.total_cmp(&other.0).is_le()
    }
}

impl Scalar for F {
    fn of_ratio(num: i64, den: u64) -> F {
        F(num as f64 / den as f64)
    }
    fn of_float_bits(bits: u64) -> F {
        F(f64::from_bits(bits))
    }
    fn infinity() -> F {
        F(f64::INFINITY)
    }
    fn add(self, rhs: F) -> F {
        F(self.0 + rhs.0)
    }
    fn sub(self, rhs: F) -> F {
        F(self.0 - rhs.0)
    }
    fn mul(self, rhs: F) -> F {
        F(self.0 * rhs.0)
    }
    fn div(self, rhs: F) -> F {
        F(self.0 / rhs.0)
    }
    fn max_of(self, rhs: F) -> F {
        F(self.0.max(rhs.0))
    }
    fn min_of(self, rhs: F) -> F {
        F(self.0.min(rhs.0))
    }
    fn lt(self, rhs: F) -> bool {
        self.0 < rhs.0
    }
    fn le(self, rhs: F) -> bool {
        self.0 <= rhs.0
    }
    fn is_finite(self) -> bool {
        self.0.is_finite()
    }
    fn round(self) -> i64 {
        self.0.round() as i64
    }
    fn ln_1p(self) -> F {
        F(self.0.ln_1p())
    }
    fn sqrt(self) -> F {
        F(self.0.sqrt())
    }
}

fn after(base: Timestamp, ms: i64) -> Timestamp {
    let nanos = i128::from(base.seconds()) * 1_000_000_000
        + i128::from(base.subsec_nanos())
        + i128::from(ms) * 1_000_000;
    let secs = nanos.div_euclid(1_000_000_000);
    Timestamp::new(secs as i64, nanos.rem_euclid(1_000_000_000) as u32).unwrap()
}

fn fresh_uuid() -> u128 {
    uuid::Uuid::new_v4().as_u128()
}

fn call(
    kind: CallKind,
    name: &str,
    base: Timestamp,
    start_ms: i64,
    end_ms: Option<i64>,
    parent_uuid: Option<u128>,
) -> CallRecord<F> {
    CallRecord {
        kind,
        name: name.to_string(),
        started_at: after(base, start_ms),
        ended_at: end_ms.map(|offset| after(base, offset)),
        scope_uuid: fresh_uuid(),
        parent_uuid,
        function_path: vec!["agent".to_string()],
        ..CallRecord::default()
    }
}

fn run(calls: Vec<CallRecord<F>>) -> RunRecord<F> {
    let base = calls
        .first()
        .map(|call| call.started_at)
        .unwrap_or_else(Timestamp::now);
    let ended_at = calls
        .iter()
        .filter_map(|call| call.ended_at)
        .max_by_key(|at| (at.seconds(), at.subsec_nanos()));
    RunRecord {
        id: uuid::Uuid::now_v7().as_u128(),
        agent_id: "agent".to_string(),
        calls,
        started_at: base,
        ended_at,
    }
}

fn llm_response_tool_calls(ids: &[(&str, &str)]) -> Arc<AnnotatedLlmResponse> {
    Arc::new(AnnotatedLlmResponse {
        model: Some("model".to_string()),
        tool_calls: Some(
            ids.iter()
                .map(|(id, name)| ResponseToolCall {
                    id: (*id).to_string(),
                    name: (*name).to_string(),
                })
                .collect(),
        ),
        finish_reason: None,
        usage: None,
        extra: serde_json::Map::new(),
    })
}

fn llm_request_tool_results(ids: &[&str]) -> Arc<AnnotatedLlmRequest> {
    Arc::new(AnnotatedLlmRequest {
        messages: ids
            .iter()
            .map(|id| Message::Tool {
                content: MessageContent::Text("tool result".to_string()),
                tool_call_id: (*id).to_string(),
            })
            .collect(),
        model: Some("model".to_string()),
        params: None,
        tools: None,
        max_output_tokens: None,
        extra: serde_json::Map::new(),
    })
}

fn set_tool_call_id(mut call: CallRecord<F>, tool_call_id: &str) -> CallRecord<F> {
    call.tool_call_id = Some(tool_call_id.to_string());
    call
}

fn assert_close(actual: F, expected: f64) {
    assert!(
        (actual.0 - expected).abs() < 1e-9,
        "expected {expected}, got {actual:?}"
    );
}

fn edge_names(graph: &CompletedRunDag<F>) -> Vec<(&str, &str, RunDagEdgeKind)> {
    graph
        .edges
        .iter()
        .map(|edge| {
            (
                graph.nodes[edge.from].name.as_str(),
                graph.nodes[edge.to].name.as_str(),
                edge.kind,
            )
        })
        .collect()
}

#[test]
fn completed_run_dag_keeps_tools_but_only_llms_emit_priority() {
    let base = Timestamp::now();
    let parent_uuid = fresh_uuid();
    let graph = build_completed_run_dag(&run(vec![
        call(CallKind::Llm, "planner", base, 0, Some(10), Some(parent_uuid)),
        call(CallKind::Tool, "search", base, 10, Some(30), Some(parent_uuid)),
        call(CallKind::Llm, "synth", base, 30, Some(40), Some(parent_uuid)),
    ]));

    assert_eq!(graph.nodes.len(), 3);
    assert_eq!(
        graph
            .nodes
            .iter()
            .filter(|node| node.emits_priority)
            .map(|node| node.name.as_str())
            .collect::<Vec<_>>(),
        vec!["planner", "synth"]
    );
    assert!(graph.nodes.iter().any(|node| node.kind == CallKind::Tool));
}

#[test]
fn completed_run_dag_infers_tool_call_dependency_edges() {
    let base = Timestamp::now();
    let mut planner = call(CallKind::Llm, "planner", base, 0, Some(10), None);
    planner.annotated_response = Some(llm_response_tool_calls(&[
        ("call-fast", "fast"),
        ("call-slow", "slow"),
    ]));
    let fast = set_tool_call_id(
        call(CallKind::Tool, "fast", base, 10, Some(30), None),
        "call-fast",
    );
    let slow = set_tool_call_id(
        call(CallKind::Tool, "slow", base, 11, Some(50), None),
        "call-slow",
    );
    let mut synth = call(CallKind::Llm, "synth", base, 51, Some(70), None);
    synth.annotated_request = Some(llm_request_tool_results(&["call-fast", "call-slow"]));

    let graph = build_completed_run_dag(&run(vec![planner, fast, slow, synth]));

    let edge_names = edge_names(&graph);
    assert!(edge_names.contains(&("planner", "fast", RunDagEdgeKind::LlmToolCall)));
    assert!(edge_names.contains(&("planner", "slow", RunDagEdgeKind::LlmToolCall)));
    assert!(edge_names.contains(&("fast", "synth", RunDagEdgeKind::ToolResult)));
    assert!(edge_names.contains(&("slow", "synth", RunDagEdgeKind::ToolResult)));
}

#[test]
fn completed_run_dag_collapses_missing_tool_spans_to_llm_dependency() {
    let base = Timestamp::now();
    let mut planner = call(CallKind::Llm, "planner", base, 0, Some(10), None);
    planner.annotated_response = Some(llm_response_tool_calls(&[("call-search", "search")]));
    let mut synth = call(CallKind::Llm, "synth", base, 50, Some(70), None);
    synth.annotated_request = Some(llm_request_tool_results(&["call-search"]));

    let graph = build_completed_run_dag(&run(vec![planner, synth]));

    assert_eq!(
        edge_names(&graph),
        vec![("planner", "synth", RunDagEdgeKind::LlmToolResult)]
    );
}

#[test]
fn completed_run_dag_uses_llm_backend_service_duration_when_available() {
    let base = Timestamp::now();
    let mut llm = call(CallKind::Llm, "planner", base, 0, Some(100), None);
    llm.backend_timing = Some(BackendTiming {
        total_time_ms: Some(F(80.0)),
        prefill_wait_time_ms: Some(F(25.0)),
        ..BackendTiming::default()
    });

    let graph = build_completed_run_dag(&run(vec![llm]));

    assert_eq!(graph.nodes[0].duration_ms, F(55.0));
}

#[test]
fn completed_run_dag_keeps_run_call_index_separate_from_structural_key() {
    let base = Timestamp::now();
    let parent_uuid = fresh_uuid();
    let mut first = call(CallKind::Llm, "branch", base, 0, Some(50), Some(parent_uuid));
    first.run_call_index = Some(3);
    let mut second = call(CallKind::Llm, "branch", base, 1, Some(10), Some(parent_uuid));
    second.run_call_index = Some(4);

    let graph = build_completed_run_dag(&run(vec![first, second]));

    assert_eq!(graph.nodes[0].structural_key, "agent/llm:branch");
    assert_eq!(graph.nodes[1].structural_key, "agent/llm:branch");
    assert_eq!(graph.nodes[0].run_call_index, Some(3));
    assert_eq!(graph.nodes[1].run_call_index, Some(4));
}

#[test]
fn completed_run_dag_only_uses_completed_parent_scope_as_dependency() {
    let base = Timestamp::now();
    let completed_parent = call(CallKind::Tool, "outer", base, 0, Some(10), None);
    let completed_child = call(
        CallKind::Llm,
        "after_outer",
        base,
        11,
        Some(20),
        Some(completed_parent.scope_uuid),
    );
    let overlapping_parent = call(CallKind::Tool, "wrapper", base, 30, Some(80), None);
    let overlapping_child = call(
        CallKind::Llm,
        "inside_wrapper",
        base,
        40,
        Some(60),
        Some(overlapping_parent.scope_uuid),
    );
    let graph = build_completed_run_dag(&run(vec![
        completed_parent,
        completed_child,
        overlapping_parent,
        overlapping_child,
    ]));

    let parent_edges = graph
        .edges
        .iter()
        .filter(|edge| edge.kind == RunDagEdgeKind::ParentScope)
        .map(|edge| {
            (
                graph.nodes[edge.from].name.as_str(),
                graph.nodes[edge.to].name.as_str(),
            )
        })
        .collect::<Vec<_>>();

    assert_eq!(parent_edges, vec![("outer", "after_outer")]);
}

#[test]
fn completed_run_dag_does_not_infer_timing_edges_for_unknown_dependencies() {
    let base = Timestamp::now();
    let graph = build_completed_run_dag(&run(vec![
        call(CallKind::Llm, "first", base, 0, Some(10), None),
        call(CallKind::Llm, "second", base, 20, Some(30), None),
    ]));

    assert!(
        graph.edges.is_empty(),
        "observed order without parent or tool-call linkage does not prove dependency"
    );
}

#[test]
fn completed_run_dag_skips_incomplete_calls() {
    let base = Timestamp::now();
    let graph = build_completed_run_dag(&run(vec![
        call(CallKind::Llm, "complete", base, 0, Some(10), None),
        call(CallKind::Tool, "incomplete", base, 10, None, None),
    ]));

    assert_eq!(graph.nodes.len(), 1);
    assert_eq!(graph.nodes[0].name, "complete");
}

fn fanout_join(base: Timestamp) -> RunRecord<F> {
    let mut planner = call(CallKind::Llm, "planner", base, 0, Some(1000), None);
    planner.annotated_response = Some(llm_response_tool_calls(&[
        ("call-fast", "fast"),
        ("call-slow", "slow"),
    ]));
    let fast = set_tool_call_id(
        call(CallKind::Tool, "fast", base, 1000, Some(2000), None),
        "call-fast",
    );
    let slow = set_tool_call_id(
        call(CallKind::Tool, "slow", base, 1000, Some(3000), None),
        "call-slow",
    );
    let mut synth = call(CallKind::Llm, "synth", base, 3000, Some(4000), None);
    synth.annotated_request = Some(llm_request_tool_results(&["call-fast", "call-slow"]));
    run(vec![planner, fast, slow, synth])
}

#[test]
fn completed_run_cpm_computes_slack_and_criticality_from_fanout_join() {
    let graph = build_completed_run_dag(&fanout_join(Timestamp::now()));

    let cpm = compute_cpm(&graph, Some(F(1000.0))).expect("graph is acyclic");

    assert_close(cpm.workflow_finish_ms, 4000.0);
    assert_close(cpm.queue_horizon_ms, 1000.0);

    let by_name = graph
        .nodes
        .iter()
        .zip(cpm.nodes.iter())
        .map(|(node, cpm_node)| (node.name.as_str(), cpm_node))
        .collect::<std::collections::HashMap<_, _>>();

    assert_close(by_name["planner"].slack_ms, 0.0);
    assert_close(by_name["planner"].criticality, 1.0);
    assert_close(by_name["fast"].slack_ms, 1000.0);
    assert_close(by_name["fast"].criticality, 0.0);
    assert_close(by_name["slow"].slack_ms, 0.0);
    assert_close(by_name["slow"].criticality, 1.0);
    assert_close(by_name["synth"].slack_ms, 0.0);
    assert_close(by_name["synth"].criticality, 1.0);
}

#[test]
fn completed_run_cpm_clamps_queue_horizon() {
    let base = Timestamp::now();
    let graph = build_completed_run_dag(&run(vec![call(
        CallKind::Llm,
        "single",
        base,
        0,
        Some(10),
        None,
    )]));

    assert_close(compute_cpm(&graph, None).unwrap().queue_horizon_ms, 3000.0);
    assert_close(
        compute_cpm(&graph, Some(F(4.0))).unwrap().queue_horizon_ms,
        1000.0,
    );
    assert_close(
        compute_cpm(&graph, Some(F(15_000.0)))
            .unwrap()
            .queue_horizon_ms,
        9000.0,
    );
    assert_close(
        compute_cpm(&graph, Some(F(f64::NAN)))
            .unwrap()
            .queue_horizon_ms,
        3000.0,
    );
}

#[test]
fn completed_run_cpm_priority_nodes_match_llm_nodes() {
    let base = Timestamp::now();
    let parent_uuid = fresh_uuid();
    let graph = build_completed_run_dag(&run(vec![
        call(CallKind::Llm, "planner", base, 0, Some(10), Some(parent_uuid)),
        call(CallKind::Tool, "search", base, 10, Some(20), Some(parent_uuid)),
        call(CallKind::Llm, "synth", base, 20, Some(30), Some(parent_uuid)),
    ]));
    let cpm = compute_cpm(&graph, None).expect("graph is acyclic");

    assert_eq!(
        cpm.priority_nodes(&graph)
            .iter()
            .map(|(node, _)| node.name.as_str())
            .collect::<Vec<_>>(),
        vec!["planner", "synth"]
    );
}

#[test]
fn completed_run_cpm_returns_none_for_cyclic_graph() {
    let base = Timestamp::now();
    let mut graph = build_completed_run_dag(&run(vec![
        call(CallKind::Llm, "a", base, 0, Some(10), None),
        call(CallKind::Llm, "b", base, 10, Some(20), None),
    ]));
    graph.edges = vec![
        RunDagEdge {
            from: 0,
            to: 1,
            kind: RunDagEdgeKind::ParentScope,
        },
        RunDagEdge {
            from: 1,
            to: 0,
            kind: RunDagEdgeKind::ParentScope,
        },
    ];

    assert!(compute_cpm(&graph, None).is_none());
}

#[test]
fn dag_cpm_state_updates_compact_llm_aggregates_only() {
    let base = Timestamp::now();
    let parent_uuid = fresh_uuid();
    let updated_at = after(base, 5000);

    let mut planner = call(CallKind::Llm, "planner", base, 0, Some(1000), Some(parent_uuid));
    planner.backend_timing = Some(BackendTiming {
        prefill_wait_time_ms: Some(F(1200.0)),
        total_time_ms: Some(F(2200.0)),
        ..BackendTiming::default()
    });

    let mut synth = call(CallKind::Llm, "synth", base, 3000, Some(4000), Some(parent_uuid));
    synth.backend_timing = Some(BackendTiming {
        prefill_wait_time_ms: Some(F(2000.0)),
        total_time_ms: Some(F(3000.0)),
        ..BackendTiming::default()
    });

    planner.annotated_response = Some(llm_response_tool_calls(&[
        ("call-fast", "fast"),
        ("call-slow", "slow"),
    ]));
    let fast = set_tool_call_id(
        call(CallKind::Tool, "fast", base, 1000, Some(2000), Some(parent_uuid)),
        "call-fast",
    );
    let slow = set_tool_call_id(
        call(CallKind::Tool, "slow", base, 1000, Some(3000), Some(parent_uuid)),
        "call-slow",
    );
    synth.annotated_request = Some(llm_request_tool_results(&["call-fast", "call-slow"]));

    let run = run(vec![planner, fast, slow, synth]);

    let mut state = DagCpmState::new("agent".to_string());

    assert!(state.update_from_run(&run, updated_at));
    assert_eq!(state.nodes.len(), 2);
    assert!(!state.nodes.contains_key("agent/tool:fast"));
    assert!(!state.nodes.contains_key("agent/tool:slow"));

    let planner = state.nodes.get("agent/llm:planner").unwrap();
    assert_eq!(planner.observation_count, 1);
    assert_close(planner.duration_ms_ewma, 1000.0);
    assert_close(planner.slack_ms_ewma, 0.0);
    assert_close(planner.criticality_ewma, 1.0);
    assert_close(planner.queue_horizon_ms_ewma, DEFAULT_QUEUE_HORIZON_MS as f64);
    assert_eq!(planner.last_updated_at, Some(updated_at));

    let synth = state.nodes.get("agent/llm:synth").unwrap();
    assert_eq!(synth.observation_count, 1);
    assert_close(synth.duration_ms_ewma, 1000.0);
    assert_close(synth.slack_ms_ewma, 0.0);
    assert_close(synth.criticality_ewma, 1.0);
    assert_close(synth.queue_horizon_ms_ewma, DEFAULT_QUEUE_HORIZON_MS as f64);
    assert_eq!(synth.last_updated_at, Some(updated_at));
    assert_eq!(state.global_queue_wait.samples_ms, vec![F(1200.0), F(2000.0)]);
    assert_eq!(
        state.queue_wait_by_model.get("planner").unwrap().samples_ms,
        vec![F(1200.0)]
    );
    assert_eq!(
        state.queue_wait_by_model.get("model").unwrap().samples_ms,
        vec![F(2000.0)]
    );
}

#[test]
fn dag_cpm_state_updates_existing_nodes_with_ewma() {
    let base = Timestamp::now();
    let mut state = DagCpmState::new("agent".to_string());

    assert!(state.update_from_run(
        &run(vec![call(CallKind::Llm, "single", base, 0, Some(1000), None)]),
        after(base, 1000),
    ));
    assert!(state.update_from_run(
        &run(vec![call(CallKind::Llm, "single", base, 0, Some(3000), None)]),
        after(base, 3000),
    ));

    let node = state.nodes.get("agent/llm:single").unwrap();
    assert_eq!(node.observation_count, 2);
    assert_close(
        node.duration_ms_ewma,
        1000.0 + DAG_CPM_EWMA_ALPHA_TENTHS as f64 / 10.0 * (3000.0 - 1000.0),
    );
    assert_close(node.duration_ms_ewma, 1400.0);
    assert_close(node.slack_ms_ewma, 0.0);
    assert_close(node.criticality_ewma, 1.0);
    assert_close(node.queue_horizon_ms_ewma, DEFAULT_QUEUE_HORIZON_MS as f64);
}

#[test]
fn dag_cpm_state_uses_previous_per_model_queue_window_for_horizon() {
    let base = Timestamp::now();
    let mut state = DagCpmState::new("agent".to_string());
    let mut window = DagQueueWaitWindow::default();
    for wait_ms in [1000.0, 2000.0, 3000.0, 4000.0] {
        window.observe(F(wait_ms), base);
        state.global_queue_wait.observe(F(wait_ms), base);
    }
    state.queue_wait_by_model.insert("single".to_string(), window);

    let mut single = call(CallKind::Llm, "single", base, 0, Some(1000), None);
    single.backend_timing = Some(BackendTiming {
        prefill_wait_time_ms: Some(F(1500.0)),
        total_time_ms: Some(F(2500.0)),
        ..BackendTiming::default()
    });

    assert!(state.update_from_run(&run(vec![single]), after(base, 1000)));

    let node = state.nodes.get("agent/llm:single").unwrap();
    assert_close(node.queue_horizon_ms_ewma, 4000.0);
    assert_eq!(
        state.queue_wait_by_model.get("single").unwrap().samples_ms,
        vec![F(1000.0), F(2000.0), F(3000.0), F(4000.0), F(1500.0)]
    );
}

fn learned_node(last_updated_at: Option<Timestamp>) -> DagCpmNodeState<F> {
    DagCpmNodeState {
        observation_count: 1,
        duration_ms_ewma: F(1000.0),
        slack_ms_ewma: F(0.0),
        criticality_ewma: F(1.0),
        queue_horizon_ms_ewma: F(DEFAULT_QUEUE_HORIZON_MS as f64),
        last_updated_at,
    }
}

#[test]
fn dag_cpm_state_prunes_stale_nodes() {
    let base = Timestamp::now();
    let mut state = DagCpmState::new("agent".to_string());
    state.nodes.insert(
        "agent/llm:stale".to_string(),
        learned_node(Some(base.days_before(DAG_CPM_RETENTION_DAYS + 1))),
    );

    assert!(state.update_from_run(
        &run(vec![call(CallKind::Llm, "fresh", base, 0, Some(1000), None)]),
        base,
    ));

    assert!(!state.nodes.contains_key("agent/llm:stale"));
    assert!(state.nodes.contains_key("agent/llm:fresh"));
}

#[test]
fn dag_cpm_state_caps_node_count() {
    let base = Timestamp::now();
    let mut state = DagCpmState::new("agent".to_string());
    for index in 0..DAG_CPM_MAX_NODES + 5 {
        state.nodes.insert(
            format!("agent/llm:old-{index}"),
            learned_node(Some(after(base, index as i64))),
        );
    }

    assert!(state.update_from_run(
        &run(vec![call(CallKind::Llm, "fresh", base, 0, Some(1000), None)]),
        after(base, 86_400_000),
    ));

    assert_eq!(state.nodes.len(), DAG_CPM_MAX_NODES);
    assert!(state.nodes.contains_key("agent/llm:fresh"));
}

#[test]
fn dag_cpm_learner_persists_compact_state() {
    let base = Timestamp::now();
    let learner = DagCpmLearner::new("agent".to_string());
    let run = run(vec![call(CallKind::Llm, "single", base, 0, Some(1000), None)]);

    let state = learner.process_run(None, &run).unwrap();

    assert_eq!(state.agent_id, "agent");
    assert_eq!(state.nodes.len(), 1);
    assert_eq!(state.nodes.get("agent/llm:single").unwrap().observation_count, 1);
}

#[test]
fn learner_keeps_what_was_loaded_and_names_its_own_agent() {
    let base = Timestamp::now();
    let learner = DagCpmLearner::new("agent".to_string());
    let mut loaded = DagCpmState::new("somebody else".to_string());
    loaded
        .nodes
        .insert("agent/llm:known".to_string(), learned_node(Some(base)));

    let state = learner
        .process_run(
            Some(loaded),
            &run(vec![call(CallKind::Llm, "single", base, 0, Some(1000), None)]),
        )
        .unwrap();

    assert_eq!(state.agent_id, "agent");
    assert_eq!(state.nodes.len(), 2);
    assert!(state.nodes.contains_key("agent/llm:known"));
}

#[test]
fn run_without_calls_teaches_nothing() {
    let learner = DagCpmLearner::new("agent".to_string());
    assert!(learner.process_run::<F>(None, &run(vec![])).is_none());
}

#[test]
fn oldest_nodes_make_room() {
    let base = Timestamp::now();
    let mut state = DagCpmState::new("agent".to_string());
    for index in 0..DAG_CPM_MAX_NODES {
        state
            .nodes
            .insert(format!("n{index}"), learned_node(Some(after(base, index as i64))));
    }
    state.nodes.insert("never".to_string(), learned_node(None));

    assert!(state.prune(after(base, 1000)));

    assert_eq!(state.nodes.len(), DAG_CPM_MAX_NODES);
    assert!(!state.nodes.contains_key("never"));
    assert!(state.nodes.contains_key("n0"));
    assert!(!state.prune(after(base, 1000)));
}

#[test]
fn edges_to_missing_nodes_give_no_result() {
    let base = Timestamp::now();
    let mut graph = build_completed_run_dag(&run(vec![call(
        CallKind::Llm,
        "a",
        base,
        0,
        Some(10),
        None,
    )]));
    graph.edges = vec![RunDagEdge {
        from: 0,
        to: 7,
        kind: RunDagEdgeKind::ParentScope,
    }];
    assert!(compute_cpm(&graph, None).is_none());
}

#[test]
fn result_without_nodes_is_empty() {
    let graph = build_completed_run_dag(&run(vec![]));
    let cpm = compute_cpm(&graph, None).unwrap();
    assert!(cpm.nodes.is_empty());
    assert_close(cpm.workflow_finish_ms, 0.0);
}

#[test]
fn samples_carry_the_metrics_of_llm_calls() {
    let run = fanout_join(Timestamp::now());
    let samples = cpm_call_samples(&run).unwrap();
    assert_eq!(samples.len(), 2);
    assert_eq!(samples[0].scope_uuid, run.calls[0].scope_uuid);
    assert_eq!(samples[0].structural_key, "agent/llm:planner");
    assert_eq!(samples[1].structural_key, "agent/llm:synth");
    for sample in samples {
        assert_close(sample.duration_ms, 1000.0);
        assert_close(sample.slack_ms, 0.0);
        assert_close(sample.criticality, 1.0);
        assert_close(sample.queue_horizon_ms, 3000.0);
    }
}

#[test]
fn each_node_uses_its_own_horizon() {
    let graph = build_completed_run_dag(&fanout_join(Timestamp::now()));
    let horizons = vec![F(1000.0), F(2000.0), F(20.0), F(f64::NAN)];
    let cpm = compute_cpm_with_horizons(&graph, F(1.0), &horizons).unwrap();
    assert_close(cpm.queue_horizon_ms, 1.0);
    let fast = graph.nodes.iter().position(|n| n.name == "fast").unwrap();
    assert_eq!(cpm.nodes[fast].node_index, fast);
    assert_close(cpm.nodes[1].queue_horizon_ms, 2000.0);
    assert_close(cpm.nodes[2].queue_horizon_ms, 1000.0);
    assert_close(cpm.nodes[3].queue_horizon_ms, 3000.0);
    assert_close(cpm.nodes[fast].criticality, 0.5);
}

#[test]
fn queue_horizon_needs_enough_samples() {
    let base = Timestamp::now();
    let mut state: DagCpmState<F> = DagCpmState::new("agent".to_string());
    assert_close(state.queue_horizon_for_model(None), 3000.0);
    for wait_ms in [5000.0, 5000.0, 5000.0] {
        state.global_queue_wait.observe(F(wait_ms), base);
    }
    assert_close(state.queue_horizon_for_model(Some("m")), 3000.0);
    assert_eq!(state.global_queue_wait.p90_if_enough(), None);
    state.global_queue_wait.observe(F(6000.0), base);
    assert_eq!(state.global_queue_wait.p90_if_enough(), Some(F(6000.0)));
    assert_close(state.queue_horizon_for_model(Some("m")), 6000.0);
    let mut window = DagQueueWaitWindow::default();
    assert!(window.is_empty());
    for _ in 0..4 {
        window.observe(F(90_000.0), base);
    }
    assert!(!window.is_empty());
    state.queue_wait_by_model.insert("m".to_string(), window);
    assert_close(state.queue_horizon_for_model(Some("m")), 9000.0);
    assert_close(state.queue_horizon_for_model(Some("other")), 6000.0);
}

#[test]
fn queue_wait_window_forgets_the_oldest() {
    let base = Timestamp::now();
    let mut window = DagQueueWaitWindow::default();
    for index in 0..DAG_CPM_QUEUE_WAIT_WINDOW + 3 {
        window.observe(F(index as f64), base);
    }
    assert_eq!(window.samples_ms.len(), DAG_CPM_QUEUE_WAIT_WINDOW);
    assert_eq!(window.samples_ms[0], F(3.0));
    assert_eq!(window.last_updated_at, Some(base));
}

#[test]
fn unusable_samples_are_not_learned() {
    let base = Timestamp::now();
    let mut state: DagCpmState<F> = DagCpmState::new("agent".to_string());
    let bad = |duration: f64, criticality: f64, horizon: f64| DagCpmCallSample {
        scope_uuid: 1,
        structural_key: "k".to_string(),
        duration_ms: F(duration),
        slack_ms: F(0.0),
        criticality: F(criticality),
        queue_horizon_ms: F(horizon),
    };
    assert!(!state.update_from_samples(
        &vec![
            bad(-1.0, 0.5, 1000.0),
            bad(f64::NAN, 0.5, 1000.0),
            bad(1.0, 1.5, 1000.0),
            bad(1.0, -0.5, 1000.0),
            bad(1.0, 0.5, 0.0),
        ],
        base
    ));
    assert!(state.nodes.is_empty());
    assert!(state.update_from_samples(&vec![bad(1.0, 0.5, 1000.0)], base));
    assert_eq!(state.nodes.len(), 1);
}

#[test]
fn waits_of_tools_and_unusable_waits_are_ignored() {
    let base = Timestamp::now();
    let timing = |wait: f64| {
        Some(BackendTiming {
            prefill_wait_time_ms: Some(F(wait)),
            ..BackendTiming::default()
        })
    };
    let mut tool = call(CallKind::Tool, "t", base, 0, Some(1), None);
    tool.backend_timing = timing(5.0);
    let mut negative = call(CallKind::Llm, "n", base, 0, Some(1), None);
    negative.backend_timing = timing(-5.0);
    assert_eq!(backend_prefill_wait_ms(&negative), None);
    assert_eq!(backend_prefill_wait_ms(&tool), Some(F(5.0)));
    let mut state = DagCpmState::new("agent".to_string());
    assert!(!state.observe_queue_waits(&run(vec![tool, negative]), base));
    assert!(state.global_queue_wait.is_empty());
}

#[test]
fn priority_prior_scales_with_criticality() {
    let with = |criticality: f64| DagCpmNodeState {
        criticality_ewma: F(criticality),
        ..learned_node(None)
    };
    assert_eq!(project_priority_prior(&with(1.0), 0, 3), Some(3));
    assert_eq!(project_priority_prior(&with(0.5), 0, 3), Some(2));
    assert_eq!(project_priority_prior(&with(0.0), 0, 3), Some(0));
    assert_eq!(project_priority_prior(&with(7.0), 0, 3), Some(3));
    assert_eq!(project_priority_prior(&with(1.0), 0, 9), Some(MAX_DAG_PRIORITY_CAP));
    assert_eq!(project_priority_prior(&with(1.0), 2, 3), Some(3));
    assert_eq!(project_priority_prior(&with(1.0), -2, 3), Some(1));
    assert_eq!(project_priority_prior(&with(0.0), -2, 3), Some(0));
    assert_eq!(project_priority_prior(&with(f64::NAN), 0, 3), None);
}

#[test]
fn structural_keys_fall_back_to_the_root() {
    assert_eq!(llm_structural_key(&[], "model"), "root/llm:model");
    assert_eq!(
        llm_structural_key(&["a".to_string(), "b".to_string()], "model"),
        "a/b/llm:model"
    );
}

#[test]
fn model_names_are_normalized() {
    assert_eq!(model_bucket("Meta/Llama-3.1 70B"), "meta-llama-3-1-70b");
    assert_eq!(model_bucket("--GPT--"), "gpt");
    assert_eq!(model_bucket("///"), "unknown");
    assert_eq!(model_bucket(""), "unknown");
    assert_eq!(model_bucket(&"x".repeat(80)).len(), 64);
}

#[test]
fn adjacency_lists_follow_the_edges() {
    let edges = vec![
        RunDagEdge { from: 2, to: 0, kind: RunDagEdgeKind::ParentScope },
        RunDagEdge { from: 0, to: 1, kind: RunDagEdgeKind::ParentScope },
        RunDagEdge { from: 2, to: 1, kind: RunDagEdgeKind::ToolResult },
    ];
    let (predecessors, successors) = adjacency(&edges, 3).unwrap();
    assert_eq!(predecessors, vec![vec![2], vec![0, 2], vec![]]);
    assert_eq!(successors, vec![vec![1], vec![], vec![0, 1]]);
    assert!(adjacency(&edges, 2).is_none());
}
