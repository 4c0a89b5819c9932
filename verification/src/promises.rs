//! What callers of the public functions can rely on.
//!
//! Each law here speaks of calls: where a function was called with some arguments and returned a
//! result, the result is as stated.
use crate::adaptive_hints_intercept::{apply_dag_priority_prior, apply_empirical_osl_overlay, apply_manual_latency_override, base_hints, build_agent_hints, complete_request, context_read, fallback_priority, fallback_priority_prior, hint_selection, inject_agent_hints, learned_priority, load_hint_selection, manually_overridden, merge_feedback, osl_overlaid, plan_request, pointed, prioritized, priority_cap_for_workflow_class, request_ends_with_tool_result, request_hinted, request_plan, AdaptiveHintsIntercept, HintSelection, RequestContext};
use crate::cache::{hints_view, AgentHints, HotCache, LlmCallPrediction};
use crate::context_helpers::{class_named, extract_graph_call_context, extract_scope_path, graph_context_at, highest_sensitivity, names_task, nearest_boundary, nearest_class, path_names, read_manual_latency_sensitivity, read_workflow_class, resolve_root_scope_uuid, resolve_run_boundary_scope_uuid, resolve_shared_parent_scope_identity, set_latency_sensitivity, top_raised, SharedParentScopeIdentity, WorkflowClass};
use crate::dag::cpm::{compute_cpm, graph_of, horizon_for, lemma_graph_in_range, same_horizons, CompletedRunCpm, DagCpmCallSample};
use crate::dag::critical_path::{end_of, exact_result, held_horizon, is_path, law_calls_are_as_critical_as_their_slack, law_finish_is_longest_path, law_horizon_is_held, law_priority_is_the_nearest_share, law_slack_is_room_beside_longest_path, measured, path_cost};
use crate::dag::graph::{build_completed_run_dag, call_model, key_text, CompletedRunDag};
use crate::dag::state::{any_valid_sample, any_wait, backend_prefill_wait_ms, calls_waited, node_observed, project_priority_prior, run_learned, run_processed, samples_learned, shrunk, tidied, wait_observed, window_percentile, DagCpmLearner, DagCpmNodeState, DagCpmState, DagQueueWaitWindow};
use crate::dag::topology::acyclic;
use crate::drain::{apply_llm_end_metadata, backend_timing_from_response_extra, clear_run_local_osl, event_processed, llm_end_noted, next_stage, observe_run_local_osl, stage_for, timing_of, DrainStage, RunAccumulator, RunEventOutcome};
use crate::fixed::{Fixed, WHOLE};
use crate::json::json_entries;
use crate::learning::{alike, enough_waits, estimated_from, law_decisions_read_the_latest_wait, law_learned_lengths_predict, law_llm_calls_are_stored, law_stored_calls_are_judged_by_their_models_waits, last_of_all, lengths_like, loaded_waits, loaded_waits_of_all, observed_at, waited_for};
use crate::model::{bucket_of, model_bucket};
use crate::order::{law_quantile_splits_the_samples, splits_at};
use crate::osl_empirical::{call_sample, cap_osl_to_request_limit, capped_to_request, confident, context_observed as osl_observed, key_of, law_lookup_without_run_is_persistent, run_call_observed, run_prefix, sample_quantile, signature_of, OslContextKey, OslContextStats, OslEmpiricalLearner, OslEmpiricalState, OslPredictionOutcome, OslRequestSignature};
use crate::priority_residual::{calls_absorbed, context_key, context_observed, criticality_band, loss_attributed, pressure_band, pressure_observed, priority_residual_loss, residual_context_key, residual_loss, residual_processed, residual_shrunk, residual_tidied, selected_action, PriorityResidualAction, PriorityResidualArmState, PriorityResidualContextState, PriorityResidualDecision, PriorityResidualLearner, PriorityResidualState};
use crate::records::{blank_feedback, carried_feedback, law_feedback_reads_back, takes_feedback, BackendTiming, CallAdaptiveHints, CallKind, CallRecord, GraphCallContext, RunRecord};
use crate::request::{AnnotatedLlmRequest, LlmRequest, Message};
use crate::request_features::{describes, extract_message_features, law_join_width_counts_trailing_results, RequestMessageFeatures};
use crate::scalar::{zero_of, Scalar};
use crate::scheduling::{derive_priority_decision, key_for, law_features_make_the_priority, PriorityDecision, PriorityResidualAction as PriorityStep, PriorityScale, RuntimePriorityFeatures};
use crate::scope::{Event, ScopeStack};
use crate::subscriber::{bounds_run, event_to_call_record, is_run_boundary, started_by, starts_call};
use crate::text::{optional_text, texts};
use crate::time::{days_earlier, nanos_between, whole_millis, Timestamp};
use serde_json::Value;
use vstd::prelude::*;

verus! {

/// The critical path of a run, computed in exact arithmetic: the workflow takes as long as its longest
/// path of calls that depend on one another, a call has as much slack as it leaves beside the longest
/// path through it, and its criticality is the share of the horizon that its slack leaves. The horizon
/// is the given one held to its bounds, or else the default one.
#[verifier::spinoff_prover]
#[verifier::rlimit(40)]
pub proof fn law_computed_path_is_critical(
    run: RunRecord<Fixed>,
    dag: CompletedRunDag<Fixed>,
    observed: Option<Fixed>,
    r: Option<CompletedRunCpm<Fixed>>,
    v: int,
)
    requires
        call_ensures(build_completed_run_dag::<Fixed>, (&run,), dag),
        call_ensures(compute_cpm::<Fixed>, (&dag, observed), r),
        measured(dag.nodes@),
        0 <= v < dag.nodes@.len(),
    ensures
        graph_of(run, dag),
        r is Some <==> acyclic(dag.edges@),
        r matches Some(cpm) ==> {
            let n = dag.nodes@.len() as int;
            let slack = cpm.nodes@[v].slack_ms.millionths as int;
            let horizon = cpm.nodes@[v].queue_horizon_ms.millionths as int;
            let criticality = cpm.nodes@[v].criticality.millionths as int;
            &&& cpm.nodes@.len() == n
            &&& forall|path: Seq<int>| #[trigger]
                is_path(dag.edges@, n, path) ==> path_cost(dag.nodes@, path) <= end_of(cpm)
            &&& exists|path: Seq<int>| #[trigger]
                is_path(dag.edges@, n, path) && path_cost(dag.nodes@, path) == end_of(cpm)
            &&& forall|path: Seq<int>| #[trigger]
                is_path(dag.edges@, n, path) && path.contains(v) ==> slack <= end_of(cpm)
                    - path_cost(dag.nodes@, path)
            &&& exists|path: Seq<int>| #[trigger]
                is_path(dag.edges@, n, path) && path.contains(v) && slack == end_of(cpm)
                    - path_cost(dag.nodes@, path)
            &&& held_horizon(observed, cpm.nodes@[v].queue_horizon_ms)
            &&& slack <= horizon ==> WHOLE * (horizon - slack) <= criticality * horizon < WHOLE * (
            horizon - slack) + horizon
            &&& slack >= horizon ==> criticality == 0
        },
{
    lemma_graph_in_range(dag.nodes@, dag.edges@);
    if let Some(cpm) = r {
        let horizon = horizon_for(observed);
        let horizons = same_horizons(horizon, dag.nodes@.len());
        assert(exact_result(dag, horizon, horizons, cpm));
        law_finish_is_longest_path(dag, horizon, horizons, cpm);
        law_slack_is_room_beside_longest_path(dag, horizon, horizons, cpm, v);
        law_calls_are_as_critical_as_their_slack(dag, horizon, horizons, cpm, v);
        law_horizon_is_held(observed);
    }
}

/// A completed LLM call of a run that the critical-path learner takes in is stored by its path and
/// name. Seen for the first time, it is judged by the waits that were loaded for its own model, when
/// they are enough, whatever calls to other models waited.
pub proof fn law_critical_path_learner_judges_by_model(
    learner: DagCpmLearner,
    loaded: Option<DagCpmState<Fixed>>,
    run: RunRecord<Fixed>,
    at: Timestamp,
    r: Option<DagCpmState<Fixed>>,
    c: int,
)
    requires
        call_ensures(DagCpmLearner::process_run_at::<Fixed>, (&learner, loaded, &run, at), r),
        0 <= c < run.calls@.len(),
        run.calls@[c].kind == CallKind::Llm,
        run.calls@[c].ended_at is Some,
        forall|dag: CompletedRunDag<Fixed>| #[trigger]
            graph_of(run, dag) ==> acyclic(dag.edges@) && measured(dag.nodes@),
        loaded matches Some(l) ==> l.nodes@.dom().finite() && l.nodes@.dom().len()
            + run.calls@.len() <= 512,
        loaded is None ==> run.calls@.len() <= 512,
        ({
            let key = key_text(
                "llm"@,
                texts(run.calls@[c].function_path@),
                run.calls@[c].name@,
            );
            &&& loaded matches Some(l) ==> !l.nodes@.contains_key(key)
            &&& forall|d: int|
                0 <= d < run.calls@.len() && d != c && (#[trigger] run.calls@[d]).kind
                    == CallKind::Llm ==> key_text(
                    "llm"@,
                    texts(run.calls@[d].function_path@),
                    run.calls@[d].name@,
                ) != key
        }),
    ensures
        r matches Some(state) && {
            let key = key_text(
                "llm"@,
                texts(run.calls@[c].function_path@),
                run.calls@[c].name@,
            );
            let own = loaded_waits(loaded, bucket_of(call_model(run.calls@[c])));
            let all = loaded_waits_of_all(loaded);
            let node = state.nodes@[key];
            let horizon = node.queue_horizon_ms_ewma;
            &&& state.nodes@.contains_key(key)
            &&& node.observation_count == 1
            &&& node.last_updated_at == Some(at)
            &&& enough_waits(own) ==> estimated_from(own, horizon)
            &&& !enough_waits(own) && enough_waits(all) ==> estimated_from(all, horizon)
            &&& !enough_waits(own) && !enough_waits(all) ==> held_horizon(None, horizon)
            &&& 0 <= node.slack_ms_ewma.millionths <= horizon.millionths ==> {
                let share = node.criticality_ewma.millionths * horizon.millionths;
                let left = WHOLE * (horizon.millionths - node.slack_ms_ewma.millionths);
                left <= share < left + horizon.millionths
            }
        },
{
    law_llm_calls_are_stored(learner.agent(), loaded, run, at, r, c);
    law_stored_calls_are_judged_by_their_models_waits(
        learner.agent(),
        loaded,
        run,
        at,
        r->0,
        c,
    );
}

/// What the critical-path learner stored for a call is what a request with the same path and name is
/// planned with: its priority is the whole number nearest to the share of the cap that the stored
/// criticality gives.
pub proof fn law_stored_criticality_is_planned_with(
    state: DagCpmState<Fixed>,
    cache: HotCache<Fixed>,
    prediction: Option<&LlmCallPrediction<Fixed>>,
    llm_name: &str,
    context: RequestContext,
    annotated: Option<&AnnotatedLlmRequest>,
    plan: HintSelection<Fixed>,
    path: Seq<Seq<char>>,
)
    requires
        cache.dag_cpm == Some(state),
        cache.priority_residual is None,
        context.manual_ls is None,
        texts(context.scope_path@) == path,
        state.nodes@.contains_key(key_text("llm"@, path, llm_name@)),
        0 <= state.nodes@[key_text("llm"@, path, llm_name@)].criticality_ewma.millionths <= WHOLE,
        call_ensures(
            plan_request::<Fixed>,
            (Some(&cache), prediction, llm_name, &context, annotated),
            plan,
        ),
    ensures
        ({
            let cap: int = if context.priority_cap <= 5 {
                context.priority_cap as int
            } else {
                5
            };
            let share = cap * state.nodes@[key_text(
                "llm"@,
                path,
                llm_name@,
            )].criticality_ewma.millionths;
            &&& plan.hints is Some
            &&& share - WHOLE / 2 <= plan.hints->0.priority * WHOLE <= share + WHOLE / 2
        }),
{
    let criticality = state.nodes@[key_text("llm"@, path, llm_name@)].criticality_ewma;
    let cap: int = if context.priority_cap <= 5 {
        context.priority_cap as int
    } else {
        5
    };
    law_priority_is_the_nearest_share(criticality, 0, cap);
    assert(plan@.hints is Some);
}

/// After the residual learner took in a run, a decision for a model is made from the latest usable
/// queue wait of an LLM call whose request names that model, whatever the call is named.
pub proof fn law_residual_learner_feeds_decisions(
    learner: PriorityResidualLearner,
    loaded: Option<PriorityResidualState<Fixed>>,
    run: RunRecord<Fixed>,
    at: Timestamp,
    state: PriorityResidualState<Fixed>,
    i: int,
    model: String,
    wait: Fixed,
    criticality: Fixed,
    asked: &str,
    r: Option<PriorityResidualDecision>,
)
    requires
        call_ensures(
            PriorityResidualLearner::process_run_at::<Fixed>,
            (&learner, loaded, &run, at),
            Some(state),
        ),
        0 <= i < run.calls@.len(),
        run.calls@[i].kind == CallKind::Llm,
        run.calls@[i].annotated_request matches Some(request) && request.model == Some(model),
        run.calls@[i].backend_timing matches Some(timing) && timing.prefill_wait_time_ms == Some(
            wait,
        ),
        0 <= wait.millionths < i64::MAX,
        forall|j: int|
            i < j < run.calls@.len() ==> !waited_for(
                #[trigger] run.calls@[j],
                bucket_of(model@),
            ),
        0 <= criticality.millionths < i64::MAX,
        days_earlier(at@, 14) <= observed_at(run.calls@[i], at)@,
        loaded matches Some(l) ==> l.pressure_by_model@.dom().finite()
            && l.pressure_by_model@.dom().len() + run.calls@.len() <= 64,
        loaded is None ==> run.calls@.len() <= 64,
        asked@ == model@,
        call_ensures(PriorityResidualState::<Fixed>::decision, (&state, criticality, asked), r),
    ensures
        ({
            let crit = if criticality.millionths >= 750_000 {
                "high"@
            } else if criticality.millionths >= 330_000 {
                "medium"@
            } else {
                "low"@
            };
            let pressure = if wait.millionths >= 1000 * WHOLE {
                "high"@
            } else if wait.millionths >= 250 * WHOLE {
                "moderate"@
            } else {
                "low"@
            };
            let key = "crit:"@ + crit + "|pressure:"@ + pressure + "|model:"@ + bucket_of(model@);
            r matches Some(decision) && {
                &&& decision.key@ == key
                &&& !state.contexts@.contains_key(key) ==> decision.action
                    == PriorityResidualAction::Noop
                &&& decision.delta == match decision.action {
                    PriorityResidualAction::Down => -1int,
                    PriorityResidualAction::Noop => 0,
                    PriorityResidualAction::Up => 1,
                }
            }
        }),
{
    law_decisions_read_the_latest_wait(
        learner.agent(),
        loaded,
        run,
        at,
        state,
        i,
        model,
        wait,
        criticality,
    );
}

/// Enough like output lengths of completed calls whose requests name a model, once the learner took
/// them in, predict the length of a like request that names the same model, whatever the responses
/// call it.
pub proof fn law_length_learner_feeds_predictions(
    learner: OslEmpiricalLearner,
    loaded: Option<OslEmpiricalState>,
    before: OslEmpiricalState,
    run: RunRecord<Fixed>,
    now: Timestamp,
    state: OslEmpiricalState,
    agent: &str,
    model: &str,
    signature: OslRequestSignature,
    low: u32,
    high: u32,
    r: OslPredictionOutcome,
)
    requires
        call_ensures(
            OslEmpiricalLearner::process_run_at::<Fixed>,
            (&learner, loaded, &run, now),
            Some(state),
        ),
        loaded == Some(before) || loaded is None,
        before.fresh(),
        2 * run.calls@.len() <= 512,
        10 <= lengths_like(run.calls@, model@, signature).len() <= 128,
        alike(lengths_like(run.calls@, model@, signature), low, high),
        agent@ == learner.agent(),
        call_ensures(OslEmpiricalState::predict, (&state, None, agent, model, signature), r),
    ensures
        r.source@ == "workflow"@,
        r.confidence_passed,
        r.sample_count == Some(lengths_like(run.calls@, model@, signature).len() as usize),
        r.emitted_osl matches Some(osl) && low <= osl <= high && splits_at(
            lengths_like(run.calls@, model@, signature),
            85,
            osl,
        ),
{
    law_learned_lengths_predict(
        learner.agent(),
        loaded,
        before,
        run,
        now,
        state,
        model@,
        signature,
        low,
        high,
    );
    assert(r@.source == r.source@);
    assert(r@.sample_count == Some(r.sample_count->0 as nat));
}

/// A stored criticality is projected to the whole number nearest to its share of the cap, which is
/// never above five, and the adjustment is added as far as zero and the cap allow.
pub proof fn law_projection_is_the_nearest_share(
    node: DagCpmNodeState<Fixed>,
    adjustment: i32,
    priority_cap: u32,
    plain: Option<u32>,
    adjusted: Option<u32>,
)
    requires
        0 <= node.criticality_ewma.millionths <= WHOLE,
        call_ensures(project_priority_prior::<Fixed>, (&node, 0i32, priority_cap), plain),
        call_ensures(project_priority_prior::<Fixed>, (&node, adjustment, priority_cap), adjusted),
    ensures
        ({
            let cap: int = if priority_cap <= 5 {
                priority_cap as int
            } else {
                5
            };
            let share = cap * node.criticality_ewma.millionths;
            &&& plain is Some && adjusted is Some
            &&& share - WHOLE / 2 <= plain->0 * WHOLE <= share + WHOLE / 2
            &&& 0 <= plain->0 + adjustment <= cap ==> adjusted->0 == plain->0 + adjustment
            &&& plain->0 + adjustment < 0 ==> adjusted->0 == 0
            &&& plain->0 + adjustment > cap ==> adjusted->0 == cap
        }),
{
    let cap: int = if priority_cap <= 5 {
        priority_cap as int
    } else {
        5
    };
    law_priority_is_the_nearest_share(node.criticality_ewma, adjustment as int, cap);
}

/// What the laws say of decisions and losses, they say of what the functions of the residual state
/// return and leave behind.
pub proof fn law_residual_functions_keep_the_laws(
    state: &mut PriorityResidualState<Fixed>,
    context: &mut PriorityResidualContextState<Fixed>,
    arm: &mut PriorityResidualArmState<Fixed>,
    calls: Vec<CallRecord<Fixed>>,
    samples: Vec<DagCpmCallSample<Fixed>>,
    action: PriorityResidualAction,
    text: &str,
    number: u8,
    a: Fixed,
    b: Fixed,
    emitted: u32,
    cap: u32,
    at: Timestamp,
    done: bool,
    loss: Option<Fixed>,
    score: Fixed,
    key: Option<String>,
)
    ensures
        call_ensures(PriorityResidualState::<Fixed>::absorb_calls, (state, &calls, &samples, at), done)
            ==> final(state)@ == calls_absorbed(old(state)@, calls@, samples@, at) && done
            == any_wait(calls@),
        call_ensures(PriorityResidualState::<Fixed>::observe_pressure, (state, text, a, at), done)
            ==> final(state)@ == pressure_observed(old(state)@, text@, a, at) && done == (0
            <= a.millionths < i64::MAX),
        call_ensures(PriorityResidualState::<Fixed>::observe_loss, (state, text, number, a, at), done)
            ==> final(state)@ == loss_attributed(old(state)@, text@, number, a, at) && done == (
        number < 3 && 0 <= a.millionths < i64::MAX),
        call_ensures(PriorityResidualState::<Fixed>::prune, (state, at), done) ==> residual_tidied(
            *old(state),
            *final(state),
            at,
        ) && done == residual_shrunk(*old(state), *final(state)),
        call_ensures(PriorityResidualContextState::<Fixed>::observe, (context, action, a, at), ())
            ==> final(context)@ == context_observed(old(context)@, action, a, at),
        call_ensures(PriorityResidualContextState::<Fixed>::select_action, (&*old(context),), action)
            ==> action == selected_action(old(context).arms@),
        call_ensures(PriorityResidualArmState::<Fixed>::discount, (arm,), ()) ==> *final(arm)
            == old(arm).discounted(),
        call_ensures(PriorityResidualArmState::<Fixed>::observe, (arm, a), ()) ==> *final(arm)
            == old(arm).loss_observed(a),
        call_ensures(PriorityResidualArmState::<Fixed>::ucb_loss_score, (&*old(arm), a), score) ==> score
            == old(arm).arm_score(a),
        call_ensures(priority_residual_loss::<Fixed>, (a, b, emitted, cap), loss) ==> loss
            == residual_loss(a, b, emitted, cap),
        call_ensures(residual_context_key::<Fixed>, (a, b, text), key) ==> optional_text(key)
            == context_key(a, b, text@),
{
    assert(zero_of::<Fixed>().millionths == 0);
}

/// What the laws say of the samples that a run leaves and the waits that calls report, they say of
/// what the functions of the critical-path state return and leave behind.
pub proof fn law_critical_path_functions_keep_the_laws(
    state: &mut DagCpmState<Fixed>,
    node: &mut DagCpmNodeState<Fixed>,
    window: &mut DagQueueWaitWindow<Fixed>,
    run: RunRecord<Fixed>,
    call: CallRecord<Fixed>,
    samples: Vec<DagCpmCallSample<Fixed>>,
    model: &str,
    a: Fixed,
    b: Fixed,
    c: Fixed,
    d: Fixed,
    at: Timestamp,
    done: bool,
    wait: Option<Fixed>,
    horizon: Fixed,
)
    ensures
        call_ensures(DagCpmState::<Fixed>::update_from_run, (state, &run, at), done) ==> exists|
            dag: CompletedRunDag<Fixed>,
        | #[trigger]
            graph_of(run, dag) && run_learned(*old(state), run, dag, at, *final(state), done),
        call_ensures(DagCpmState::<Fixed>::update_from_samples, (state, &samples, at), done)
            ==> final(state).nodes@ == samples_learned(old(state).nodes@, samples@, at)
            && final(state).queue() == old(state).queue() && done == any_valid_sample(samples@),
        call_ensures(DagCpmState::<Fixed>::observe_queue_waits, (state, &run, at), done) ==> final(state).queue() == calls_waited(old(state).queue(), run.calls@, at) && final(state).nodes
            == old(state).nodes && done == any_wait(run.calls@),
        call_ensures(DagCpmState::<Fixed>::prune, (state, at), done) ==> tidied(
            *old(state),
            *final(state),
            at,
        ) && done == shrunk(*old(state), *final(state)),
        call_ensures(DagCpmState::<Fixed>::queue_horizon_for_model, (&*old(state), Some(model)), horizon)
            ==> horizon == old(state).horizon(Some(model@)),
        call_ensures(DagCpmState::<Fixed>::queue_horizon_for_model, (&*old(state), None), horizon)
            ==> horizon == old(state).horizon(None),
        call_ensures(DagCpmNodeState::<Fixed>::observe, (node, a, b, c, d, at), ()) ==> *final(node)
            == node_observed(*old(node), a, b, c, d, at),
        call_ensures(DagQueueWaitWindow::<Fixed>::observe, (window, a, at), ()) ==> final(window)@
            == wait_observed(old(window)@, a, at),
        call_ensures(DagQueueWaitWindow::<Fixed>::p90_if_enough, (&*old(window),), wait) ==> wait
            == window_percentile(old(window)@),
        call_ensures(backend_prefill_wait_ms::<Fixed>, (&call,), wait) ==> (wait is Some <==> {
            &&& call.backend_timing is Some
            &&& call.backend_timing->0.prefill_wait_time_ms is Some
            &&& 0 <= call.backend_timing->0.prefill_wait_time_ms->0.millionths < i64::MAX
        }) && (wait is Some ==> wait == call.backend_timing->0.prefill_wait_time_ms),
{
    assert(zero_of::<Fixed>().millionths == 0);
}

/// What the laws say of output lengths, they say of what the functions of the length state return and
/// leave behind.
pub proof fn law_length_functions_keep_the_laws(
    state: &mut OslEmpiricalState,
    stats: &mut OslContextStats,
    call: CallRecord<Fixed>,
    request: AnnotatedLlmRequest,
    key: OslContextKey,
    signature: OslRequestSignature,
    agent: &str,
    model: &str,
    root: Option<u128>,
    scope: u128,
    tokens: u32,
    limit: usize,
    at: Timestamp,
    done: bool,
    length: u32,
    predicted: Option<u32>,
    outcome: OslPredictionOutcome,
    text: String,
)
    ensures
        call_ensures(OslEmpiricalState::observe_run_call_at::<Fixed>, (state, scope, &call, at), done)
            ==> run_call_observed(*old(state), scope, call, at, *final(state), done),
        call_ensures(OslEmpiricalState::observe_context, (state, key, tokens, at), ()) ==> {
            &&& osl_observed(
                old(state).contexts@,
                key_of(key.scope@, key.model@, key.signature),
                tokens,
                at,
                final(state).contexts@,
            )
            &&& final(state).run_contexts == old(state).run_contexts
        },
        call_ensures(OslEmpiricalState::clear_run_contexts, (state, scope), ()) ==> {
            &&& final(state).contexts == old(state).contexts
            &&& forall|kept: Seq<char>| #[trigger]
                final(state).run_contexts@.contains_key(kept) <==> old(state).run_contexts@.contains_key(kept) && !run_prefix(scope).is_prefix_of(kept)
        },
        call_ensures(OslEmpiricalState::predict, (&*old(state), root, agent, model, signature), outcome)
            ==> outcome@ == old(state).predicted(root, agent@, model@, signature),
        call_ensures(OslEmpiricalState::predict_persistent, (&*old(state), agent, model, signature), predicted)
            ==> predicted == old(state).predicted(None, agent@, model@, signature).emitted_osl,
        call_ensures(cap_osl_to_request_limit, (tokens, &request), length) ==> length
            == capped_to_request(tokens, request),
        call_ensures(OslRequestSignature::from_request, (&request,), signature) ==> signature
            == signature_of(request),
        call_ensures(OslContextKey::storage_key, (&key,), text) ==> text@ == key_of(
            key.scope@,
            key.model@,
            key.signature,
        ),
        call_ensures(OslContextStats::observe_with_limit, (stats, tokens, at, limit), ())
            ==> last_of_all(
            old(stats).samples@.push(tokens),
            final(stats).samples@,
            limit as int,
        ) && final(stats).last_updated_at == Some(at),
        call_ensures(OslContextStats::observe, (stats, tokens, at), ()) ==> last_of_all(
            old(stats).samples@.push(tokens),
            final(stats).samples@,
            128,
        ) && final(stats).last_updated_at == Some(at),
        call_ensures(OslContextStats::is_confident, (&*old(stats), limit), done) ==> done == confident(
            old(stats).samples@,
            limit as int,
        ),
        call_ensures(OslContextStats::predict_p85, (&*old(stats), limit), predicted) ==> (
        predicted is Some <==> confident(old(stats).samples@, limit as int)) && (predicted is Some
            ==> splits_at(old(stats).samples@, 85, predicted->0)),
        call_ensures(OslContextStats::nearest_rank_quantile, (&*old(stats), tokens), predicted)
            ==> predicted == sample_quantile(old(stats).samples@, tokens),
{
    law_lookup_without_run_is_persistent(*state, agent@, model@, signature);
    if stats.samples@.len() > 0 {
        law_quantile_splits_the_samples(stats.samples@, 85);
    }
}

/// What the laws say of the hints of a request, they say of what the functions that select them return
/// and write.
pub proof fn law_hint_functions_keep_the_laws(
    cache: Option<&HotCache<Fixed>>,
    prediction: Option<&LlmCallPrediction<Fixed>>,
    defaults: Option<AgentHints<Fixed>>,
    hints: Option<AgentHints<Fixed>>,
    dag_cpm: Option<&DagCpmState<Fixed>>,
    residual: Option<&PriorityResidualState<Fixed>>,
    lengths: Option<&OslEmpiricalState>,
    annotated: Option<&AnnotatedLlmRequest>,
    context: RequestContext,
    name: &str,
    key: &str,
    agent: &str,
    call_index: u32,
    depth: usize,
    cap: u32,
    manual: Option<u32>,
    fallback: Option<u32>,
    root: Option<u128>,
    given: HintSelection<Fixed>,
    class: Option<WorkflowClass>,
    selection: HintSelection<Fixed>,
    made: Option<AgentHints<Fixed>>,
    number: u32,
    flag: bool,
)
    ensures
        call_ensures(
            plan_request::<Fixed>,
            (cache, prediction, name, &context, annotated),
            selection,
        ) ==> selection@ == request_plan(
            pointed(cache),
            pointed(prediction),
            name@,
            context,
            pointed(annotated),
        ),
        call_ensures(
            load_hint_selection::<Fixed>,
            (cache, prediction, name, &context, annotated),
            selection,
        ) ==> selection@ == hint_selection(
            pointed(cache),
            pointed(prediction),
            name@,
            context,
            pointed(annotated),
        ),
        call_ensures(
            build_agent_hints::<Fixed>,
            (prediction, &defaults, agent, call_index, depth),
            made,
        ) ==> hints_view(made) == base_hints(
            pointed(prediction),
            defaults,
            agent@,
            call_index,
            depth as nat,
        ),
        call_ensures(
            apply_manual_latency_override::<Fixed>,
            (hints, manual, agent, depth),
            made,
        ) ==> hints_view(made) == manually_overridden(
            hints_view(hints),
            manual,
            agent@,
            depth as nat,
        ),
        call_ensures(
            apply_dag_priority_prior::<Fixed>,
            (hints, dag_cpm, residual, key, name, agent, depth, cap, fallback),
            selection,
        ) ==> selection@ == prioritized(
            hints_view(hints),
            learned_priority(pointed(dag_cpm), key@, cap),
            pointed(residual),
            name@,
            agent@,
            depth as nat,
            cap,
            fallback,
        ),
        call_ensures(
            apply_empirical_osl_overlay::<Fixed>,
            (given, lengths, annotated, root, name, agent, depth),
            selection,
        ) ==> selection@ == osl_overlaid(
            given@,
            pointed(lengths),
            pointed(annotated),
            root,
            name@,
            agent@,
            depth as nat,
        ),
        call_ensures(fallback_priority_prior, (annotated, call_index, depth, cap), fallback)
            ==> fallback == fallback_priority(pointed(annotated), call_index, depth as nat, cap),
        call_ensures(request_ends_with_tool_result, (annotated,), flag) ==> (flag <==> annotated
            is Some && annotated->0.messages@.len() > 0 && annotated->0.messages@.last() is Tool),
        call_ensures(priority_cap_for_workflow_class, (class,), number) ==> number == match class {
            Some(WorkflowClass::Background) => 1u32,
            Some(WorkflowClass::Interactive) => 5,
            _ => 3,
        },
{
}

/// What a plan puts into a request: its hints, where it has any and they have a form, in the headers
/// and in the body, and its feedback, where it tells anything and there is room, among the extra
/// fields of the decoded request. Nothing else of the decoded request changes.
#[verifier::spinoff_prover]
#[verifier::rlimit(40)]
pub proof fn law_plans_are_written(
    request: &mut LlmRequest,
    annotated: &mut Option<AnnotatedLlmRequest>,
    plan: HintSelection<Fixed>,
    form: Option<Value>,
    selection: &mut HintSelection<Fixed>,
    more: CallAdaptiveHints,
    hints: Value,
)
    ensures
        call_ensures(complete_request::<Fixed>, (request, annotated, &plan, form), ()) ==> {
            let (was, is) = (*old(annotated), *final(annotated));
            &&& plan.hints is Some && form is Some ==> request_hinted(
                *old(request),
                *final(request),
                form->0,
            )
            &&& plan.hints is None || form is None ==> *final(request) == *old(request)
            &&& was is Some <==> is is Some
            &&& was is Some ==> is->0.messages == was->0.messages && is->0.model == was->0.model
                && is->0.tools == was->0.tools && is->0.params == was->0.params
                && is->0.max_output_tokens == was->0.max_output_tokens
            &&& was is Some && plan@.feedback is None ==> json_entries(is->0.extra) == json_entries(
                was->0.extra,
            )
            &&& was is Some && plan@.feedback is Some && plan@.feedback->0 != blank_feedback()
                && takes_feedback(json_entries(was->0.extra)) ==> carried_feedback(
                json_entries(is->0.extra),
            ) == plan@.feedback
        },
        call_ensures(inject_agent_hints, (request, hints), ()) ==> request_hinted(
            *old(request),
            *final(request),
            hints,
        ),
        call_ensures(merge_feedback::<Fixed>, (selection, more), ()) ==> {
            let (was, is) = (old(selection)@.feedback, final(selection)@.feedback);
            &&& final(selection).hints == old(selection).hints
            &&& more@ == blank_feedback() ==> is == was
            &&& more@ != blank_feedback() ==> is is Some && {
                let known = was is Some;
                let (w, i) = (was->0, is->0);
                &&& i.arm == if known && w.arm is Some {
                    w.arm
                } else {
                    more@.arm
                }
                &&& i.key == if known && w.key is Some {
                    w.key
                } else {
                    more@.key
                }
                &&& i.emitted_priority == if known && w.emitted_priority is Some {
                    w.emitted_priority
                } else {
                    more@.emitted_priority
                }
                &&& i.priority_cap == if known && w.priority_cap is Some {
                    w.priority_cap
                } else {
                    more@.priority_cap
                }
                &&& i.osl_source == more@.osl_source && i.emitted_osl == more@.emitted_osl
                &&& i.osl_confidence_passed == more@.osl_confidence_passed
                &&& i.osl_sample_count == more@.osl_sample_count
            }
        },
{
    if call_ensures(complete_request::<Fixed>, (request, annotated, &plan, form), ()) {
        let (was, is) = (*old(annotated), *final(annotated));
        if was is Some && plan@.feedback is Some && plan@.feedback->0 != blank_feedback()
            && takes_feedback(json_entries(was->0.extra)) {
            law_feedback_reads_back(
                json_entries(was->0.extra),
                json_entries(is->0.extra),
                plan@.feedback->0,
                Seq::empty(),
            );
        }
    }
}

/// What the laws say of the open scopes, they say of what the functions that read them return.
pub proof fn law_scope_functions_keep_the_laws(
    intercept: &mut AdaptiveHintsIntercept<u8>,
    stack: Option<&ScopeStack>,
    path: Vec<String>,
    number: Option<u32>,
    class: Option<WorkflowClass>,
    text: &str,
    uuid: Option<u128>,
    identity: Option<SharedParentScopeIdentity>,
    graph: Option<GraphCallContext>,
    context: RequestContext,
)
    ensures
        call_ensures(AdaptiveHintsIntercept::<u8>::observe_request, (intercept, stack), context)
            ==> {
            &&& context_read(
                pointed(stack),
                old(intercept).agent_id@,
                old(intercept).call_counter,
                context,
            )
            &&& old(intercept).call_counter < u32::MAX ==> final(intercept).call_counter == old(intercept).call_counter + 1
            &&& final(intercept).agent_id == old(intercept).agent_id
        },
        call_ensures(extract_scope_path, (stack,), path) ==> texts(path@) == match stack {
            Some(s) => path_names(s.nested@),
            None => Seq::empty(),
        },
        call_ensures(read_manual_latency_sensitivity, (stack,), number) ==> number == match stack {
            Some(s) => highest_sensitivity(s.scopes()),
            None => None,
        },
        call_ensures(read_workflow_class, (stack,), class) ==> class == match stack {
            Some(s) => nearest_class(s.scopes()),
            None => None,
        },
        call_ensures(WorkflowClass::parse, (text,), class) ==> class == class_named(text@),
        call_ensures(resolve_root_scope_uuid, (stack,), uuid) ==> uuid == match stack {
            Some(s) => Some(s.root.uuid),
            None => None,
        },
        call_ensures(resolve_run_boundary_scope_uuid, (stack,), uuid) ==> uuid == match stack {
            Some(s) => match nearest_boundary(s.nested@) {
                Some(inner) => Some(inner),
                None => Some(s.root.uuid),
            },
            None => None,
        },
        call_ensures(resolve_shared_parent_scope_identity, (stack,), identity) ==> {
            &&& identity is Some <==> stack is Some
            &&& stack matches Some(s) ==> {
                let top = s.scopes()[s.scopes().len() - 1];
                &&& identity->0.root_uuid == s.root.uuid
                &&& top.parent_uuid is Some ==> Some(identity->0.shared_parent_uuid)
                    == top.parent_uuid
                &&& top.parent_uuid is None ==> identity->0.shared_parent_uuid == s.root.uuid
            }
        },
        call_ensures(extract_graph_call_context, (stack,), graph) ==> match (stack, graph) {
            (Some(s), Some(told)) => exists|k: int| #[trigger]
                graph_context_at(s.scopes(), k, told),
            (Some(s), None) => forall|k: int|
                0 <= k < s.scopes().len() ==> !names_task(#[trigger] s.scopes()[k]),
            (None, told) => told is None,
        },
{
}

/// A derived priority is that of its features, as the laws on them say.
pub proof fn law_derived_priority_is_that_of_the_features(
    features: RuntimePriorityFeatures<Fixed>,
    scale: PriorityScale,
    action: PriorityStep,
    r: PriorityDecision,
)
    requires
        scale.low() == 0,
        scale.high() == 5,
        scale.levels() == 432,
        call_ensures(derive_priority_decision::<Fixed>, (features, scale, action), r),
    ensures
        ({
            let class: int = if features.scheduling_class == Some(WorkflowClass::Interactive) {
                2
            } else if features.scheduling_class == Some(WorkflowClass::Standard) {
                1
            } else {
                0
            };
            let critical: int = if features.dag_sensitivity is Some
                && features.dag_sensitivity->0.millionths > 700_000 {
                1
            } else {
                0
            };
            let follows: int = if features.last_message_is_tool {
                2
            } else {
                0
            };
            let wide: int = if features.tool_result_join_width is Some
                && features.tool_result_join_width->0 >= 5 {
                1
            } else {
                0
            };
            let raw = class + critical + follows - wide;
            let step: int = match action {
                PriorityStep::Up => 1,
                PriorityStep::Noop => 0,
                PriorityStep::Down => -1,
            };
            let cap = 2 * class + 1;
            &&& r.key == key_for(features)
            &&& r.scale == scale
            &&& r.priority_raw == raw
            &&& r.priority_cap == cap
            &&& r.residual_action == action
            &&& r.residual_delta == step
            &&& r.priority_prior == if raw < 0 {
                0
            } else if raw > cap {
                cap
            } else {
                raw
            }
            &&& r.priority_final == if raw + step < 0 {
                0
            } else if raw + step > cap {
                cap
            } else {
                raw + step
            }
        }),
{
    law_features_make_the_priority(features, scale, action);
    law_features_make_the_priority(features, scale, PriorityStep::Noop);
}

/// What the laws say of events, messages and names, they say of what the functions on them return and
/// leave behind.
pub proof fn law_event_functions_keep_the_laws(
    runs: &mut RunAccumulator<Fixed>,
    call: &mut CallRecord<Fixed>,
    event: Event,
    path: &[String],
    outcome: RunEventOutcome<Fixed>,
    completed: Option<RunRecord<Fixed>>,
    record: Option<CallRecord<Fixed>>,
    extra: serde_json::Map<String, Value>,
    timing: Option<BackendTiming<Fixed>>,
    messages: &[Message],
    features: RequestMessageFeatures,
    width: Option<u32>,
    name: &str,
    bucket: String,
    flag: bool,
)
    ensures
        call_ensures(RunAccumulator::<Fixed>::process_event_outcome, (runs, &event, path), outcome)
            ==> event_processed(old(runs)@, event, path@, final(runs)@, outcome),
        call_ensures(RunAccumulator::<Fixed>::process_event, (runs, &event, path), completed)
            ==> exists|told: RunEventOutcome<Fixed>| #[trigger]
            event_processed(old(runs)@, event, path@, final(runs)@, told) && completed
                == told.completed_run,
        call_ensures(apply_llm_end_metadata::<Fixed>, (call, &event), ()) ==> *final(call)
            == llm_end_noted(*old(call), event),
        call_ensures(event_to_call_record::<Fixed>, (&event, path), record) ==> (record is Some
            <==> starts_call(event)) && (record matches Some(r) ==> started_by(event, path@, r)),
        call_ensures(is_run_boundary, (&event,), flag) ==> flag == bounds_run(event),
        call_ensures(backend_timing_from_response_extra::<Fixed>, (&extra,), timing) ==> timing
            == timing_of::<Fixed>(json_entries(extra)),
        call_ensures(extract_message_features, (messages,), features) ==> describes(
            features,
            messages@,
        ),
        call_ensures(RequestMessageFeatures::tool_result_join_width, (&features,), width)
            ==> describes(features, messages@) ==> width == if messages@.len() > 0
            && messages@.last() is Tool {
            Some(features.trailing_tool_message_count)
        } else {
            None
        },
        call_ensures(RequestMessageFeatures::prompt_tokens_estimate_nonzero, (&features,), width)
            ==> width == if features.has_prompt_content {
            Some(features.prompt_tokens_estimate)
        } else {
            None
        },
        call_ensures(model_bucket, (name,), bucket) ==> bucket@ == bucket_of(name@),
{
    if describes(features, messages@) {
        law_join_width_counts_trailing_results(features, messages@);
    }
}

/// What the laws say of a sensitivity that is set, of the lengths of a run and of spans of time, they
/// say of what the functions leave behind and return.
pub proof fn law_other_functions_keep_the_laws(
    stack: &mut ScopeStack,
    cache: &mut HotCache<Fixed>,
    call: CallRecord<Fixed>,
    root: u128,
    value: u32,
    set: Result<(), String>,
    start: Timestamp,
    end: Timestamp,
    days: u32,
    back: Timestamp,
    millis: i64,
    outcome: RunEventOutcome<Fixed>,
    stage: DrainStage<Fixed>,
    next: DrainStage<Fixed>,
    succeeded: bool,
)
    ensures
        call_ensures(DrainStage::<Fixed>::begin, (outcome,), stage) ==> stage == stage_for(outcome),
        call_ensures(DrainStage::<Fixed>::advance, (stage, succeeded), next) ==> next == next_stage(
            stage,
            succeeded,
        ),
        call_ensures(set_latency_sensitivity, (Ok(stack), value), set) ==> set is Ok && top_raised(
            old(stack).scopes(),
            final(stack).scopes(),
            value,
        ),
        call_ensures(observe_run_local_osl::<Fixed>, (cache, root, &call), ()) ==> {
            let (was, is) = (old(cache).osl_empirical, final(cache).osl_empirical);
            &&& final(cache).dag_cpm == old(cache).dag_cpm
            &&& final(cache).priority_residual == old(cache).priority_residual
            &&& final(cache).agent_hints_default == old(cache).agent_hints_default
            &&& was is Some <==> is is Some
            &&& was is Some ==> exists|now: Timestamp, sampled: bool| #[trigger]
                run_call_observed(was->0, root, call, now, is->0, sampled)
        },
        call_ensures(clear_run_local_osl::<Fixed>, (cache, root), ()) ==> {
            let (was, is) = (old(cache).osl_empirical, final(cache).osl_empirical);
            &&& final(cache).dag_cpm == old(cache).dag_cpm
            &&& final(cache).priority_residual == old(cache).priority_residual
            &&& final(cache).agent_hints_default == old(cache).agent_hints_default
            &&& was is Some <==> is is Some
            &&& was is Some ==> is->0.contexts == was->0.contexts && forall|kept: Seq<char>|
                #[trigger] is->0.run_contexts@.contains_key(kept) <==> was->0.run_contexts@.contains_key(
                    kept,
                ) && !run_prefix(root).is_prefix_of(kept)
        },
        call_ensures(Timestamp::millis_until, (start, end), millis) ==> millis == whole_millis(
            nanos_between(start@, end@),
        ),
        call_ensures(Timestamp::days_before, (end, days), back) ==> back@ == days_earlier(
            end@,
            days as int,
        ),
{
    if call_ensures(observe_run_local_osl::<Fixed>, (cache, root, &call), ()) {
        let (was, is) = (old(cache).osl_empirical, final(cache).osl_empirical);
        if was is Some {
            let now = choose|now: Timestamp|
                #![trigger call_sample(call, None, now)]
                run_call_observed(
                    was->0,
                    root,
                    call,
                    now,
                    is->0,
                    call_sample(call, None, now) is Some,
                );
            assert(run_call_observed(
                was->0,
                root,
                call,
                now,
                is->0,
                call_sample(call, None, now) is Some,
            ));
        }
    }
}

/// A run that ended is learned from as of its end.
pub proof fn law_ended_runs_are_learned_as_of_their_end(
    path_learner: DagCpmLearner,
    residual_learner: PriorityResidualLearner,
    path_loaded: Option<DagCpmState<Fixed>>,
    residual_loaded: Option<PriorityResidualState<Fixed>>,
    run: RunRecord<Fixed>,
    end: Timestamp,
    path_state: Option<DagCpmState<Fixed>>,
    residual_state: Option<PriorityResidualState<Fixed>>,
)
    requires
        run.ended_at == Some(end),
    ensures
        call_ensures(
            DagCpmLearner::process_run::<Fixed>,
            (&path_learner, path_loaded, &run),
            path_state,
        ) ==> run_processed(path_learner.agent(), path_loaded, run, end, path_state),
        call_ensures(
            PriorityResidualLearner::process_run::<Fixed>,
            (&residual_learner, residual_loaded, &run),
            residual_state,
        ) ==> residual_processed(
            residual_learner.agent(),
            residual_loaded,
            run,
            end,
            residual_state,
        ),
        call_ensures(
            PriorityResidualLearner::process_run_at::<Fixed>,
            (&residual_learner, residual_loaded, &run, end),
            residual_state,
        ) ==> residual_processed(
            residual_learner.agent(),
            residual_loaded,
            run,
            end,
            residual_state,
        ),
{
}

/// A scale lies between its two priorities, in whichever order they are given, and holds priorities
/// between them and below a cap. An action has an arm and a step of its own.
pub proof fn law_scales_hold_priorities(
    a: u32,
    b: u32,
    levels: u32,
    scale: PriorityScale,
    priority: i32,
    cap: u32,
    r: u32,
    action: PriorityResidualAction,
    arm: u8,
    delta: i32,
    named: Option<PriorityResidualAction>,
)
    requires
        scale.low() <= scale.high() <= i32::MAX,
    ensures
        call_ensures(PriorityScale::new, (a, b, levels), scale) ==> {
            &&& scale.low() == if a < b {
                a
            } else {
                b
            }
            &&& scale.high() == if a < b {
                b
            } else {
                a
            }
            &&& scale.levels() == if levels == 0 {
                1
            } else {
                levels
            }
        },
        call_ensures(PriorityScale::dynamo_router_priority_jump, (), scale) ==> scale.low() == 0
            && scale.high() == 5 && scale.levels() == 432,
        call_ensures(PriorityScale::clamp, (scale, priority), r) ==> {
            &&& priority < scale.low() ==> r == scale.low()
            &&& scale.low() <= priority <= scale.high() ==> r == priority
            &&& priority > scale.high() ==> r == scale.high()
        },
        call_ensures(PriorityScale::clamp_to_cap, (scale, priority, cap), r) ==> {
            &&& scale.low() <= cap <= scale.high() ==> {
                &&& priority < scale.low() ==> r == scale.low()
                &&& scale.low() <= priority <= cap ==> r == priority
                &&& priority > cap ==> r == cap
            }
            &&& scale.low() <= r <= scale.high()
        },
        call_ensures(PriorityResidualAction::arm, (action,), arm) ==> arm == match action {
            PriorityResidualAction::Down => 0u8,
            PriorityResidualAction::Noop => 1,
            PriorityResidualAction::Up => 2,
        },
        call_ensures(PriorityResidualAction::delta, (action,), delta) ==> delta == match action {
            PriorityResidualAction::Down => -1int,
            PriorityResidualAction::Noop => 0,
            PriorityResidualAction::Up => 1,
        },
        call_ensures(PriorityResidualAction::from_arm, (arm,), named) ==> {
            &&& arm == 0 ==> named == Some(PriorityResidualAction::Down)
            &&& arm == 1 ==> named == Some(PriorityResidualAction::Noop)
            &&& arm == 2 ==> named == Some(PriorityResidualAction::Up)
            &&& arm > 2 ==> named is None
        },
{
}

/// A context of a band is told by its bounds: a criticality is high from three quarters on, medium
/// from a third on and else low; a wait is high from a second on, moderate from a quarter of one on
/// and else low.
pub proof fn law_bands_are_told_by_their_bounds(
    criticality: Fixed,
    wait: Fixed,
    crit: Option<&'static str>,
    pressure: Option<&'static str>,
)
    requires
        call_ensures(criticality_band::<Fixed>, (criticality,), crit),
        call_ensures(pressure_band::<Fixed>, (wait,), pressure),
    ensures
        crit is Some <==> 0 <= criticality.millionths < i64::MAX,
        crit is Some ==> crit->0@ == if criticality.millionths >= 750_000 {
            "high"@
        } else if criticality.millionths >= 330_000 {
            "medium"@
        } else {
            "low"@
        },
        pressure is Some <==> 0 <= wait.millionths < i64::MAX,
        pressure is Some ==> pressure->0@ == if wait.millionths >= 1_000_000_000 {
            "high"@
        } else if wait.millionths >= 250_000_000 {
            "moderate"@
        } else {
            "low"@
        },
{
    assert(zero_of::<Fixed>().millionths == 0);
    assert(Fixed::ratio(3, 4).millionths == 750_000);
    assert(Fixed::ratio(33, 100).millionths == 330_000);
    assert(Fixed::ratio(1000, 1).millionths == 1_000_000_000);
    assert(Fixed::ratio(250, 1).millionths == 250_000_000);
}

} // verus!
