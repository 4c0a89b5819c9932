//! Request intercept that adds agent hints to LLM requests.
//!
//! Hints are selected from the learned state in [`HotCache`] and put into the request's headers and
//! body. A request takes three steps. [`AdaptiveHintsIntercept::observe_request`] reads the open
//! scopes, [`plan_request`] selects hints and feedback from what the cache holds and what the
//! prediction trie says of the call, and [`complete_request`] writes both into the request, the
//! hints once they are in JSON form.
use crate::cache::{hints_view, AgentHints, HintsView, HotCache, LlmCallPrediction};
use crate::context_helpers::{class_of, extract_scope_path, first_agent, highest_sensitivity, law_deepest_class_wins, law_highest_sensitivity_wins, law_no_class_without_a_scope, nearest_class, law_path_names_agents_and_functions, path_names, read_manual_latency_sensitivity, read_workflow_class, resolve_agent_id, resolve_root_scope_uuid, sensitivity_of, WorkflowClass};
use crate::dag::graph::{key_text, llm_structural_key};
use crate::dag::state::{bounded_cap, project_priority_prior, projected_priority, DagCpmState, DEFAULT_DAG_PRIORITY_CAP, MAX_DAG_PRIORITY_CAP};
use crate::drain::NVEXT_KEY;
use crate::fixed::Fixed;
use crate::json::{json_at, json_copy, json_empty_object, json_entries, json_get, json_get_mut, json_insert, json_object_mut, json_view, member, JsonView};
use crate::osl_empirical::{cap_osl_to_request_limit, capped_to_request, law_cap_holds, request_limit, signature_of, OslEmpiricalState, OslRequestSignature};
use crate::priority_residual::{arm_of, decided, PriorityResidualAction, PriorityResidualState};
use crate::records::{blank_feedback, feedback_view, feedback_written, takes_feedback, write_call_adaptive_hints, CallAdaptiveHints, FeedbackView};
use crate::request::{AnnotatedLlmRequest, LlmRequest, Message};
use crate::scalar::{zero, zero_of, Scalar};
use crate::scheduling::{signed, to_signed};
use crate::scope::{Scope, ScopeStack, ScopeType};
use crate::text::{decimal, optional_text, push_decimal, texts};
use serde_json::Value;
use vstd::prelude::*;

verus! {

/// Request header that carries the agent hints.
pub const AGENT_HINTS_HEADER_KEY: &'static str = "x-nemo-flow-agent-hints";

/// Provider extension that carries the agent hints.
pub const AGENT_HINTS_BODY_KEY: &'static str = "agent_hints";

/// Latency sensitivity from which on a request has no priority to lose.
pub const SENSITIVITY_SCALE: u32 = 5;

const DEFAULT_PRIORITY_ADJUSTMENT: i32 = 0;

/// The prefix identifier of an agent's requests at a scope depth.
pub open spec fn prefix_text(agent: Seq<char>, depth: nat) -> Seq<char> {
    agent + "-d"@ + decimal(depth)
}

fn write_prefix(agent_id: &str, scope_depth: usize) -> (r: String)
    ensures
        r@ == prefix_text(agent_id@, scope_depth as nat),
{
    let mut out = agent_id.to_owned();
    out.append("-d");
    push_decimal(&mut out, scope_depth);
    out
}

/// A number held to the range of `u32`.
pub open spec fn held_u32(n: int) -> u32 {
    if n < 0 {
        0
    } else if n > u32::MAX {
        u32::MAX
    } else {
        n as u32
    }
}

fn hold_u32(n: i64) -> (r: u32)
    ensures
        r == held_u32(n as int),
{
    if n < 0 {
        0
    } else if n > u32::MAX as i64 {
        u32::MAX
    } else {
        n as u32
    }
}

/// The priority that a latency sensitivity leaves: what the scale has over it, held to the range
/// from zero to the largest `i32`.
pub open spec fn priority_left(sensitivity: int) -> i32 {
    let left = SENSITIVITY_SCALE - sensitivity;
    if left < 0 {
        0
    } else if left > i32::MAX {
        i32::MAX
    } else {
        left as i32
    }
}

fn leave_priority(sensitivity: i64) -> (r: i32)
    ensures
        r == priority_left(sensitivity as int),
{
    if sensitivity > SENSITIVITY_SCALE as i64 {
        0
    } else if sensitivity < SENSITIVITY_SCALE as i64 - i32::MAX as i64 {
        i32::MAX
    } else {
        (SENSITIVITY_SCALE as i64 - sensitivity) as i32
    }
}

/// The latency sensitivity of a prediction, one when it has none.
pub open spec fn predicted_sensitivity<S: Scalar>(prediction: LlmCallPrediction<S>) -> u32 {
    match prediction.latency_sensitivity {
        Some(sensitivity) => sensitivity,
        None => 1,
    }
}

/// The hints that a prediction gives.
pub open spec fn predicted_hints<S: Scalar>(
    prediction: LlmCallPrediction<S>,
    agent: Seq<char>,
    call_index: u32,
    depth: nat,
) -> HintsView<S> {
    let sensitivity = predicted_sensitivity(prediction);
    HintsView {
        osl: held_u32(prediction.output_tokens.p90.rounded() as int),
        iat: held_u32(prediction.interarrival_ms.mean.rounded() as int),
        priority: priority_left(signed(sensitivity)),
        latency_sensitivity: S::ratio(sensitivity as int, 1),
        prefix_id: prefix_text(agent, depth),
        total_requests: held_u32(
            held_u32(prediction.remaining_calls.mean.rounded() as int) + call_index,
        ),
    }
}

/// The hints that a call starts out with: those of its prediction, or else the default ones.
pub open spec fn base_hints<S: Scalar>(
    prediction: Option<LlmCallPrediction<S>>,
    default_hints: Option<AgentHints<S>>,
    agent: Seq<char>,
    call_index: u32,
    depth: nat,
) -> Option<HintsView<S>> {
    match prediction {
        Some(prediction) => Some(predicted_hints(prediction, agent, call_index, depth)),
        None => hints_view(default_hints),
    }
}

/// A reference that may be absent, as the value it leads to.
pub open spec fn pointed<T>(r: Option<&T>) -> Option<T> {
    match r {
        Some(x) => Some(*x),
        None => None,
    }
}

/// Builds [`AgentHints`] from a trie prediction and optional default hints.
///
/// Falls back to `default_hints` if no prediction is available. Sets `prefix_id` to
/// `"{agent_id}-d{scope_depth}"`.
pub fn build_agent_hints<S: Scalar>(
    prediction: Option<&LlmCallPrediction<S>>,
    default_hints: &Option<AgentHints<S>>,
    agent_id: &str,
    call_index: u32,
    scope_depth: usize,
) -> (r: Option<AgentHints<S>>)
    ensures
        hints_view(r) == base_hints(
            pointed(prediction),
            *default_hints,
            agent_id@,
            call_index,
            scope_depth as nat,
        ),
{
    match prediction {
        Some(prediction) => {
            let sensitivity: u32 = match prediction.latency_sensitivity {
                Some(sensitivity) => sensitivity,
                None => 1,
            };
            let remaining: u32 = hold_u32(prediction.remaining_calls.mean.round());
            Some(
                AgentHints {
                    osl: hold_u32(prediction.output_tokens.p90.round()),
                    iat: hold_u32(prediction.interarrival_ms.mean.round()),
                    priority: leave_priority(to_signed(sensitivity) as i64),
                    latency_sensitivity: S::of_ratio(sensitivity as i64, 1),
                    prefix_id: write_prefix(agent_id, scope_depth),
                    total_requests: hold_u32(remaining as i64 + call_index as i64),
                },
            )
        },
        None => match default_hints {
            Some(hints) => Some(hints.clone()),
            None => None,
        },
    }
}

/// Hints that carry a manual latency sensitivity and nothing else.
pub open spec fn manual_hints<S: Scalar>(manual: u32, agent: Seq<char>, depth: nat) -> HintsView<
    S,
> {
    HintsView {
        osl: 0,
        iat: 0,
        priority: priority_left(signed(manual)),
        latency_sensitivity: S::ratio(manual as int, 1),
        prefix_id: prefix_text(agent, depth),
        total_requests: 0,
    }
}

/// A rounded number held to the range of `i32`.
pub open spec fn held_i32(n: int) -> int {
    if n < i32::MIN {
        i32::MIN as int
    } else if n > i32::MAX {
        i32::MAX as int
    } else {
        n
    }
}

fn hold_i32(n: i64) -> (r: i64)
    ensures
        r == held_i32(n as int),
{
    if n < i32::MIN as i64 {
        i32::MIN as i64
    } else if n > i32::MAX as i64 {
        i32::MAX as i64
    } else {
        n
    }
}

/// Hints after a manual latency sensitivity: a higher one takes the place of the sensitivity and
/// sets the priority.
pub open spec fn manually_overridden<S: Scalar>(
    hints: Option<HintsView<S>>,
    manual: Option<u32>,
    agent: Seq<char>,
    depth: nat,
) -> Option<HintsView<S>> {
    match (hints, manual) {
        (Some(h), Some(m)) => {
            let given = S::ratio(m as int, 1);
            if h.latency_sensitivity.below(given) {
                Some(
                    HintsView {
                        latency_sensitivity: given,
                        priority: priority_left(held_i32(given.rounded() as int)),
                        ..h
                    },
                )
            } else {
                Some(h)
            }
        },
        (None, Some(m)) => Some(manual_hints(m, agent, depth)),
        (h, None) => h,
    }
}

/// Applies a manual latency sensitivity to hints.
pub fn apply_manual_latency_override<S: Scalar>(
    hints: Option<AgentHints<S>>,
    manual_ls: Option<u32>,
    effective_agent_id: &str,
    scope_depth: usize,
) -> (r: Option<AgentHints<S>>)
    ensures
        hints_view(r) == manually_overridden(
            hints_view(hints),
            manual_ls,
            effective_agent_id@,
            scope_depth as nat,
        ),
{
    let manual: u32 = match manual_ls {
        Some(manual) => manual,
        None => {
            return hints;
        },
    };
    let given = S::of_ratio(manual as i64, 1);
    match hints {
        Some(mut hints) => {
            if hints.latency_sensitivity.lt(given) {
                hints.latency_sensitivity = given;
                hints.priority = leave_priority(hold_i32(given.round()));
            }
            Some(hints)
        },
        None => Some(
            AgentHints {
                osl: 0,
                iat: 0,
                priority: leave_priority(to_signed(manual) as i64),
                latency_sensitivity: given,
                prefix_id: write_prefix(effective_agent_id, scope_depth),
                total_requests: 0,
            },
        ),
    }
}

/// Hints and feedback selected for a request.
#[derive(Debug)]
pub struct HintSelection<S: Scalar> {
    /// Hints for the backend.
    pub hints: Option<AgentHints<S>>,
    /// Feedback for the learners.
    pub feedback: Option<CallAdaptiveHints>,
}

/// A selection in terms of text.
pub struct SelectionView<S: Scalar> {
    /// Hints for the backend.
    pub hints: Option<HintsView<S>>,
    /// Feedback for the learners.
    pub feedback: Option<FeedbackView>,
}

impl<S: Scalar> View for HintSelection<S> {
    type V = SelectionView<S>;

    open spec fn view(&self) -> SelectionView<S> {
        SelectionView { hints: hints_view(self.hints), feedback: feedback_view(self.feedback) }
    }
}

/// A priority after the residual `delta`, held between zero and the cap.
pub open spec fn nudged(prior: int, delta: int, cap: int) -> int {
    if prior + delta < 0 {
        0
    } else if prior + delta > cap {
        cap
    } else {
        prior + delta
    }
}

/// A learned priority after the residual correction, and the feedback on it.
pub open spec fn residual_applied<S: Scalar>(
    prior: int,
    residual: Option<PriorityResidualState<S>>,
    criticality: S,
    model: Seq<char>,
    cap: u32,
) -> (int, Option<FeedbackView>) {
    match residual {
        Some(state) => match decided(state@, criticality, model) {
            Some((key, action)) => {
                let priority = nudged(prior, arm_of(action) - 1, bounded_cap(cap));
                (
                    priority,
                    Some(
                        FeedbackView {
                            arm: Some(arm_of(action) as u8),
                            key: Some(key),
                            emitted_priority: Some(priority as u32),
                            priority_cap: Some(bounded_cap(cap) as u32),
                            ..blank_feedback()
                        },
                    ),
                )
            },
            None => (prior, None),
        },
        None => (prior, None),
    }
}

fn apply_priority_residual<S: Scalar>(
    priority_prior: u32,
    priority_residual: Option<&PriorityResidualState<S>>,
    criticality: S,
    model_name: &str,
    priority_cap: u32,
) -> (r: (u32, Option<CallAdaptiveHints>))
    requires
        priority_prior <= MAX_DAG_PRIORITY_CAP,
    ensures
        (r.0 as int, feedback_view(r.1)) == residual_applied(
            priority_prior as int,
            pointed(priority_residual),
            criticality,
            model_name@,
            priority_cap,
        ),
        r.0 <= MAX_DAG_PRIORITY_CAP,
{
    let state = match priority_residual {
        Some(state) => state,
        None => {
            return (priority_prior, None);
        },
    };
    let decision = match state.decision(criticality, model_name) {
        Some(decision) => decision,
        None => {
            return (priority_prior, None);
        },
    };
    let cap: u32 = if priority_cap > MAX_DAG_PRIORITY_CAP {
        MAX_DAG_PRIORITY_CAP
    } else {
        priority_cap
    };
    let moved: i32 = priority_prior as i32 + decision.delta;
    let priority: u32 = if moved < 0 {
        0
    } else if moved > cap as i32 {
        cap
    } else {
        moved as u32
    };
    let feedback = CallAdaptiveHints {
        selected_priority_residual_arm: Some(decision.action.arm()),
        selected_priority_residual_key: Some(decision.key),
        emitted_priority: Some(priority),
        priority_cap: Some(cap),
        selected_osl_source: None,
        emitted_osl: None,
        osl_confidence_passed: None,
        osl_sample_count: None,
    };
    (priority, Some(feedback))
}

/// The priority that was learned for a call, and the criticality behind it.
pub open spec fn learned_priority<S: Scalar>(
    dag_cpm: Option<DagCpmState<S>>,
    structural_key: Seq<char>,
    cap: u32,
) -> Option<(int, S)> {
    match dag_cpm {
        Some(state) => if state.nodes@.contains_key(structural_key)
            && state.nodes@[structural_key].criticality_ewma.finite() {
            let criticality = state.nodes@[structural_key].criticality_ewma;
            Some((projected_priority(criticality, 0, bounded_cap(cap)), criticality))
        } else {
            None
        },
        None => None,
    }
}

fn find_learned_priority<S: Scalar>(
    dag_cpm: Option<&DagCpmState<S>>,
    structural_key: &str,
    priority_cap: u32,
) -> (r: Option<(u32, S)>)
    ensures
        match learned_priority(pointed(dag_cpm), structural_key@, priority_cap) {
            Some((priority, criticality)) => r == Some((priority as u32, criticality)) && 0
                <= priority <= MAX_DAG_PRIORITY_CAP,
            None => r is None,
        },
{
    let state = match dag_cpm {
        Some(state) => state,
        None => {
            return None;
        },
    };
    match state.nodes.get(structural_key) {
        Some(node) => match project_priority_prior(
            node,
            DEFAULT_PRIORITY_ADJUSTMENT,
            priority_cap,
        ) {
            Some(priority) => Some((priority, node.criticality_ewma)),
            None => None,
        },
        None => None,
    }
}

/// Hints that carry a priority and nothing else.
pub open spec fn priority_only_hints<S: Scalar>(
    priority: int,
    agent: Seq<char>,
    depth: nat,
) -> HintsView<S> {
    HintsView {
        osl: 0,
        iat: 0,
        priority: priority as i32,
        latency_sensitivity: zero_of(),
        prefix_id: prefix_text(agent, depth),
        total_requests: 0,
    }
}

fn priority_only_agent_hints<S: Scalar>(
    priority: i32,
    effective_agent_id: &str,
    scope_depth: usize,
) -> (r: AgentHints<S>)
    ensures
        r@ == priority_only_hints::<S>(
            priority as int,
            effective_agent_id@,
            scope_depth as nat,
        ),
{
    AgentHints {
        osl: 0,
        iat: 0,
        priority,
        latency_sensitivity: zero(),
        prefix_id: write_prefix(effective_agent_id, scope_depth),
        total_requests: 0,
    }
}

/// A selection after the learned priority: what was learned sets the priority, and else a fallback
/// raises it.
pub open spec fn prioritized<S: Scalar>(
    hints: Option<HintsView<S>>,
    learned: Option<(int, S)>,
    residual: Option<PriorityResidualState<S>>,
    model: Seq<char>,
    agent: Seq<char>,
    depth: nat,
    cap: u32,
    fallback: Option<u32>,
) -> SelectionView<S> {
    match (learned, fallback) {
        (Some((prior, criticality)), _) => {
            let (priority, feedback) = residual_applied(prior, residual, criticality, model, cap);
            SelectionView {
                hints: Some(
                    match hints {
                        Some(h) => HintsView { priority: priority as i32, ..h },
                        None => priority_only_hints(priority, agent, depth),
                    },
                ),
                feedback,
            }
        },
        (None, Some(priority)) => SelectionView {
            hints: Some(
                match hints {
                    Some(h) => HintsView {
                        priority: if h.priority < signed(priority) {
                            signed(priority) as i32
                        } else {
                            h.priority
                        },
                        ..h
                    },
                    None => priority_only_hints(signed(priority), agent, depth),
                },
            ),
            feedback: None,
        },
        (None, None) => SelectionView { hints, feedback: None },
    }
}

/// Applies the learned priority of a call to its hints.
pub fn apply_dag_priority_prior<S: Scalar>(
    hints: Option<AgentHints<S>>,
    dag_cpm: Option<&DagCpmState<S>>,
    priority_residual: Option<&PriorityResidualState<S>>,
    structural_key: &str,
    model_name: &str,
    effective_agent_id: &str,
    scope_depth: usize,
    priority_cap: u32,
    fallback_priority: Option<u32>,
) -> (r: HintSelection<S>)
    ensures
        r@ == prioritized(
            hints_view(hints),
            learned_priority(pointed(dag_cpm), structural_key@, priority_cap),
            pointed(priority_residual),
            model_name@,
            effective_agent_id@,
            scope_depth as nat,
            priority_cap,
            fallback_priority,
        ),
{
    match find_learned_priority(dag_cpm, structural_key, priority_cap) {
        Some((prior, criticality)) => {
            let (priority, feedback) = apply_priority_residual(
                prior,
                priority_residual,
                criticality,
                model_name,
                priority_cap,
            );
            let hints = match hints {
                Some(mut hints) => {
                    hints.priority = priority as i32;
                    hints
                },
                None => priority_only_agent_hints(
                    priority as i32,
                    effective_agent_id,
                    scope_depth,
                ),
            };
            HintSelection { hints: Some(hints), feedback }
        },
        None => match fallback_priority {
            Some(priority) => {
                let priority: i32 = to_signed(priority);
                let hints = match hints {
                    Some(mut hints) => {
                        if hints.priority < priority {
                            hints.priority = priority;
                        }
                        hints
                    },
                    None => priority_only_agent_hints(priority, effective_agent_id, scope_depth),
                };
                HintSelection { hints: Some(hints), feedback: None }
            },
            None => HintSelection { hints, feedback: None },
        },
    }
}

/// The first of two facts that is known.
pub open spec fn first_known<T>(a: Option<T>, b: Option<T>) -> Option<T> {
    match a {
        Some(x) => Some(x),
        None => b,
    }
}

/// Feedback after more of it: facts on the priority stay once they are known, and the facts on the
/// output length are the new ones. Empty feedback changes nothing.
pub open spec fn merged(target: Option<FeedbackView>, feedback: FeedbackView) -> Option<
    FeedbackView,
> {
    if feedback == blank_feedback() {
        target
    } else {
        let known = match target {
            Some(known) => known,
            None => blank_feedback(),
        };
        Some(
            FeedbackView {
                arm: first_known(known.arm, feedback.arm),
                key: first_known(known.key, feedback.key),
                emitted_priority: first_known(known.emitted_priority, feedback.emitted_priority),
                priority_cap: first_known(known.priority_cap, feedback.priority_cap),
                ..feedback
            },
        )
    }
}

/// Adds feedback to a selection.
pub fn merge_feedback<S: Scalar>(selection: &mut HintSelection<S>, feedback: CallAdaptiveHints)
    ensures
        final(selection).hints == old(selection).hints,
        feedback_view(final(selection).feedback) == merged(
            feedback_view(old(selection).feedback),
            feedback@,
        ),
{
    if feedback.is_empty() {
        return;
    }
    let known = match selection.feedback.take() {
        Some(known) => known,
        None => CallAdaptiveHints::default(),
    };
    selection.feedback = Some(
        CallAdaptiveHints {
            selected_priority_residual_arm: match known.selected_priority_residual_arm {
                Some(arm) => Some(arm),
                None => feedback.selected_priority_residual_arm,
            },
            selected_priority_residual_key: match known.selected_priority_residual_key {
                Some(key) => Some(key),
                None => feedback.selected_priority_residual_key,
            },
            emitted_priority: match known.emitted_priority {
                Some(priority) => Some(priority),
                None => feedback.emitted_priority,
            },
            priority_cap: match known.priority_cap {
                Some(cap) => Some(cap),
                None => feedback.priority_cap,
            },
            selected_osl_source: feedback.selected_osl_source,
            emitted_osl: feedback.emitted_osl,
            osl_confidence_passed: feedback.osl_confidence_passed,
            osl_sample_count: feedback.osl_sample_count,
        },
    );
}

/// Hints after an output length: it is set, or taken back when there is none.
pub open spec fn with_osl<S: Scalar>(
    hints: Option<HintsView<S>>,
    osl: Option<u32>,
    agent: Seq<char>,
    depth: nat,
) -> Option<HintsView<S>> {
    match (hints, osl) {
        (Some(h), Some(n)) => Some(HintsView { osl: n, ..h }),
        (Some(h), None) => Some(HintsView { osl: 0, ..h }),
        (None, Some(n)) => Some(HintsView { osl: n, ..priority_only_hints(0, agent, depth) }),
        (None, None) => None,
    }
}

fn apply_osl<S: Scalar>(
    hints: Option<AgentHints<S>>,
    osl: Option<u32>,
    effective_agent_id: &str,
    scope_depth: usize,
) -> (r: Option<AgentHints<S>>)
    ensures
        hints_view(r) == with_osl(
            hints_view(hints),
            osl,
            effective_agent_id@,
            scope_depth as nat,
        ),
{
    match hints {
        Some(mut hints) => {
            hints.osl = match osl {
                Some(osl) => osl,
                None => 0,
            };
            Some(hints)
        },
        None => match osl {
            Some(osl) => {
                let mut hints = priority_only_agent_hints(0, effective_agent_id, scope_depth);
                hints.osl = osl;
                Some(hints)
            },
            None => None,
        },
    }
}

/// The output length to emit for a request: the prediction, held to the limit that the request
/// sets.
pub open spec fn emitted_osl(predicted: Option<u32>, request: AnnotatedLlmRequest) -> Option<u32> {
    match predicted {
        Some(osl) => Some(capped_to_request(osl, request)),
        None => None,
    }
}

/// A selection after the output lengths learned for requests like this one.
pub open spec fn osl_overlaid<S: Scalar>(
    selection: SelectionView<S>,
    empirical: Option<OslEmpiricalState>,
    annotated: Option<AnnotatedLlmRequest>,
    root_uuid: Option<u128>,
    model: Seq<char>,
    agent: Seq<char>,
    depth: nat,
) -> SelectionView<S> {
    match (empirical, annotated) {
        (None, _) => selection,
        (Some(_), None) => SelectionView {
            hints: with_osl(selection.hints, None, agent, depth),
            ..selection
        },
        (Some(state), Some(request)) => {
            let outcome = state.predicted(root_uuid, agent, model, signature_of(request));
            let osl = emitted_osl(outcome.emitted_osl, request);
            SelectionView {
                hints: with_osl(selection.hints, osl, agent, depth),
                feedback: merged(
                    selection.feedback,
                    FeedbackView {
                        osl_source: Some(outcome.source),
                        emitted_osl: osl,
                        osl_confidence_passed: Some(outcome.confidence_passed),
                        osl_sample_count: match outcome.sample_count {
                            Some(n) => Some(held_u32(n as int)),
                            None => None,
                        },
                        ..blank_feedback()
                    },
                ),
            }
        },
    }
}

/// Applies the output lengths learned for requests like this one to a selection.
pub fn apply_empirical_osl_overlay<S: Scalar>(
    selection: HintSelection<S>,
    empirical_state: Option<&OslEmpiricalState>,
    annotated: Option<&AnnotatedLlmRequest>,
    root_uuid: Option<u128>,
    model_name: &str,
    effective_agent_id: &str,
    scope_depth: usize,
) -> (r: HintSelection<S>)
    ensures
        r@ == osl_overlaid(
            selection@,
            pointed(empirical_state),
            pointed(annotated),
            root_uuid,
            model_name@,
            effective_agent_id@,
            scope_depth as nat,
        ),
{
    let state = match empirical_state {
        Some(state) => state,
        None => {
            return selection;
        },
    };
    let mut selection = selection;
    let mut predicted: Option<u32> = None;
    if let Some(request) = annotated {
        let signature = OslRequestSignature::from_request(request);
        let outcome = state.predict(root_uuid, effective_agent_id, model_name, signature);
        predicted = match outcome.emitted_osl {
            Some(osl) => Some(cap_osl_to_request_limit(osl, request)),
            None => None,
        };
        let sample_count: Option<u32> = match outcome.sample_count {
            Some(n) => Some(
                if n > u32::MAX as usize {
                    u32::MAX
                } else {
                    n as u32
                },
            ),
            None => None,
        };
        merge_feedback(
            &mut selection,
            CallAdaptiveHints {
                selected_priority_residual_arm: None,
                selected_priority_residual_key: None,
                emitted_priority: None,
                priority_cap: None,
                selected_osl_source: Some(outcome.source.to_owned()),
                emitted_osl: predicted,
                osl_confidence_passed: Some(outcome.confidence_passed),
                osl_sample_count: sample_count,
            },
        );
    }
    let hints = apply_osl(selection.hints, predicted, effective_agent_id, scope_depth);
    HintSelection { hints, feedback: selection.feedback }
}

/// The priority cap of a workflow class.
pub open spec fn class_cap(workflow_class: Option<WorkflowClass>) -> u32 {
    match workflow_class {
        Some(WorkflowClass::Background) => 1,
        Some(WorkflowClass::Interactive) => MAX_DAG_PRIORITY_CAP,
        Some(WorkflowClass::Standard) | None => DEFAULT_DAG_PRIORITY_CAP,
    }
}

/// Returns the priority cap of a workflow class.
pub fn priority_cap_for_workflow_class(workflow_class: Option<WorkflowClass>) -> (r: u32)
    ensures
        r == class_cap(workflow_class),
{
    match workflow_class {
        Some(WorkflowClass::Background) => 1,
        Some(WorkflowClass::Interactive) => MAX_DAG_PRIORITY_CAP,
        Some(WorkflowClass::Standard) => DEFAULT_DAG_PRIORITY_CAP,
        None => DEFAULT_DAG_PRIORITY_CAP,
    }
}

/// Whether the last message of a request is the result of a tool call.
pub open spec fn ends_with_tool_result(annotated: Option<AnnotatedLlmRequest>) -> bool {
    match annotated {
        Some(request) => request.messages@.len() > 0 && request.messages@.last() is Tool,
        None => false,
    }
}

/// Tests whether the last message of a request is the result of a tool call.
pub fn request_ends_with_tool_result(annotated: Option<&AnnotatedLlmRequest>) -> (r: bool)
    ensures
        r == ends_with_tool_result(pointed(annotated)),
{
    match annotated {
        Some(request) => {
            let count: usize = request.messages.len();
            if count == 0 {
                false
            } else {
                match &request.messages[count - 1] {
                    Message::Tool { .. } => true,
                    _ => false,
                }
            }
        },
        None => false,
    }
}

/// The priority of a call that nothing was learned for: two for one that joins tool results, one
/// for the first call or one outside of any scope, each held to the cap.
pub open spec fn fallback_priority(
    annotated: Option<AnnotatedLlmRequest>,
    call_index: u32,
    depth: nat,
    cap: u32,
) -> Option<u32> {
    if cap == 0 {
        None
    } else if ends_with_tool_result(annotated) {
        Some(if cap < 2 {
            cap
        } else {
            2
        })
    } else if call_index == 1 || depth == 0 {
        Some(1)
    } else {
        None
    }
}

/// Returns the priority of a call that nothing was learned for.
pub fn fallback_priority_prior(
    annotated: Option<&AnnotatedLlmRequest>,
    call_index: u32,
    scope_depth: usize,
    priority_cap: u32,
) -> (r: Option<u32>)
    ensures
        r == fallback_priority(
            pointed(annotated),
            call_index,
            scope_depth as nat,
            priority_cap,
        ),
{
    if priority_cap == 0 {
        return None;
    }
    if request_ends_with_tool_result(annotated) {
        return Some(
            if priority_cap < 2 {
                priority_cap
            } else {
                2
            },
        );
    }
    if call_index == 1 || scope_depth == 0 {
        return Some(1);
    }
    None
}

/// The provider extensions of a request body, empty when there are none.
pub open spec fn extensions(body: Map<Seq<char>, Value>) -> Map<Seq<char>, Value> {
    if body.contains_key(NVEXT_KEY@) {
        match json_view(body[NVEXT_KEY@]) {
            JsonView::Object(entries) => entries,
            _ => Map::empty(),
        }
    } else {
        Map::empty()
    }
}

/// Whether a request body has room for provider extensions: nothing stands in their place, or an
/// object does.
pub open spec fn takes_extensions(body: Map<Seq<char>, Value>) -> bool {
    body.contains_key(NVEXT_KEY@) ==> json_view(body[NVEXT_KEY@]) is Object
}

/// Whether `after` is the body `before` with `hints` among its provider extensions. A body that is no
/// object, or one without room for them, stays as it is.
pub open spec fn body_hinted(before: Value, after: Value, hints: Value) -> bool {
    match json_view(before) {
        JsonView::Object(body) => if takes_extensions(body) {
            exists|extended: Value|
                {
                    &&& #[trigger] json_view(extended) == JsonView::Object(
                        extensions(body).insert(AGENT_HINTS_BODY_KEY@, hints),
                    )
                    &&& json_view(after) == JsonView::Object(body.insert(NVEXT_KEY@, extended))
                }
        } else {
            json_view(after) == json_view(before)
        },
        _ => after == before,
    }
}

/// Whether `after` is the request `before` with `hints` in its headers and body.
pub open spec fn request_hinted(before: LlmRequest, after: LlmRequest, hints: Value) -> bool {
    &&& json_entries(after.headers) == json_entries(before.headers).insert(
        AGENT_HINTS_HEADER_KEY@,
        hints,
    )
    &&& body_hinted(before.content, after.content, hints)
}

fn extend_body(body: &mut serde_json::Map<String, Value>, hints: Value)
    ensures
        json_entries(*final(body)) == json_entries(*old(body)).insert(
            NVEXT_KEY@,
            json_entries(*final(body))[NVEXT_KEY@],
        ),
        if takes_extensions(json_entries(*old(body))) {
            json_view(json_entries(*final(body))[NVEXT_KEY@]) == JsonView::Object(
                extensions(json_entries(*old(body))).insert(AGENT_HINTS_BODY_KEY@, hints),
            )
        } else {
            json_entries(*final(body)) == json_entries(*old(body))
        },
{
    let ghost before = json_entries(*body);
    if json_get(body, NVEXT_KEY).is_none() {
        json_insert(body, NVEXT_KEY, json_empty_object());
    }
    match json_get_mut(body, NVEXT_KEY) {
        Some(nvext) => match json_object_mut(nvext) {
            Some(entries) => json_insert(entries, AGENT_HINTS_BODY_KEY, hints),
            None => {},
        },
        None => {},
    }
    proof {
        let after = json_entries(*body);
        assert(after =~= before.insert(NVEXT_KEY@, after[NVEXT_KEY@]));
        assert(!takes_extensions(before) ==> after =~= before);
    }
}

/// Puts hints, in JSON form, into the headers and the body of a request.
pub fn inject_agent_hints(request: &mut LlmRequest, serialized_hints: Value)
    ensures
        request_hinted(*old(request), *final(request), serialized_hints),
{
    let ghost before = request.content;
    match json_object_mut(&mut request.content) {
        Some(body) => extend_body(body, json_copy(&serialized_hints)),
        None => {},
    }
    proof {
        if let JsonView::Object(body) = json_view(before) {
            if takes_extensions(body) {
                let after = json_view(request.content)->Object_0;
                let extended = after[NVEXT_KEY@];
                assert(json_view(extended) == JsonView::Object(
                    extensions(body).insert(AGENT_HINTS_BODY_KEY@, serialized_hints),
                ));
            }
        }
    }
    json_insert(&mut request.headers, AGENT_HINTS_HEADER_KEY, serialized_hints);
}

/// The name of the outermost agent among scopes.
pub open spec fn agent_name(scopes: Seq<Scope>) -> Option<Seq<char>> {
    if exists|k: int| first_agent(scopes, k) {
        Some(scopes[choose|k: int| first_agent(scopes, k)].name@)
    } else {
        None
    }
}

/// The agent that a request counts for: the outermost one whose scope is open, or else `own`.
pub open spec fn effective_agent(stack: Option<ScopeStack>, own: Seq<char>) -> Seq<char> {
    match stack {
        Some(s) => match agent_name(s.nested@) {
            Some(name) => name,
            None => own,
        },
        None => own,
    }
}

/// What the open scopes say of a request.
#[derive(Debug)]
pub struct RequestContext {
    /// Names of the open agents and functions, from the outside in.
    pub scope_path: Vec<String>,
    /// Highest manual latency sensitivity of the open scopes.
    pub manual_ls: Option<u32>,
    /// Priority cap of the workflow class.
    pub priority_cap: u32,
    /// Identifier of the root scope.
    pub root_uuid: Option<u128>,
    /// Number of the call.
    pub call_index: u32,
    /// Agent that the request counts for.
    pub effective_agent_id: String,
}

/// Whether a context holds what the open scopes say of the call with number `call_index`.
pub open spec fn context_read(
    stack: Option<ScopeStack>,
    own_agent: Seq<char>,
    call_index: u32,
    context: RequestContext,
) -> bool {
    &&& texts(context.scope_path@) == match stack {
        Some(s) => path_names(s.nested@),
        None => Seq::empty(),
    }
    &&& context.manual_ls == match stack {
        Some(s) => highest_sensitivity(s.scopes()),
        None => None,
    }
    &&& context.priority_cap == class_cap(
        match stack {
            Some(s) => nearest_class(s.scopes()),
            None => None,
        },
    )
    &&& context.root_uuid == match stack {
        Some(s) => Some(s.root.uuid),
        None => None,
    }
    &&& context.call_index == call_index
    &&& context.effective_agent_id@ == effective_agent(stack, own_agent)
}

/// Opt-in LLM request intercept that injects [`AgentHints`] into requests from the adaptive state in
/// [`HotCache`].
///
/// `hot_cache` is however the application shares the cache.
#[derive(Debug)]
pub struct AdaptiveHintsIntercept<H> {
    /// Where the cache is.
    pub hot_cache: H,
    /// Agent that requests count for when no agent's scope is open.
    pub agent_id: String,
    /// Number of the next call.
    pub call_counter: u32,
}

impl<H> AdaptiveHintsIntercept<H> {
    /// Creates a new `AdaptiveHintsIntercept`.
    pub fn new(hot_cache: H, agent_id: String) -> (r: Self)
        ensures
            r.hot_cache == hot_cache,
            r.agent_id == agent_id,
            r.call_counter == 1,
    {
        AdaptiveHintsIntercept { hot_cache, agent_id, call_counter: 1 }
    }

    /// Returns the agent that a request counts for.
    pub fn effective_agent_id(&self, stack: Option<&ScopeStack>) -> (r: String)
        ensures
            r@ == effective_agent(pointed(stack), self.agent_id@),
    {
        match resolve_agent_id(stack) {
            Some(name) => {
                proof {
                    let scopes = stack->0.nested@;
                    let k = choose|k: int| #[trigger]
                        first_agent(scopes, k) && name == scopes[k].name;
                    let chosen = choose|k: int| first_agent(scopes, k);
                    assert(first_agent(scopes, chosen));
                    assert(k == chosen) by {
                        if k < chosen {
                            assert(scopes[k].scope_type != scopes[k].scope_type);
                        } else if chosen < k {
                            assert(scopes[chosen].scope_type != scopes[chosen].scope_type);
                        }
                    }
                }
                name
            },
            None => self.agent_id.clone(),
        }
    }

    /// Reads what the open scopes say of a request and counts it.
    pub fn observe_request(&mut self, stack: Option<&ScopeStack>) -> (r: RequestContext)
        ensures
            context_read(pointed(stack), old(self).agent_id@, old(self).call_counter, r),
            *final(self) == (AdaptiveHintsIntercept {
                call_counter: old(self).call_counter.wrapping_add(1),
                ..*old(self)
            }),
    {
        let call_index: u32 = self.call_counter;
        self.call_counter = call_index.wrapping_add(1);
        RequestContext {
            scope_path: extract_scope_path(stack),
            manual_ls: read_manual_latency_sensitivity(stack),
            priority_cap: priority_cap_for_workflow_class(read_workflow_class(stack)),
            root_uuid: resolve_root_scope_uuid(stack),
            call_index,
            effective_agent_id: self.effective_agent_id(stack),
        }
    }
}

/// The name of the model that a request goes to: the one it names, or else the name of the call.
pub open spec fn requested_model(annotated: Option<AnnotatedLlmRequest>, llm_name: Seq<char>) -> Seq<
    char,
> {
    match annotated {
        Some(request) => match optional_text(request.model) {
            Some(model) => model,
            None => llm_name,
        },
        None => llm_name,
    }
}

/// The selection for a request. A cache that could not be read gives none.
pub open spec fn hint_selection<S: Scalar>(
    cache: Option<HotCache<S>>,
    prediction: Option<LlmCallPrediction<S>>,
    llm_name: Seq<char>,
    context: RequestContext,
    annotated: Option<AnnotatedLlmRequest>,
) -> SelectionView<S> {
    match cache {
        Some(cache) => {
            let path = texts(context.scope_path@);
            let depth = path.len();
            let agent = context.effective_agent_id@;
            let model = requested_model(annotated, llm_name);
            let base = base_hints(
                prediction,
                cache.agent_hints_default,
                agent,
                context.call_index,
                depth,
            );
            let fallback = if cache.dag_cpm is Some {
                fallback_priority(annotated, context.call_index, depth, context.priority_cap)
            } else {
                None
            };
            let prior = prioritized(
                base,
                learned_priority(
                    cache.dag_cpm,
                    key_text("llm"@, path, llm_name),
                    context.priority_cap,
                ),
                cache.priority_residual,
                model,
                agent,
                depth,
                context.priority_cap,
                fallback,
            );
            osl_overlaid(
                prior,
                cache.osl_empirical,
                annotated,
                context.root_uuid,
                model,
                agent,
                depth,
            )
        },
        None => SelectionView { hints: None, feedback: None },
    }
}

/// Selects hints and feedback for a request.
///
/// `prediction` is what the prediction trie says of `context`'s scope path and call index; a cache
/// that could not be read is passed as `None`.
pub fn load_hint_selection<S: Scalar>(
    cache: Option<&HotCache<S>>,
    prediction: Option<&LlmCallPrediction<S>>,
    llm_name: &str,
    context: &RequestContext,
    annotated: Option<&AnnotatedLlmRequest>,
) -> (r: HintSelection<S>)
    ensures
        r@ == hint_selection(
            pointed(cache),
            pointed(prediction),
            llm_name@,
            *context,
            pointed(annotated),
        ),
{
    let cache = match cache {
        Some(cache) => cache,
        None => {
            return HintSelection { hints: None, feedback: None };
        },
    };
    let scope_depth: usize = context.scope_path.len();
    let agent_id = context.effective_agent_id.as_str();
    let trie_hints = build_agent_hints(
        prediction,
        &cache.agent_hints_default,
        agent_id,
        context.call_index,
        scope_depth,
    );
    let structural_key = llm_structural_key(context.scope_path.as_slice(), llm_name);
    let fallback: Option<u32> = if cache.dag_cpm.is_some() {
        fallback_priority_prior(
            annotated,
            context.call_index,
            scope_depth,
            context.priority_cap,
        )
    } else {
        None
    };
    let mut model_name = llm_name;
    if let Some(request) = annotated {
        if let Some(model) = &request.model {
            model_name = model.as_str();
        }
    }
    let selection = apply_dag_priority_prior(
        trie_hints,
        cache.dag_cpm.as_ref(),
        cache.priority_residual.as_ref(),
        structural_key.as_str(),
        model_name,
        agent_id,
        scope_depth,
        context.priority_cap,
        fallback,
    );
    apply_empirical_osl_overlay(
        selection,
        cache.osl_empirical.as_ref(),
        annotated,
        context.root_uuid,
        model_name,
        agent_id,
        scope_depth,
    )
}

/// The facts of feedback that go with a request: all of them, or those on the output length alone
/// when a manual latency sensitivity overruled the priority.
pub open spec fn kept_facts(feedback: Option<FeedbackView>, manual: Option<u32>) -> Option<
    FeedbackView,
> {
    match (feedback, manual) {
        (Some(f), Some(_)) => Some(
            FeedbackView {
                arm: None,
                key: None,
                emitted_priority: None,
                priority_cap: None,
                ..f
            },
        ),
        (f, _) => f,
    }
}

/// The hints and the feedback that go with a request.
pub open spec fn request_plan<S: Scalar>(
    cache: Option<HotCache<S>>,
    prediction: Option<LlmCallPrediction<S>>,
    llm_name: Seq<char>,
    context: RequestContext,
    annotated: Option<AnnotatedLlmRequest>,
) -> SelectionView<S> {
    let selection = hint_selection(cache, prediction, llm_name, context, annotated);
    SelectionView {
        hints: manually_overridden(
            selection.hints,
            context.manual_ls,
            context.effective_agent_id@,
            texts(context.scope_path@).len(),
        ),
        feedback: kept_facts(selection.feedback, context.manual_ls),
    }
}

/// Selects the hints and the feedback that go with a request.
pub fn plan_request<S: Scalar>(
    cache: Option<&HotCache<S>>,
    prediction: Option<&LlmCallPrediction<S>>,
    llm_name: &str,
    context: &RequestContext,
    annotated: Option<&AnnotatedLlmRequest>,
) -> (r: HintSelection<S>)
    ensures
        r@ == request_plan(
            pointed(cache),
            pointed(prediction),
            llm_name@,
            *context,
            pointed(annotated),
        ),
{
    let selection = load_hint_selection(cache, prediction, llm_name, context, annotated);
    let hints = apply_manual_latency_override(
        selection.hints,
        context.manual_ls,
        context.effective_agent_id.as_str(),
        context.scope_path.len(),
    );
    let feedback = match selection.feedback {
        Some(feedback) => if context.manual_ls.is_some() {
            Some(feedback.only_osl_feedback())
        } else {
            Some(feedback)
        },
        None => None,
    };
    HintSelection { hints, feedback }
}

/// Whether `after` is the annotated request `before` with feedback written to it, where there is a
/// request, feedback with some fact, and room.
pub open spec fn annotated_completed(
    before: Option<AnnotatedLlmRequest>,
    after: Option<AnnotatedLlmRequest>,
    feedback: Option<FeedbackView>,
) -> bool {
    match (before, after) {
        (Some(b), Some(a)) => {
            &&& a == (AnnotatedLlmRequest { extra: a.extra, ..b })
            &&& match feedback {
                Some(f) if f != blank_feedback() && takes_feedback(
                    json_entries(b.extra),
                ) => feedback_written(json_entries(b.extra), json_entries(a.extra), f),
                _ => json_entries(a.extra) == json_entries(b.extra),
            }
        },
        (None, None) => true,
        _ => false,
    }
}

/// Writes the hints and the feedback of a plan into a request.
///
/// `hints_json` are the hints in JSON form, `None` when they have no such form.
pub fn complete_request<S: Scalar>(
    request: &mut LlmRequest,
    annotated: &mut Option<AnnotatedLlmRequest>,
    plan: &HintSelection<S>,
    hints_json: Option<Value>,
)
    ensures
        match (plan.hints, hints_json) {
            (Some(_), Some(value)) => request_hinted(*old(request), *final(request), value),
            _ => *final(request) == *old(request),
        },
        annotated_completed(*old(annotated), *final(annotated), plan@.feedback),
{
    if plan.hints.is_some() {
        if let Some(value) = hints_json {
            inject_agent_hints(request, value);
        }
    }
    if let Some(feedback) = &plan.feedback {
        if let Some(annotated) = annotated {
            write_call_adaptive_hints(annotated, feedback);
        }
    }
}

/// A learned priority stays between zero and the cap, whatever the residual correction does.
pub proof fn law_learned_priority_within_cap<S: Scalar>(
    hints: Option<HintsView<S>>,
    dag_cpm: Option<DagCpmState<S>>,
    structural_key: Seq<char>,
    residual: Option<PriorityResidualState<S>>,
    model: Seq<char>,
    agent: Seq<char>,
    depth: nat,
    cap: u32,
    fallback: Option<u32>,
)
    requires
        learned_priority(dag_cpm, structural_key, cap) is Some,
    ensures
        ({
            let selected = prioritized(
                hints,
                learned_priority(dag_cpm, structural_key, cap),
                residual,
                model,
                agent,
                depth,
                cap,
                fallback,
            ).hints;
            &&& selected is Some
            &&& 0 <= selected->0.priority <= bounded_cap(cap)
        }),
{
}

/// A selected output length exceeds no limit that the request sets.
pub proof fn law_osl_within_request_limit<S: Scalar>(
    selection: SelectionView<S>,
    state: OslEmpiricalState,
    request: AnnotatedLlmRequest,
    root_uuid: Option<u128>,
    model: Seq<char>,
    agent: Seq<char>,
    depth: nat,
    limit: u64,
)
    requires
        request_limit(request) == Some(limit),
    ensures
        osl_overlaid(
            selection,
            Some(state),
            Some(request),
            root_uuid,
            model,
            agent,
            depth,
        ).hints matches Some(h) ==> h.osl <= limit,
{
    let outcome = state.predicted(root_uuid, agent, model, signature_of(request));
    if let Some(osl) = outcome.emitted_osl {
        law_cap_holds(osl, request);
    }
}

/// A cache that could not be read adds nothing to a request, unless a scope was annotated by hand.
pub proof fn law_unreadable_cache_adds_nothing<S: Scalar>(
    prediction: Option<LlmCallPrediction<S>>,
    llm_name: Seq<char>,
    context: RequestContext,
    annotated: Option<AnnotatedLlmRequest>,
)
    requires
        context.manual_ls is None,
    ensures
        request_plan(None, prediction, llm_name, context, annotated) == (SelectionView::<S> {
            hints: None,
            feedback: None,
        }),
{
}

/// A manual latency sensitivity always yields hints, none with a lower sensitivity, and no feedback
/// on the priority goes with it.
pub proof fn law_manual_sensitivity_prevails<S: Scalar>(
    cache: Option<HotCache<S>>,
    prediction: Option<LlmCallPrediction<S>>,
    llm_name: Seq<char>,
    context: RequestContext,
    annotated: Option<AnnotatedLlmRequest>,
    manual: u32,
)
    requires
        context.manual_ls == Some(manual),
    ensures
        ({
            let plan = request_plan(cache, prediction, llm_name, context, annotated);
            let given = S::ratio(manual as int, 1);
            &&& plan.hints matches Some(h) && (h.latency_sensitivity == given
                || !h.latency_sensitivity.below(given))
            &&& plan.feedback matches Some(f) ==> f.arm is None && f.key is None
                && f.emitted_priority is None && f.priority_cap is None
        }),
{
}

/// Feedback says what the hints say: the priority and the output length it reports as emitted are
/// those of the hints.
pub proof fn law_feedback_reports_the_hints<S: Scalar>(
    cache: Option<HotCache<S>>,
    prediction: Option<LlmCallPrediction<S>>,
    llm_name: Seq<char>,
    context: RequestContext,
    annotated: Option<AnnotatedLlmRequest>,
)
    requires
        context.manual_ls is None,
    ensures
        ({
            let plan = request_plan(cache, prediction, llm_name, context, annotated);
            plan.feedback matches Some(f) ==> {
                &&& f.emitted_priority matches Some(p) ==> plan.hints is Some
                    && plan.hints->0.priority == p
                &&& f.emitted_osl matches Some(osl) ==> plan.hints is Some
                    && plan.hints->0.osl == osl
            }
        }),
{
}

/// Where nothing was learned or predicted, the default hints go with a request unchanged.
pub proof fn law_defaults_pass_unchanged<S: Scalar>(
    cache: HotCache<S>,
    llm_name: Seq<char>,
    context: RequestContext,
    annotated: Option<AnnotatedLlmRequest>,
)
    requires
        context.manual_ls is None,
        cache.dag_cpm is None,
        cache.osl_empirical is None,
    ensures
        request_plan(Some(cache), None, llm_name, context, annotated) == (SelectionView {
            hints: hints_view(cache.agent_hints_default),
            feedback: None,
        }),
{
}

/// The hints of a request are the same in its headers and in its body, and every other member of
/// both stays as it was.
pub proof fn law_headers_and_body_agree(
    before: LlmRequest,
    after: LlmRequest,
    hints: Value,
    body: Map<Seq<char>, Value>,
    other: Seq<char>,
)
    requires
        request_hinted(before, after, hints),
        json_view(before.content) == JsonView::Object(body),
        takes_extensions(body),
    ensures
        json_entries(after.headers).contains_key(AGENT_HINTS_HEADER_KEY@),
        json_entries(after.headers)[AGENT_HINTS_HEADER_KEY@] == hints,
        json_at(after.content, seq![NVEXT_KEY@, AGENT_HINTS_BODY_KEY@]) == Some(hints),
        other != AGENT_HINTS_HEADER_KEY@ ==> (json_entries(after.headers).contains_key(other)
            <==> json_entries(before.headers).contains_key(other)),
        other != AGENT_HINTS_HEADER_KEY@ && json_entries(before.headers).contains_key(other)
            ==> json_entries(after.headers)[other] == json_entries(before.headers)[other],
        other != NVEXT_KEY@ ==> member(json_view(after.content), other) == member(
            json_view(before.content),
            other,
        ),
{
    reveal_with_fuel(json_at, 3);
    let path = seq![NVEXT_KEY@, AGENT_HINTS_BODY_KEY@];
    assert(path.drop_last() =~= seq![NVEXT_KEY@]);
    assert(path.drop_last().drop_last() =~= Seq::<Seq<char>>::empty());
    assert(json_at(after.content, path.drop_last()) == member(
        json_view(after.content),
        NVEXT_KEY@,
    ));
}

/// What is nearest to a number of millionths, of the whole numbers that are not negative.
pub open spec fn nearest_whole(value: Fixed, n: u32) -> bool {
    value.millionths <= n * 1_000_000 + 500_000 && n * 1_000_000 <= value.millionths + 500_000
}

/// In exact arithmetic, the hints of a predicted call are its prediction: the ninetieth percentile of
/// the output length, the mean time to the next call and the calls still to come after this one, each
/// to the nearest whole number, and the sensitivity, one where it is unknown. The priority is what the
/// sensitivity lacks to five. The prefix names the agent and the depth of the call.
#[verifier::spinoff_prover]
#[verifier::rlimit(40)]
pub proof fn law_prediction_is_handed_on(
    cache: HotCache<Fixed>,
    prediction: LlmCallPrediction<Fixed>,
    llm_name: Seq<char>,
    context: RequestContext,
    annotated: Option<AnnotatedLlmRequest>,
)
    requires
        cache.dag_cpm is None,
        cache.osl_empirical is None,
        context.manual_ls is None,
        0 <= prediction.output_tokens.p90.millionths <= 1_000_000_000_000_000,
        0 <= prediction.interarrival_ms.mean.millionths <= 1_000_000_000_000_000,
        0 <= prediction.remaining_calls.mean.millionths <= 1_000_000_000_000_000,
        context.call_index <= 1_000_000_000,
        prediction.latency_sensitivity matches Some(s) ==> s <= i32::MAX,
    ensures
        ({
            let plan = request_plan(Some(cache), Some(prediction), llm_name, context, annotated);
            let hints = plan.hints->0;
            let sensitivity: int = match prediction.latency_sensitivity {
                Some(s) => s as int,
                None => 1,
            };
            &&& plan.hints is Some
            &&& plan.feedback is None
            &&& nearest_whole(prediction.output_tokens.p90, hints.osl)
            &&& nearest_whole(prediction.interarrival_ms.mean, hints.iat)
            &&& hints.total_requests >= context.call_index
            &&& nearest_whole(
                prediction.remaining_calls.mean,
                (hints.total_requests - context.call_index) as u32,
            )
            &&& hints.latency_sensitivity.millionths == sensitivity * 1_000_000
            &&& hints.priority == if sensitivity > 5 {
                0
            } else {
                5 - sensitivity
            }
            &&& hints.prefix_id == context.effective_agent_id@ + "-d"@ + decimal(
                context.scope_path@.len(),
            )
        }),
{
    assert(texts(context.scope_path@).len() == context.scope_path@.len());
}

/// A call that nothing was learned for gets at least a priority of two, held to the cap, when its
/// request ends with a tool result, at least one when it is the first call or stands outside of any
/// scope, and else what it would get without learning.
#[verifier::spinoff_prover]
#[verifier::rlimit(40)]
pub proof fn law_unlearned_calls_fall_back<S: Scalar>(
    cache: HotCache<S>,
    state: DagCpmState<S>,
    prediction: Option<LlmCallPrediction<S>>,
    llm_name: Seq<char>,
    context: RequestContext,
    annotated: Option<AnnotatedLlmRequest>,
)
    requires
        cache.dag_cpm == Some(state),
        !state.nodes@.contains_key(key_text("llm"@, texts(context.scope_path@), llm_name)),
        context.manual_ls is None,
        context.priority_cap <= i32::MAX,
    ensures
        ({
            let plan = request_plan(Some(cache), prediction, llm_name, context, annotated).hints;
            let plain = request_plan(
                Some(HotCache { dag_cpm: None, ..cache }),
                prediction,
                llm_name,
                context,
                annotated,
            ).hints;
            let joins = annotated matches Some(request) && request.messages@.len() > 0
                && request.messages@[request.messages@.len() - 1] is Tool;
            let least: int = if context.priority_cap == 0 {
                0
            } else if joins {
                if context.priority_cap == 1 {
                    1
                } else {
                    2
                }
            } else if context.call_index == 1 || context.scope_path@.len() == 0 {
                1
            } else {
                0
            };
            &&& least == 0 ==> plan == plain
            &&& least > 0 ==> plan is Some
            &&& least > 0 && plain is Some ==> plan->0 == (HintsView {
                priority: plan->0.priority,
                ..plain->0
            }) && plan->0.priority == if plain->0.priority < least {
                least
            } else {
                plain->0.priority as int
            }
            &&& least > 0 && plain is None ==> plan->0.priority == least
        }),
{
    assert(texts(context.scope_path@).len() == context.scope_path@.len());
}

/// A background workflow is held to a priority of one, an interactive one to five, and any other one
/// to three.
pub proof fn law_class_caps_priority(class: Option<WorkflowClass>)
    ensures
        class == Some(WorkflowClass::Background) ==> class_cap(class) == 1,
        class == Some(WorkflowClass::Interactive) ==> class_cap(class) == 5,
        class == Some(WorkflowClass::Standard) || class is None ==> class_cap(class) == 3,
{
}

/// A residual decision moves the priority of a learned call as decided: up or down by one, between
/// zero and the cap, which is never above five. The feedback says which arm it was, in which context,
/// what priority came of it and under what cap.
#[verifier::spinoff_prover]
#[verifier::rlimit(40)]
pub proof fn law_residual_steps_as_decided<S: Scalar>(
    cache: HotCache<S>,
    state: DagCpmState<S>,
    residual: PriorityResidualState<S>,
    prediction: Option<LlmCallPrediction<S>>,
    llm_name: Seq<char>,
    context: RequestContext,
    annotated: Option<AnnotatedLlmRequest>,
    key: Seq<char>,
    action: PriorityResidualAction,
)
    requires
        cache.dag_cpm == Some(state),
        cache.priority_residual == Some(residual),
        context.manual_ls is None,
        ({
            let node = key_text("llm"@, texts(context.scope_path@), llm_name);
            let model = match annotated {
                Some(request) if request.model is Some => request.model->0@,
                _ => llm_name,
            };
            &&& state.nodes@.contains_key(node)
            &&& state.nodes@[node].criticality_ewma.finite()
            &&& decided(residual@, state.nodes@[node].criticality_ewma, model) == Some(
                (key, action),
            )
        }),
    ensures
        ({
            let plan = request_plan(Some(cache), prediction, llm_name, context, annotated);
            let plain = request_plan(
                Some(HotCache { priority_residual: None, ..cache }),
                prediction,
                llm_name,
                context,
                annotated,
            );
            let prior = plain.hints->0.priority as int;
            let cap: int = if context.priority_cap < 5 {
                context.priority_cap as int
            } else {
                5
            };
            let feedback = plan.feedback->0;
            &&& plan.hints is Some && plain.hints is Some
            &&& 0 <= prior <= cap
            &&& plan.hints->0.priority == match action {
                PriorityResidualAction::Up => if prior == cap {
                    prior
                } else {
                    prior + 1
                },
                PriorityResidualAction::Down => if prior == 0 {
                    prior
                } else {
                    prior - 1
                },
                PriorityResidualAction::Noop => prior,
            }
            &&& plan.feedback is Some
            &&& feedback.key == Some(key)
            &&& feedback.arm == Some(
                match action {
                    PriorityResidualAction::Down => 0u8,
                    PriorityResidualAction::Noop => 1,
                    PriorityResidualAction::Up => 2,
                },
            )
            &&& feedback.emitted_priority == Some(plan.hints->0.priority as u32)
            &&& feedback.priority_cap == Some(cap as u32)
        }),
{
}

/// What goes with a request on its output length tells where the length was found, whether it was
/// trusted and how many samples there were; what goes with it on the priority is the same as without
/// it.
#[verifier::spinoff_prover]
#[verifier::rlimit(40)]
pub proof fn law_length_facts_are_reported<S: Scalar>(
    cache: HotCache<S>,
    state: OslEmpiricalState,
    prediction: Option<LlmCallPrediction<S>>,
    llm_name: Seq<char>,
    context: RequestContext,
    request: AnnotatedLlmRequest,
)
    requires
        cache.osl_empirical == Some(state),
    ensures
        ({
            let plan = request_plan(Some(cache), prediction, llm_name, context, Some(request));
            let plain = request_plan(
                Some(HotCache { osl_empirical: None, ..cache }),
                prediction,
                llm_name,
                context,
                Some(request),
            );
            let model = match request.model {
                Some(named) => named@,
                None => llm_name,
            };
            let outcome = state.predicted(
                context.root_uuid,
                context.effective_agent_id@,
                model,
                signature_of(request),
            );
            let feedback = plan.feedback->0;
            let known = plain.feedback;
            &&& plan.feedback is Some
            &&& feedback.osl_source == Some(outcome.source)
            &&& feedback.osl_confidence_passed == Some(outcome.confidence_passed)
            &&& feedback.osl_sample_count is Some <==> outcome.sample_count is Some
            &&& outcome.sample_count matches Some(n) ==> (n <= u32::MAX
                ==> feedback.osl_sample_count->0 == n)
            &&& known is None ==> feedback.arm is None && feedback.key is None
                && feedback.emitted_priority is None && feedback.priority_cap is None
            &&& known matches Some(k) ==> feedback.arm == k.arm && feedback.key == k.key
                && feedback.emitted_priority == k.emitted_priority && feedback.priority_cap
                == k.priority_cap
        }),
{
}

/// Where output lengths are learned and none is predicted for a request, no length goes with it, not
/// even that of a prediction or of the defaults.
pub proof fn law_unknown_length_is_taken_back<S: Scalar>(
    cache: HotCache<S>,
    state: OslEmpiricalState,
    prediction: Option<LlmCallPrediction<S>>,
    llm_name: Seq<char>,
    context: RequestContext,
    annotated: Option<AnnotatedLlmRequest>,
)
    requires
        cache.osl_empirical == Some(state),
        annotated matches Some(request) ==> state.predicted(
            context.root_uuid,
            context.effective_agent_id@,
            match request.model {
                Some(named) => named@,
                None => llm_name,
            },
            signature_of(request),
        ).emitted_osl is None,
    ensures
        request_plan(Some(cache), prediction, llm_name, context, annotated).hints matches Some(
            h,
        ) ==> h.osl == 0,
{
}

/// In exact arithmetic, a manual latency sensitivity above that of the hints takes its place and sets
/// the priority to what it lacks to five; one that is not above it changes nothing. The other hints
/// are those that there are without it.
#[verifier::spinoff_prover]
#[verifier::rlimit(40)]
pub proof fn law_manual_sensitivity_sets_priority(
    cache: Option<HotCache<Fixed>>,
    prediction: Option<LlmCallPrediction<Fixed>>,
    llm_name: Seq<char>,
    context: RequestContext,
    plain_context: RequestContext,
    annotated: Option<AnnotatedLlmRequest>,
    manual: u32,
)
    requires
        context.manual_ls == Some(manual),
        manual <= i32::MAX,
        plain_context == (RequestContext { manual_ls: None, ..context }),
    ensures
        ({
            let plan = request_plan(cache, prediction, llm_name, context, annotated);
            let plain = request_plan(cache, prediction, llm_name, plain_context, annotated);
            let set: int = if manual > 5 {
                0
            } else {
                5 - manual
            };
            let hints = plan.hints->0;
            &&& plan.hints is Some
            &&& plain.hints is None ==> hints.priority == set
                && hints.latency_sensitivity.millionths == manual * 1_000_000 && hints.osl == 0
                && hints.iat == 0 && hints.total_requests == 0 && hints.prefix_id
                == context.effective_agent_id@ + "-d"@ + decimal(context.scope_path@.len())
            &&& plain.hints matches Some(h) ==> if h.latency_sensitivity.millionths < manual
                * 1_000_000 {
                &&& hints.priority == set
                &&& hints.latency_sensitivity.millionths == manual * 1_000_000
                &&& hints == (HintsView {
                    priority: hints.priority,
                    latency_sensitivity: hints.latency_sensitivity,
                    ..h
                })
            } else {
                hints == h
            }
        }),
{
    assert(texts(context.scope_path@).len() == context.scope_path@.len());
}

/// Injected hints leave the other provider extensions of a request as they were, and a body that has
/// no room for them altogether.
pub proof fn law_other_extensions_stay(
    before: LlmRequest,
    after: LlmRequest,
    hints: Value,
    other: Seq<char>,
)
    requires
        request_hinted(before, after, hints),
        other != "agent_hints"@,
    ensures
        match json_view(before.content) {
            JsonView::Object(body) => if body.contains_key("nvext"@) && !(json_view(
                body["nvext"@],
            ) is Object) {
                json_view(after.content) == json_view(before.content)
            } else {
                &&& member(json_view(after.content), "nvext"@) is Some
                &&& member(
                    json_view(member(json_view(after.content), "nvext"@)->0),
                    "agent_hints"@,
                ) == Some(hints)
                &&& member(json_view(member(json_view(after.content), "nvext"@)->0), other)
                    == if body.contains_key("nvext"@) {
                    member(json_view(body["nvext"@]), other)
                } else {
                    None
                }
            },
            _ => after.content == before.content,
        },
{
}

/// A request is told apart by what its scopes say: the agent is the outermost open one, or the own
/// one where none is open, the path names the open agents and functions from the outside in, and the
/// root is the root scope. A request outside of any scope has none of them.
#[verifier::spinoff_prover]
#[verifier::rlimit(40)]
pub proof fn law_context_tells_the_scopes(
    stack: Option<ScopeStack>,
    own_agent: Seq<char>,
    call_index: u32,
    context: RequestContext,
)
    requires
        context_read(stack, own_agent, call_index, context),
    ensures
        context.call_index == call_index,
        stack is None ==> context.scope_path@.len() == 0 && context.root_uuid is None
            && context.manual_ls is None && context.priority_cap == 3
            && context.effective_agent_id@ == own_agent,
        stack matches Some(s) ==> {
            let named = s.nested@.filter(
                |scope: Scope|
                    scope.scope_type == ScopeType::Agent || scope.scope_type == ScopeType::Function,
            );
            &&& context.root_uuid == Some(s.root.uuid)
            &&& context.scope_path@.len() == named.len()
            &&& forall|i: int|
                0 <= i < named.len() ==> (#[trigger] context.scope_path@[i])@ == named[i].name@
            &&& forall|k: int|
                0 <= k < s.nested@.len() && (#[trigger] s.nested@[k]).scope_type
                    == ScopeType::Agent && (forall|j: int|
                    0 <= j < k ==> (#[trigger] s.nested@[j]).scope_type != ScopeType::Agent)
                    ==> context.effective_agent_id@ == s.nested@[k].name@
            &&& (forall|k: int|
                0 <= k < s.nested@.len() ==> (#[trigger] s.nested@[k]).scope_type
                    != ScopeType::Agent) ==> context.effective_agent_id@ == own_agent
        },
{
    if let Some(s) = stack {
        let scopes = s.nested@;
        let named = scopes.filter(
            |scope: Scope|
                scope.scope_type == ScopeType::Agent || scope.scope_type == ScopeType::Function,
        );
        law_path_names_agents_and_functions(scopes);
        assert forall|i: int| 0 <= i < named.len() implies (#[trigger] context.scope_path@[i])@
            == named[i].name@ by {
            assert(texts(context.scope_path@)[i] == context.scope_path@[i]@);
        }
        assert(texts(context.scope_path@).len() == context.scope_path@.len());
        assert forall|k: int|
            0 <= k < scopes.len() && (#[trigger] scopes[k]).scope_type == ScopeType::Agent && (
            forall|j: int| 0 <= j < k ==> (#[trigger] scopes[j]).scope_type != ScopeType::Agent)
            implies context.effective_agent_id@ == scopes[k].name@ by {
            assert(first_agent(scopes, k));
            let chosen = choose|k: int| first_agent(scopes, k);
            assert(first_agent(scopes, chosen));
            assert(scopes[k].scope_type == scopes[chosen].scope_type);
            if k < chosen {
                assert(scopes[k].scope_type != ScopeType::Agent);
            } else if chosen < k {
                assert(scopes[chosen].scope_type != ScopeType::Agent);
            }
        }
    } else {
        assert(texts(context.scope_path@).len() == context.scope_path@.len());
    }
}

/// What was learned for a call sets its priority, and nothing else of what it would get without
/// learning. A call that would get nothing gets hints with the priority alone.
pub proof fn law_learned_priority_is_all_that_changes<S: Scalar>(
    cache: HotCache<S>,
    state: DagCpmState<S>,
    prediction: Option<LlmCallPrediction<S>>,
    llm_name: Seq<char>,
    context: RequestContext,
    annotated: Option<AnnotatedLlmRequest>,
)
    requires
        cache.dag_cpm == Some(state),
        state.nodes@.contains_key(key_text("llm"@, texts(context.scope_path@), llm_name)),
        state.nodes@[key_text(
            "llm"@,
            texts(context.scope_path@),
            llm_name,
        )].criticality_ewma.finite(),
        context.manual_ls is None,
    ensures
        ({
            let plan = request_plan(Some(cache), prediction, llm_name, context, annotated).hints;
            let plain = request_plan(
                Some(HotCache { dag_cpm: None, ..cache }),
                prediction,
                llm_name,
                context,
                annotated,
            ).hints;
            &&& plan is Some
            &&& plain matches Some(h) ==> plan->0 == (HintsView { priority: plan->0.priority, ..h })
            &&& plain is None ==> plan->0.iat == 0 && plan->0.total_requests == 0
                && plan->0.prefix_id == context.effective_agent_id@ + "-d"@ + decimal(
                context.scope_path@.len(),
            )
        }),
{
    assert(texts(context.scope_path@).len() == context.scope_path@.len());
}

/// The manual sensitivity of a request is no lower than that of any open scope, the root included, and
/// the innermost workflow class among them sets its cap.
pub proof fn law_context_tells_sensitivity_and_cap(
    stack: ScopeStack,
    own_agent: Seq<char>,
    call_index: u32,
    context: RequestContext,
    i: int,
)
    requires
        context_read(Some(stack), own_agent, call_index, context),
        0 <= i < stack.scopes().len(),
    ensures
        sensitivity_of(stack.scopes()[i].metadata) matches Some(n) ==> context.manual_ls is Some
            && context.manual_ls->0 >= n,
        (class_of(stack.scopes()[i].metadata) is Some && forall|j: int|
            i < j < stack.scopes().len() ==> class_of((#[trigger] stack.scopes()[j]).metadata)
                is None) ==> context.priority_cap == match class_of(
            stack.scopes()[i].metadata,
        )->0 {
            WorkflowClass::Background => 1u32,
            WorkflowClass::Standard => 3,
            WorkflowClass::Interactive => 5,
        },
        (forall|j: int|
            0 <= j < stack.scopes().len() ==> class_of((#[trigger] stack.scopes()[j]).metadata)
                is None) ==> context.priority_cap == 3,
{
    let scopes = stack.scopes();
    if sensitivity_of(scopes[i].metadata) is Some {
        law_highest_sensitivity_wins(scopes, i);
    }
    if class_of(scopes[i].metadata) is Some && forall|j: int|
        i < j < scopes.len() ==> class_of((#[trigger] scopes[j]).metadata) is None {
        law_deepest_class_wins(scopes, i);
    }
    if forall|j: int| 0 <= j < scopes.len() ==> class_of((#[trigger] scopes[j]).metadata) is None {
        law_no_class_without_a_scope(scopes);
    }
}

} // verus!
