//! What the learners learn from runs is what requests are served.
//!
//! Each law here spans a learner and a lookup: it speaks of the calls of a run as they were recorded,
//! and of what a later call is judged by or a later request is given.
use crate::adaptive_hints_intercept::{learned_priority, request_plan, RequestContext};
use crate::cache::{HintsView, HotCache, LlmCallPrediction};
use crate::dag::cpm::{bounded_horizon, cpm_of, graph_of, horizon_for, law_llm_calls_are_sampled, lemma_graph_in_range, of_another, same_horizons, sampled, samples_of, CompletedRunCpm, DagCpmCallSample};
use crate::dag::critical_path::{criticalities_in_unit_range, exact_result, held_horizon, law_results_stay_in_range, law_slack_is_never_negative, measured, law_criticality_falls_linearly, law_criticality_in_unit_range, law_horizon_is_held, law_learned_criticality_in_unit_range, law_priority_is_the_nearest_share};
use crate::dag::graph::{call_before, call_model, completed_order, key_text, stands_for, CompletedRunDag, RunDagNode};
use crate::dag::state::{any_valid_sample, any_wait, bounded_cap, calls_waited, facts_learned, last_n, projected_priority, pruned_within, run_learned, run_processed, samples_learned, shrunk, starts_from, tells_wait, tidied, usable_among, valid_sample, window_percentile, windows_within_limits, DagCpmNodeState, DagCpmState, QueueView, WindowView};
use crate::dag::topology::acyclic;
use crate::fixed::{Fixed, WHOLE};
use crate::model::bucket_of;
use crate::order::{law_quantile_splits_the_samples, quantile, splits_at};
use crate::osl_empirical::{any_with_role, bounded_from, call_learned, call_sample, calls_learned, capped_to_request, confident, context_observed, key_of, law_storage_keys_apart, osl_processed, osl_starts_from, predicted_from, recorded, role_of, run_call_observed, sample_quantile, signature_of, OslContextStats, OslEmpiricalState, OslMessageRole, OslRequestSignature, ScopeView};
use crate::priority_residual::{call_feedback, calls_absorbed, decided, law_loss_is_harm_and_spend, law_loss_is_ordered, lemma_last_slack, loss_attributed, residual_loss, residual_shrunk, residual_processed, residual_starts_from, residual_tidied, run_samples, PriorityResidualAction, PriorityResidualState, ResidualView, PRIORITY_RESIDUAL_DISCOUNT_HUNDREDTHS};
use crate::records::{CallKind, CallRecord, RunRecord};
use crate::request::{AnnotatedLlmRequest, FinishReason, Message};
use crate::scalar::{usable, zero_of, Scalar};
use crate::table::{kept_freshest, law_cutoff_drops_what_is_older, law_nothing_goes_without_need, survivors, views};
use crate::text::texts;
use crate::time::{days_earlier, Timestamp};
use vstd::prelude::*;

verus! {

/// Whether `call` is an LLM call to a model, by the model's state key, that reports a queue wait which
/// can be used.
pub open spec fn waited_for<S: Scalar>(call: CallRecord<S>, model: Seq<char>) -> bool {
    &&& call.kind == CallKind::Llm
    &&& bucket_of(call_model(call)) == model
    &&& call.backend_timing is Some
    &&& call.backend_timing->0.prefill_wait_time_ms is Some
    &&& usable(call.backend_timing->0.prefill_wait_time_ms->0)
}

/// The queue waits that calls to a model report, in order.
pub open spec fn model_waits<S: Scalar>(calls: Seq<CallRecord<S>>, model: Seq<char>) -> Seq<S> {
    calls.filter(|call: CallRecord<S>| waited_for(call, model)).map_values(
        |call: CallRecord<S>| call.backend_timing->0.prefill_wait_time_ms->0,
    )
}

/// Whether `kept` are the last `n` of `all`, or all of them when there are no more.
pub open spec fn last_of_all<T>(all: Seq<T>, kept: Seq<T>, n: int) -> bool {
    &&& kept.len() == if all.len() > n {
        n
    } else {
        all.len() as int
    }
    &&& forall|i: int|
        0 <= i < kept.len() ==> #[trigger] kept[i] == all[all.len() - kept.len() + i]
}

/// The waits that a state holds for a model.
pub open spec fn held_waits<S: Scalar>(queue: QueueView<S>, model: Seq<char>) -> Seq<S> {
    if queue.by_model.contains_key(model) {
        queue.by_model[model].samples
    } else {
        Seq::empty()
    }
}

proof fn lemma_model_waits_step<S: Scalar>(calls: Seq<CallRecord<S>>, model: Seq<char>)
    requires
        calls.len() > 0,
    ensures
        model_waits(calls, model) == if waited_for(calls.last(), model) {
            model_waits(calls.drop_last(), model).push(
                calls.last().backend_timing->0.prefill_wait_time_ms->0,
            )
        } else {
            model_waits(calls.drop_last(), model)
        },
{
    reveal(Seq::filter);
    assert(model_waits(calls, model) =~= if waited_for(calls.last(), model) {
        model_waits(calls.drop_last(), model).push(
            calls.last().backend_timing->0.prefill_wait_time_ms->0,
        )
    } else {
        model_waits(calls.drop_last(), model)
    });
}

proof fn lemma_waits_kept<S: Scalar>(
    queue: QueueView<S>,
    calls: Seq<CallRecord<S>>,
    at: Timestamp,
    model: Seq<char>,
)
    requires
        windows_within_limits(queue),
    ensures
        ({
            let after = calls_waited(queue, calls, at);
            let waits = model_waits(calls, model);
            &&& windows_within_limits(after)
            &&& last_of_all(
                held_waits(queue, model) + waits,
                held_waits(after, model),
                256,
            )
            &&& waits.len() > 0 ==> after.by_model.contains_key(model)
                && after.by_model[model].updated == Some(at)
            &&& waits.len() == 0 ==> (after.by_model.contains_key(model)
                <==> queue.by_model.contains_key(model)) && (after.by_model.contains_key(model)
                ==> after.by_model[model] == queue.by_model[model])
        }),
    decreases calls.len(),
{
    let held = held_waits(queue, model);
    let n = 256;
    if calls.len() == 0 {
        reveal(Seq::filter);
        assert(model_waits(calls, model) =~= Seq::<S>::empty());
        assert(held + model_waits(calls, model) =~= held);
    } else {
        let front = calls.drop_last();
        lemma_waits_kept(queue, front, at, model);
        lemma_model_waits_step(calls, model);
        let between = calls_waited(queue, front, at);
        let after = calls_waited(queue, calls, at);
        let waits = model_waits(calls, model);
        if waited_for(calls.last(), model) {
            let wait = calls.last().backend_timing->0.prefill_wait_time_ms->0;
            let earlier = held_waits(between, model);
            let now = held_waits(after, model);
            assert(now == last_n(earlier.push(wait), n));
            assert(held + waits =~= (held + model_waits(front, model)).push(wait));
            assert(last_of_all(held + waits, now, n));
        }
        assert forall|m: Seq<char>| #[trigger]
            after.by_model.contains_key(m) implies after.by_model[m].samples.len() <= n by {
            if between.by_model.contains_key(m) {
                assert(between.by_model[m].samples.len() <= n);
            }
        }
    }
}

proof fn lemma_models_counted<S: Scalar>(
    queue: QueueView<S>,
    calls: Seq<CallRecord<S>>,
    at: Timestamp,
)
    requires
        queue.by_model.dom().finite(),
    ensures
        calls_waited(queue, calls, at).by_model.dom().finite(),
        calls_waited(queue, calls, at).by_model.dom().len() <= queue.by_model.dom().len()
            + calls.len(),
    decreases calls.len(),
{
    if calls.len() > 0 {
        lemma_models_counted(queue, calls.drop_last(), at);
    }
}

/// What calls to a model waited is remembered for that model, the latest waits last, and nothing of
/// what other calls waited. As long as there is room for the models, no model that a run waited for is
/// forgotten.
pub proof fn law_waits_are_kept_by_model<S: Scalar>(
    before: DagCpmState<S>,
    run: RunRecord<S>,
    dag: CompletedRunDag<S>,
    at: Timestamp,
    after: DagCpmState<S>,
    changed: bool,
    model: Seq<char>,
)
    requires
        run_learned(before, run, dag, at, after, changed),
        acyclic(dag.edges@),
        windows_within_limits(before.queue()),
        before.queue_wait_by_model@.dom().finite(),
    ensures
        after.queue_wait_by_model@.contains_key(model) ==> last_of_all(
            held_waits(before.queue(), model) + model_waits(run.calls@, model),
            after.queue_wait_by_model@[model].samples_ms@,
            256,
        ),
        model_waits(run.calls@, model).len() > 0 && before.queue_wait_by_model@.dom().len()
            + run.calls@.len() <= 64
            ==> after.queue_wait_by_model@.contains_key(model)
            && after.queue_wait_by_model@[model].last_updated_at == Some(at),
{
    let (cpm, samples, learned) = choose|
        cpm: CompletedRunCpm<S>,
        samples: Seq<DagCpmCallSample<S>>,
        learned: DagCpmState<S>,
    | #[trigger]
        facts_learned(before, run, dag, cpm, samples, at, learned) && tidied(learned, after, at);
    lemma_waits_kept(before.queue(), run.calls@, at, model);
    let cutoff = choose|cutoff: Timestamp|
        cutoff@ == days_earlier(at@, 14) && #[trigger]
            pruned_within(
                learned.nodes@,
                after.nodes@,
                cutoff,
                512nat,
            ) && pruned_within(
            learned.queue_wait_by_model@,
            after.queue_wait_by_model@,
            cutoff,
            64nat,
        );
    let windows = learned.queue_wait_by_model@;
    assert(learned.queue().by_model.dom() =~= windows.dom());
    assert(before.queue().by_model.dom() =~= before.queue_wait_by_model@.dom());
    if after.queue_wait_by_model@.contains_key(model) {
        assert(windows.contains_key(model));
        assert(learned.queue().by_model[model] == windows[model]@);
    }
    if model_waits(run.calls@, model).len() > 0 && before.queue_wait_by_model@.dom().len()
        + run.calls@.len() <= 64 {
        lemma_models_counted(before.queue(), run.calls@, at);
        assert(learned.queue().by_model.contains_key(model));
        assert(windows.contains_key(model) && windows[model]@ == learned.queue().by_model[model]);
        law_cutoff_drops_what_is_older(windows, cutoff, model);
        let left = survivors(windows, cutoff);
        vstd::set_lib::lemma_len_subset(left.dom(), windows.dom());
        law_nothing_goes_without_need(
            left,
            after.queue_wait_by_model@,
            64nat,
        );
    }
}

proof fn lemma_usable_among<S: Scalar>(samples: Seq<S>)
    ensures
        usable_among(samples) == samples.filter(|x: S| usable(x)),
    decreases samples.len(),
{
    reveal(Seq::filter);
    if samples.len() > 0 {
        lemma_usable_among(samples.drop_last());
    }
}

/// The waits that are numbers and not negative, in order.
pub open spec fn usable_waits(waits: Seq<Fixed>) -> Seq<Fixed> {
    waits.filter(|x: Fixed| 0 <= x.millionths < i64::MAX)
}

/// Whether `horizon` is the nearest-rank percentile of the usable ones among some waits, held to the
/// bounds of a horizon.
pub open spec fn estimated_from(waits: Seq<Fixed>, horizon: Fixed) -> bool {
    exists|wait: Fixed| #[trigger]
        splits_at(
            usable_waits(waits),
            90,
            wait,
        ) && held_horizon(Some(wait), horizon)
}

/// Whether a horizon can be estimated from some waits: there are enough of them, and some is usable.
pub open spec fn enough_waits(waits: Seq<Fixed>) -> bool {
    &&& waits.len() >= 4
    &&& usable_waits(waits).len() > 0
}

proof fn lemma_percentile(window: WindowView<Fixed>)
    ensures
        enough_waits(window.samples) <==> window_percentile(window) is Some,
        window_percentile(window) matches Some(wait) ==> splits_at(
            usable_waits(window.samples),
            90,
            wait,
        ),
{
    let waits = window.samples;
    lemma_usable_among(waits);
    assert((|x: Fixed| usable(x)) =~= (|x: Fixed| 0 <= x.millionths < i64::MAX));
    if enough_waits(waits) {
        law_quantile_splits_the_samples(usable_among(waits), 90);
    }
}

/// What a model's calls waited is what its next calls are judged by: the sample of a completed LLM
/// call carries, as its queue horizon, the percentile of the waits held for its own model, when there
/// are enough, whatever calls to other models waited. Else it carries that of the waits across all
/// models, when those are enough, and else the default one. Within the horizon, the criticality falls
/// with the slack on a straight line.
#[verifier::spinoff_prover]
#[verifier::rlimit(40)]
pub proof fn law_calls_are_judged_by_their_models_waits(
    before: DagCpmState<Fixed>,
    run: RunRecord<Fixed>,
    dag: CompletedRunDag<Fixed>,
    cpm: CompletedRunCpm<Fixed>,
    samples: Seq<DagCpmCallSample<Fixed>>,
    at: Timestamp,
    learned: DagCpmState<Fixed>,
    c: int,
) -> (i: int)
    requires
        graph_of(run, dag),
        facts_learned(before, run, dag, cpm, samples, at, learned),
        0 <= c < run.calls@.len(),
        run.calls@[c].kind == CallKind::Llm,
        run.calls@[c].ended_at is Some,
    ensures
        0 <= i < samples.len(),
        samples[i].scope_uuid == run.calls@[c].scope_uuid,
        samples[i].structural_key@ == key_text(
            "llm"@,
            texts(run.calls@[c].function_path@),
            run.calls@[c].name@,
        ),
        forall|j: int|
            0 <= j < samples.len() && j != i ==> of_another_call(
                run.calls@,
                c,
                #[trigger] samples[j],
            ),
        ({
            let own = held_waits(before.queue(), bucket_of(call_model(run.calls@[c])));
            let all = before.global_queue_wait.samples_ms@;
            let horizon = samples[i].queue_horizon_ms;
            &&& enough_waits(own) ==> estimated_from(own, horizon)
            &&& !enough_waits(own) && enough_waits(all) ==> estimated_from(all, horizon)
            &&& !enough_waits(own) && !enough_waits(all) ==> held_horizon(None, horizon)
            &&& 0 <= samples[i].slack_ms.millionths <= horizon.millionths ==> {
                let share = samples[i].criticality.millionths * horizon.millionths;
                let left = WHOLE * (horizon.millionths - samples[i].slack_ms.millionths);
                left <= share < left + horizon.millionths
            }
        }),
{
    let call = run.calls@[c];
    let nodes = dag.nodes@;
    let order = nodes.map_values(|n: RunDagNode<Fixed>| n.call_index as int);
    assert(order.contains(c));
    let v = choose|v: int| 0 <= v < order.len() && order[v] == c;
    assert(nodes[v].call_index == c);
    assert(stands_for(nodes[v], call, c));
    let i = law_llm_calls_are_sampled(run, dag, cpm, samples, v);
    assert(cpm.nodes@[v].node_index == v);
    let model = bucket_of(call_model(call));
    let given = before.horizon(Some(model));
    assert(before.node_horizons(nodes)[v] == given);
    let horizon = samples[i].queue_horizon_ms;
    assert(horizon == bounded_horizon(given));
    let own = held_waits(before.queue(), model);
    if before.queue_wait_by_model@.contains_key(model) {
        assert(before.queue().by_model[model] == before.queue_wait_by_model@[model]@);
        lemma_percentile(before.queue_wait_by_model@[model]@);
    } else {
        assert(own.len() == 0);
    }
    lemma_percentile(before.global_queue_wait@);
    law_horizon_is_held(Some(given));
    if enough_waits(own) {
        let wait = before.model_percentile(Some(model))->0;
        assert(held_horizon(Some(wait), horizon)) by {
            lemma_split_is_finite(own, wait);
        }
    } else if enough_waits(before.global_queue_wait@.samples) {
        let all = before.global_queue_wait@.samples;
        let wait = window_percentile(before.global_queue_wait@)->0;
        assert(held_horizon(Some(wait), horizon)) by {
            lemma_split_is_finite(all, wait);
        }
    }
    if 0 <= samples[i].slack_ms.millionths <= horizon.millionths {
        law_criticality_falls_linearly(samples[i].slack_ms, horizon);
    }
    assert forall|j: int| 0 <= j < samples.len() && j != i implies of_another_call(
        run.calls@,
        c,
        #[trigger] samples[j],
    ) by {
        assert(of_another(nodes, v, samples[j]));
        let w = choose|w: int|
            0 <= w < nodes.len() && w != v && (#[trigger] nodes[w]).emits_priority
                && nodes[w].structural_key == samples[j].structural_key;
        let d = nodes[w].call_index as int;
        assert(order[w] == d && order[v] == c);
        assert(d != c) by {
            if v < w {
                assert(call_before(run.calls@, order[v], order[w]));
            } else {
                assert(call_before(run.calls@, order[w], order[v]));
            }
        }
        assert(stands_for(nodes[w], run.calls@[d], d));
    }
    i
}

/// Whether a sample is that of a completed LLM call other than the one at `c`.
pub open spec fn of_another_call<S: Scalar>(
    calls: Seq<CallRecord<S>>,
    c: int,
    sample: DagCpmCallSample<S>,
) -> bool {
    exists|d: int|
        0 <= d < calls.len() && d != c && (#[trigger] calls[d]).kind == CallKind::Llm
            && calls[d].ended_at is Some && key_text(
            "llm"@,
            texts(calls[d].function_path@),
            calls[d].name@,
        ) == sample.structural_key@
}

proof fn lemma_split_is_finite(waits: Seq<Fixed>, wait: Fixed)
    requires
        splits_at(
            usable_waits(waits),
            90,
            wait,
        ),
    ensures
        0 <= wait.millionths < i64::MAX,
{
    let p = |x: Fixed| 0 <= x.millionths < i64::MAX;
    let usable_ones = waits.filter(p);
    let k = choose|k: int| 0 <= k < usable_ones.len() && usable_ones[k] == wait;
    waits.lemma_filter_pred(p, k);
}

proof fn lemma_learned_key<S: Scalar>(
    nodes: Map<Seq<char>, DagCpmNodeState<S>>,
    samples: Seq<DagCpmCallSample<S>>,
    at: Timestamp,
    i: int,
)
    requires
        0 <= i < samples.len(),
        valid_sample(samples[i]),
    ensures
        samples_learned(nodes, samples, at).contains_key(samples[i].structural_key@),
        samples_learned(nodes, samples, at)[samples[i].structural_key@].last_updated_at == Some(at),
    decreases samples.len(),
{
    if i < samples.len() - 1 {
        assert(samples.drop_last()[i] == samples[i]);
        lemma_learned_key(nodes, samples.drop_last(), at, i);
    }
}

/// What is learned is what is served: once a completed LLM call of a run was learned, its node is
/// found by any request with the same scope path and call name, and the priority of the request is the
/// whole number nearest to the share of the cap that the learned criticality of that very node gives.
#[verifier::spinoff_prover]
#[verifier::rlimit(40)]
pub proof fn law_learned_criticality_is_served(
    before: DagCpmState<Fixed>,
    run: RunRecord<Fixed>,
    dag: CompletedRunDag<Fixed>,
    cpm: CompletedRunCpm<Fixed>,
    samples: Seq<DagCpmCallSample<Fixed>>,
    at: Timestamp,
    learned: DagCpmState<Fixed>,
    v: int,
    cache: HotCache<Fixed>,
    prediction: Option<LlmCallPrediction<Fixed>>,
    llm_name: Seq<char>,
    context: RequestContext,
    annotated: Option<AnnotatedLlmRequest>,
)
    requires
        graph_of(run, dag),
        facts_learned(before, run, dag, cpm, samples, at, learned),
        criticalities_in_unit_range(before.nodes@),
        0 <= v < dag.nodes@.len(),
        0 <= dag.nodes@[v].duration_ms.millionths < i64::MAX,
        i64::MIN < cpm.nodes@[v].slack_ms.millionths < i64::MAX,
        ({
            let call = run.calls@[dag.nodes@[v].call_index as int];
            &&& call.kind == CallKind::Llm
            &&& texts(context.scope_path@) == texts(call.function_path@)
            &&& llm_name == call.name@
        }),
        cache.dag_cpm matches Some(state) && state.nodes@.contains_key(
            dag.nodes@[v].structural_key@,
        ) && state.nodes@[dag.nodes@[v].structural_key@]
            == learned.nodes@[dag.nodes@[v].structural_key@],
        cache.priority_residual is None,
        context.manual_ls is None,
    ensures
        learned.nodes@.contains_key(dag.nodes@[v].structural_key@),
        learned.nodes@[dag.nodes@[v].structural_key@].last_updated_at == Some(at),
        ({
            let plan = request_plan(Some(cache), prediction, llm_name, context, annotated);
            let cap: int = if context.priority_cap <= 5 {
                context.priority_cap as int
            } else {
                5
            };
            let share = cap
                * learned.nodes@[dag.nodes@[v].structural_key@].criticality_ewma.millionths;
            &&& plan.hints is Some
            &&& share - WHOLE / 2 <= plan.hints->0.priority * WHOLE <= share + WHOLE / 2
        }),
{
    let call = run.calls@[dag.nodes@[v].call_index as int];
    let key = dag.nodes@[v].structural_key@;
    assert(stands_for(dag.nodes@[v], call, dag.nodes@[v].call_index as int));
    let i = law_llm_calls_are_sampled(run, dag, cpm, samples, v);
    assert(cpm.nodes@[v].node_index == v);
    let given = before.node_horizons(dag.nodes@)[v];
    law_horizon_is_held(Some(given));
    law_criticality_in_unit_range(samples[i].slack_ms, samples[i].queue_horizon_ms);
    assert(valid_sample(samples[i]));
    lemma_learned_key(before.nodes@, samples, at, i);
    law_learned_criticality_in_unit_range(before.nodes@, samples, at);
    assert(learned.nodes@.contains_key(key));
    let criticality = learned.nodes@[key].criticality_ewma;
    law_priority_is_the_nearest_share(criticality, 0, bounded_cap(context.priority_cap));
    let served = key_text("llm"@, texts(context.scope_path@), llm_name);
    assert(served == key);
    assert(learned_priority(cache.dag_cpm, served, context.priority_cap) == Some(
        (projected_priority(criticality, 0, bounded_cap(context.priority_cap)), criticality),
    ));
}

/// A residual correction moves the priority of a request by no more than one step, and nothing else
/// of its hints.
pub proof fn law_residual_moves_one_step<S: Scalar>(
    cache: HotCache<S>,
    plain: HotCache<S>,
    prediction: Option<LlmCallPrediction<S>>,
    llm_name: Seq<char>,
    context: RequestContext,
    annotated: Option<AnnotatedLlmRequest>,
)
    requires
        plain == (HotCache { priority_residual: None, ..cache }),
        context.manual_ls is None,
    ensures
        ({
            let with = request_plan(Some(cache), prediction, llm_name, context, annotated).hints;
            let without = request_plan(Some(plain), prediction, llm_name, context, annotated).hints;
            &&& with is Some <==> without is Some
            &&& with matches Some(a) ==> {
                let b = without->0;
                &&& -1 <= a.priority - b.priority <= 1
                &&& a == (HintsView { priority: a.priority, ..b })
            }
        }),
{
}

/// When a call was observed: at its end, or at the given instant when it has none.
pub open spec fn observed_at<S: Scalar>(call: CallRecord<S>, at: Timestamp) -> Timestamp {
    match call.ended_at {
        Some(ended_at) => ended_at,
        None => at,
    }
}

/// Calls that report no usable queue wait for a model leave its pressure as it was.
pub proof fn law_other_models_keep_their_pressure<S: Scalar>(
    state: ResidualView<S>,
    calls: Seq<CallRecord<S>>,
    samples: Seq<DagCpmCallSample<S>>,
    at: Timestamp,
    model: Seq<char>,
)
    requires
        forall|j: int| 0 <= j < calls.len() ==> !waited_for(#[trigger] calls[j], model),
    ensures
        ({
            let after = calls_absorbed(state, calls, samples, at);
            &&& after.pressure.contains_key(model) <==> state.pressure.contains_key(model)
            &&& after.pressure.contains_key(model) ==> after.pressure[model]
                == state.pressure[model]
        }),
    decreases calls.len(),
{
    if calls.len() > 0 {
        let front = calls.drop_last();
        assert forall|j: int| 0 <= j < front.len() implies !waited_for(
            #[trigger] front[j],
            model,
        ) by {
            assert(front[j] == calls[j]);
        }
        law_other_models_keep_their_pressure(state, front, samples, at, model);
        assert(!waited_for(calls[calls.len() - 1], model));
    }
}

/// Of the calls of a run, the last LLM call to a model with a usable queue wait sets the pressure of
/// the model, whatever the calls are named and whatever calls to other models waited.
pub proof fn law_latest_wait_is_the_pressure<S: Scalar>(
    state: ResidualView<S>,
    calls: Seq<CallRecord<S>>,
    samples: Seq<DagCpmCallSample<S>>,
    at: Timestamp,
    i: int,
    model: Seq<char>,
)
    requires
        0 <= i < calls.len(),
        waited_for(calls[i], model),
        forall|j: int| i < j < calls.len() ==> !waited_for(#[trigger] calls[j], model),
    ensures
        ({
            let after = calls_absorbed(state, calls, samples, at);
            &&& after.pressure.contains_key(model)
            &&& Some(after.pressure[model].prefill_wait_time_ms)
                == calls[i].backend_timing->0.prefill_wait_time_ms
            &&& after.pressure[model].last_updated_at == Some(observed_at(calls[i], at))
        }),
    decreases calls.len(),
{
    if i < calls.len() - 1 {
        let front = calls.drop_last();
        assert(front[i] == calls[i]);
        assert forall|j: int| i < j < front.len() implies !waited_for(
            #[trigger] front[j],
            model,
        ) by {
            assert(front[j] == calls[j]);
        }
        law_latest_wait_is_the_pressure(state, front, samples, at, i, model);
        assert(!waited_for(calls[calls.len() - 1], model));
    }
}

proof fn lemma_pressures_counted<S: Scalar>(
    state: ResidualView<S>,
    calls: Seq<CallRecord<S>>,
    samples: Seq<DagCpmCallSample<S>>,
    at: Timestamp,
)
    requires
        state.pressure.dom().finite(),
    ensures
        calls_absorbed(state, calls, samples, at).pressure.dom().finite(),
        calls_absorbed(state, calls, samples, at).pressure.dom().len()
            <= state.pressure.dom().len() + calls.len(),
    decreases calls.len(),
{
    if calls.len() > 0 {
        lemma_pressures_counted(state, calls.drop_last(), samples, at);
    }
}

/// After a run was learned from, a decision for a model is made from the latest usable queue wait of
/// an LLM call whose request names that model, whatever the call is named and whatever calls to other
/// models waited: its context is that of the criticality, of that wait and of the model. The prior is
/// kept in a context that nothing is known of.
pub proof fn law_decisions_read_the_latest_wait(
    agent: Seq<char>,
    loaded: Option<PriorityResidualState<Fixed>>,
    run: RunRecord<Fixed>,
    at: Timestamp,
    state: PriorityResidualState<Fixed>,
    i: int,
    model: String,
    wait: Fixed,
    criticality: Fixed,
)
    requires
        residual_processed(agent, loaded, run, at, Some(state)),
        0 <= i < run.calls@.len(),
        run.calls@[i].kind == CallKind::Llm,
        run.calls@[i].annotated_request matches Some(request) && request.model == Some(model),
        run.calls@[i].backend_timing matches Some(timing) && timing.prefill_wait_time_ms == Some(
            wait,
        ),
        0 <= wait.millionths < i64::MAX,
        forall|j: int|
            i < j < run.calls@.len() ==> !waited_for(
                #[trigger] run.calls@[j],
                bucket_of(model@),
            ),
        0 <= criticality.millionths < i64::MAX,
        days_earlier(at@, 14) <= observed_at(
            run.calls@[i],
            at,
        )@,
        loaded matches Some(l) ==> l.pressure_by_model@.dom().finite()
            && l.pressure_by_model@.dom().len() + run.calls@.len() <= 64,
        loaded is None ==> run.calls@.len() <= 64,
    ensures
        ({
            let crit = if criticality.millionths >= 750_000 {
                "high"@
            } else if criticality.millionths >= 330_000 {
                "medium"@
            } else {
                "low"@
            };
            let pressure = if wait.millionths >= 1000 * WHOLE {
                "high"@
            } else if wait.millionths >= 250 * WHOLE {
                "moderate"@
            } else {
                "low"@
            };
            let key = "crit:"@ + crit + "|pressure:"@ + pressure + "|model:"@ + bucket_of(model@);
            match decided(state@, criticality, model@) {
                Some((context, action)) => context == key && (!state.contexts@.contains_key(key)
                    ==> action == PriorityResidualAction::Noop),
                None => false,
            }
        }),
{
    let (before, samples, absorbed, after) = choose|
        before: PriorityResidualState<Fixed>,
        samples: Seq<DagCpmCallSample<Fixed>>,
        absorbed: PriorityResidualState<Fixed>,
        after: PriorityResidualState<Fixed>,
    |
        #![trigger residual_starts_from(agent, loaded, before), run_samples(run, samples), residual_tidied(absorbed, after, at)]
        residual_starts_from(agent, loaded, before) && run_samples(run, samples) && absorbed@
            == calls_absorbed(before@, run.calls@, samples, at) && absorbed.agent_id
            == before.agent_id && residual_tidied(absorbed, after, at) && state == after;
    let bucket = bucket_of(model@);
    assert(waited_for(run.calls@[i], bucket));
    law_latest_wait_is_the_pressure(before@, run.calls@, samples, at, i, bucket);
    lemma_pressures_counted(before@, run.calls@, samples, at);
    let cutoff = choose|cutoff: Timestamp|
        cutoff@ == days_earlier(at@, 14) && #[trigger]
            pruned_within(
                absorbed.contexts@,
                after.contexts@,
                cutoff,
                128nat,
            ) && pruned_within(
            absorbed.pressure_by_model@,
            after.pressure_by_model@,
            cutoff,
            64nat,
        );
    let pressures = absorbed.pressure_by_model@;
    law_cutoff_drops_what_is_older(pressures, cutoff, bucket);
    let left = survivors(pressures, cutoff);
    vstd::set_lib::lemma_len_subset(left.dom(), pressures.dom());
    law_nothing_goes_without_need(
        left,
        after.pressure_by_model@,
        64nat,
    );
    assert(state.pressure_by_model@[bucket].prefill_wait_time_ms == wait);
}

/// Whether an LLM call was completed under a model with a request of some signature, and its output
/// was counted and not cut short. The model is the one that the request names, or the recorded one
/// where the request names none.
pub open spec fn completed_like<S: Scalar>(
    call: CallRecord<S>,
    model: Seq<char>,
    signature: OslRequestSignature,
) -> bool {
    &&& call.kind == CallKind::Llm
    &&& call.finish_reason != Some(FinishReason::Length)
    &&& call.output_tokens is Some
    &&& call.annotated_request is Some
    &&& signature_of(*call.annotated_request->0) == signature
    &&& match call.annotated_request->0.model {
        Some(named) => named@ == model,
        None => call.model_name is Some && call.model_name->0@ == model,
    }
}

/// The output lengths of the calls completed under a model with requests of a signature, in order.
pub open spec fn lengths_like<S: Scalar>(
    calls: Seq<CallRecord<S>>,
    model: Seq<char>,
    signature: OslRequestSignature,
) -> Seq<u32> {
    calls.filter(|call: CallRecord<S>| completed_like(call, model, signature)).map_values(
        |call: CallRecord<S>| call.output_tokens->0,
    )
}

/// The output lengths that contexts hold for a scope, a model and a signature.
pub open spec fn held_lengths(
    contexts: Map<Seq<char>, OslContextStats>,
    scope: ScopeView,
    model: Seq<char>,
    signature: OslRequestSignature,
) -> Seq<u32> {
    let key = key_of(scope, model, signature);
    if contexts.contains_key(key) {
        contexts[key].samples@
    } else {
        Seq::empty()
    }
}

proof fn lemma_lengths_step<S: Scalar>(
    calls: Seq<CallRecord<S>>,
    n: int,
    model: Seq<char>,
    signature: OslRequestSignature,
)
    requires
        0 <= n < calls.len(),
    ensures
        lengths_like(calls.take(n + 1), model, signature) == if completed_like(
            calls[n],
            model,
            signature,
        ) {
            lengths_like(calls.take(n), model, signature).push(calls[n].output_tokens->0)
        } else {
            lengths_like(calls.take(n), model, signature)
        },
{
    reveal(Seq::filter);
    let front = calls.take(n + 1);
    assert(front.drop_last() =~= calls.take(n));
    assert(front.last() == calls[n]);
    assert(lengths_like(front, model, signature) =~= if completed_like(
        calls[n],
        model,
        signature,
    ) {
        lengths_like(calls.take(n), model, signature).push(calls[n].output_tokens->0)
    } else {
        lengths_like(calls.take(n), model, signature)
    });
}

/// With room for one more context, an observed sample goes to its context and leaves the others.
proof fn lemma_context_observed(
    before: Map<Seq<char>, OslContextStats>,
    key: Seq<char>,
    output_tokens: u32,
    at: Timestamp,
    after: Map<Seq<char>, OslContextStats>,
    max: nat,
)
    requires
        bounded_from(recorded(views(before), key, output_tokens, at), after, max),
        before.dom().finite(),
        before.dom().len() < max,
    ensures
        after.dom().finite(),
        after.dom().len() <= before.dom().len() + 1,
        after.contains_key(key),
        last_of_all(
            (if before.contains_key(key) {
                before[key].samples@
            } else {
                Seq::<u32>::empty()
            }).push(output_tokens),
            after[key].samples@,
            128,
        ),
        forall|other: Seq<char>|
            other != key ==> (#[trigger] after.contains_key(other) <==> before.contains_key(other)),
        forall|other: Seq<char>|
            other != key && #[trigger] after.contains_key(other) ==> after[other].samples@
                == before[other].samples@,
{
    let grown = recorded(views(before), key, output_tokens, at);
    let all = choose|all: Map<Seq<char>, OslContextStats>|
        #![trigger kept_freshest(all, after, max)]
        views(all) == grown && kept_freshest(all, after, max);
    assert(views(before).dom() =~= before.dom());
    assert(all.dom() =~= views(all).dom());
    assert(grown.dom() =~= before.dom().insert(key));
    law_nothing_goes_without_need(all, after, max);
    assert(views(after) == grown);
    assert(views(after)[key] == after[key]@);
    if before.contains_key(key) {
        assert(views(before)[key] == before[key]@);
    }
    assert forall|other: Seq<char>| other != key implies (#[trigger] after.contains_key(other)
        <==> before.contains_key(other)) by {
        assert(views(after).contains_key(other) <==> grown.contains_key(other));
        assert(views(before).contains_key(other) <==> before.contains_key(other));
    }
    assert forall|other: Seq<char>|
        other != key && #[trigger] after.contains_key(other) implies after[other].samples@
        == before[other].samples@ by {
        assert(views(after).contains_key(other));
        assert(views(after)[other] == after[other]@);
        assert(views(before)[other] == before[other]@);
    }
}

/// More of what was added, kept to the last ones, is kept to the last ones of all.
proof fn lemma_last_of_more<T>(all: Seq<T>, kept: Seq<T>, x: T, more: Seq<T>, n: int)
    requires
        n >= 1,
        last_of_all(all, kept, n),
        last_of_all(kept.push(x), more, n),
    ensures
        last_of_all(all.push(x), more, n),
{
    assert forall|i: int| 0 <= i < more.len() implies #[trigger] more[i] == all.push(x)[all.push(
        x,
    ).len() - more.len() + i] by {
        let at = kept.push(x).len() - more.len() + i;
        assert(more[i] == kept.push(x)[at]);
        if at < kept.len() {
            assert(kept[at] == all[all.len() - kept.len() + at]);
        }
    }
}

/// Whether contexts hold, of a workflow and of everyone, the last of some output lengths.
spec fn both_hold(
    before: Map<Seq<char>, OslContextStats>,
    after: Map<Seq<char>, OslContextStats>,
    agent: Seq<char>,
    model: Seq<char>,
    signature: OslRequestSignature,
    lengths: Seq<u32>,
) -> bool {
    let n = 128;
    &&& last_of_all(
        held_lengths(before, ScopeView::Workflow(agent), model, signature) + lengths,
        held_lengths(after, ScopeView::Workflow(agent), model, signature),
        n,
    )
    &&& last_of_all(
        held_lengths(before, ScopeView::Global, model, signature) + lengths,
        held_lengths(after, ScopeView::Global, model, signature),
        n,
    )
}

#[verifier::spinoff_prover]
#[verifier::rlimit(40)]
proof fn lemma_call_learned<S: Scalar>(
    first: Map<Seq<char>, OslContextStats>,
    before: Map<Seq<char>, OslContextStats>,
    agent: Seq<char>,
    call: CallRecord<S>,
    run_ended_at: Option<Timestamp>,
    now: Timestamp,
    after: Map<Seq<char>, OslContextStats>,
    model: Seq<char>,
    signature: OslRequestSignature,
    lengths: Seq<u32>,
)
    requires
        call_learned(before, agent, call, run_ended_at, now, after),
        before.dom().finite(),
        before.dom().len() + 2 <= 512,
        both_hold(first, before, agent, model, signature, lengths),
    ensures
        after.dom().finite(),
        after.dom().len() <= before.dom().len() + 2,
        both_hold(
            first,
            after,
            agent,
            model,
            signature,
            if completed_like(call, model, signature) {
                lengths.push(call.output_tokens->0)
            } else {
                lengths
            },
        ),
{
    let (own, all) = (ScopeView::Workflow(agent), ScopeView::Global);
    let n = 128;
    if let Some(sample) = call_sample(call, run_ended_at, now) {
        let own_key = key_of(own, sample.model, sample.signature);
        let all_key = key_of(all, sample.model, sample.signature);
        let between = choose|between: Map<Seq<char>, OslContextStats>| #[trigger]
            context_observed(before, own_key, sample.output_tokens, sample.at, between)
                && context_observed(between, all_key, sample.output_tokens, sample.at, after);
        let max = 512nat;
        lemma_context_observed(before, own_key, sample.output_tokens, sample.at, between, max);
        lemma_context_observed(between, all_key, sample.output_tokens, sample.at, after, max);
        let (own_asked, all_asked) = (
            key_of(own, model, signature),
            key_of(all, model, signature),
        );
        if own_asked == all_key {
            law_storage_keys_apart(own, model, signature, all, sample.model, sample.signature);
        }
        if all_asked == own_key {
            law_storage_keys_apart(all, model, signature, own, sample.model, sample.signature);
        }
        if own_asked == own_key {
            law_storage_keys_apart(own, model, signature, own, sample.model, sample.signature);
        }
        if all_asked == all_key {
            law_storage_keys_apart(all, model, signature, all, sample.model, sample.signature);
        }
        if completed_like(call, model, signature) {
            assert(sample.model == model && sample.signature == signature);
            let x = sample.output_tokens;
            let (p, q) = (
                held_lengths(first, own, model, signature) + lengths,
                held_lengths(first, all, model, signature) + lengths,
            );
            assert(held_lengths(first, own, model, signature) + lengths.push(x) =~= p.push(x));
            assert(held_lengths(first, all, model, signature) + lengths.push(x) =~= q.push(x));
            assert(between.contains_key(own_key));
            assert(held_lengths(after, own, model, signature) == between[own_key].samples@);
            assert(held_lengths(between, all, model, signature) == held_lengths(
                before,
                all,
                model,
                signature,
            ));
            lemma_last_of_more(
                p,
                held_lengths(before, own, model, signature),
                x,
                held_lengths(after, own, model, signature),
                n,
            );
            lemma_last_of_more(
                q,
                held_lengths(before, all, model, signature),
                x,
                held_lengths(after, all, model, signature),
                n,
            );
        } else {
            assert(own_asked != own_key && all_asked != all_key);
            assert(after.contains_key(own_asked) <==> between.contains_key(own_asked));
            assert(after.contains_key(all_asked) <==> between.contains_key(all_asked));
        }
    }
}

/// The output lengths of completed calls are remembered under the model that their requests name,
/// whatever the responses call it, and under the signature of their requests: for the workflow and
/// for everyone, the latest last. Other calls add nothing to them.
pub proof fn law_lengths_are_kept_by_requested_model<S: Scalar>(
    agent: Seq<char>,
    loaded: Option<OslEmpiricalState>,
    before: OslEmpiricalState,
    run: RunRecord<S>,
    now: Timestamp,
    state: OslEmpiricalState,
    model: Seq<char>,
    signature: OslRequestSignature,
)
    requires
        osl_processed(agent, loaded, run, now, Some(state)),
        loaded == Some(before) || (loaded is None && before.fresh()),
        before.contexts@.dom().finite(),
        before.contexts@.dom().len() + 2 * run.calls@.len() <= 512,
        held_lengths(before.contexts@, ScopeView::Workflow(agent), model, signature).len()
            <= 128,
        held_lengths(before.contexts@, ScopeView::Global, model, signature).len()
            <= 128,
    ensures
        state.agent_id@ == agent,
        state.run_contexts@ == before.run_contexts@,
        last_of_all(
            held_lengths(before.contexts@, ScopeView::Workflow(agent), model, signature)
                + lengths_like(run.calls@, model, signature),
            held_lengths(state.contexts@, ScopeView::Workflow(agent), model, signature),
            128,
        ),
        last_of_all(
            held_lengths(before.contexts@, ScopeView::Global, model, signature) + lengths_like(
                run.calls@,
                model,
                signature,
            ),
            held_lengths(state.contexts@, ScopeView::Global, model, signature),
            128,
        ),
{
    let (start, steps) = choose|
        start: OslEmpiricalState,
        steps: Seq<Map<Seq<char>, OslContextStats>>,
    |
        #![trigger osl_starts_from(agent, loaded, start), calls_learned(
            steps,
            agent,
            run.calls@,
            run.ended_at,
            now,
        )]
        {
            &&& osl_starts_from(agent, loaded, start)
            &&& calls_learned(steps, agent, run.calls@, run.ended_at, now)
            &&& steps[0] == start.contexts@
            &&& state.contexts@ == steps.last()
            &&& state == (OslEmpiricalState { contexts: state.contexts, ..start })
        };
    lemma_steps_learned(
        steps,
        agent,
        run.calls@,
        run.ended_at,
        now,
        model,
        signature,
        run.calls@.len() as int,
    );
    assert(run.calls@.take(run.calls@.len() as int) =~= run.calls@);
}

proof fn lemma_steps_learned<S: Scalar>(
    steps: Seq<Map<Seq<char>, OslContextStats>>,
    agent: Seq<char>,
    calls: Seq<CallRecord<S>>,
    run_ended_at: Option<Timestamp>,
    now: Timestamp,
    model: Seq<char>,
    signature: OslRequestSignature,
    n: int,
)
    requires
        calls_learned(steps, agent, calls, run_ended_at, now),
        0 <= n <= calls.len(),
        steps[0].dom().finite(),
        steps[0].dom().len() + 2 * calls.len() <= 512,
        held_lengths(steps[0], ScopeView::Workflow(agent), model, signature).len()
            <= 128,
        held_lengths(steps[0], ScopeView::Global, model, signature).len()
            <= 128,
    ensures
        steps[n].dom().finite(),
        steps[n].dom().len() <= steps[0].dom().len() + 2 * n,
        both_hold(
            steps[0],
            steps[n],
            agent,
            model,
            signature,
            lengths_like(calls.take(n), model, signature),
        ),
    decreases n,
{
    if n == 0 {
        reveal(Seq::filter);
        assert(lengths_like(calls.take(0), model, signature) =~= Seq::<u32>::empty());
        let own = held_lengths(steps[0], ScopeView::Workflow(agent), model, signature);
        let all = held_lengths(steps[0], ScopeView::Global, model, signature);
        assert(own + Seq::<u32>::empty() =~= own);
        assert(all + Seq::<u32>::empty() =~= all);
    } else {
        lemma_steps_learned(
            steps,
            agent,
            calls,
            run_ended_at,
            now,
            model,
            signature,
            n - 1,
        );
        lemma_lengths_step(calls, n - 1, model, signature);
        assert(call_learned(steps[n - 1], agent, calls[n - 1], run_ended_at, now, steps[n]));
        lemma_call_learned(
            steps[0],
            steps[n - 1],
            agent,
            calls[n - 1],
            run_ended_at,
            now,
            steps[n],
            model,
            signature,
            lengths_like(calls.take(n - 1), model, signature),
        );
    }
}

/// Whether all of some output lengths are much alike: none exceeds a few times any other.
pub open spec fn alike(lengths: Seq<u32>, low: u32, high: u32) -> bool {
    &&& forall|i: int| 0 <= i < lengths.len() ==> low <= #[trigger] lengths[i] <= high
    &&& high <= 4 * low || high <= 4
}

proof fn lemma_alike_is_confident(lengths: Seq<u32>, low: u32, high: u32, min: int)
    requires
        alike(lengths, low, high),
        lengths.len() > 0,
        lengths.len() >= min,
    ensures
        confident(lengths, min),
        predicted_from(lengths, min) matches Some(p) && low <= p <= high && splits_at(
            lengths,
            85,
            p,
        ),
{
    law_quantile_splits_the_samples(lengths, 85);
    law_quantile_splits_the_samples(lengths, 50);
    law_quantile_splits_the_samples(lengths, 90);
    let p50 = quantile(lengths, 50);
    let p85 = quantile(lengths, 85);
    let p90 = quantile(lengths, 90);
    let a = choose|i: int| 0 <= i < lengths.len() && lengths[i] == p50;
    let b = choose|i: int| 0 <= i < lengths.len() && lengths[i] == p90;
    let c = choose|i: int| 0 <= i < lengths.len() && lengths[i] == p85;
    assert(low <= lengths[a] <= high && low <= lengths[b] <= high && low <= lengths[c] <= high);
}

/// Enough like output lengths predict the next one: where a workflow holds enough of them for a model
/// and a signature, and a run none of its own, a lookup for the same model and signature gives one of
/// those lengths, which the given share of them does not exceed.
pub proof fn law_like_lengths_predict(
    state: OslEmpiricalState,
    root: Option<u128>,
    agent: Seq<char>,
    model: Seq<char>,
    signature: OslRequestSignature,
    low: u32,
    high: u32,
)
    requires
        root matches Some(uuid) ==> !state.run_contexts@.contains_key(
            key_of(ScopeView::Run(uuid), model, signature),
        ),
        held_lengths(state.contexts@, ScopeView::Workflow(agent), model, signature).len()
            >= 10,
        alike(
            held_lengths(state.contexts@, ScopeView::Workflow(agent), model, signature),
            low,
            high,
        ),
    ensures
        ({
            let held = held_lengths(state.contexts@, ScopeView::Workflow(agent), model, signature);
            let outcome = state.predicted(root, agent, model, signature);
            &&& outcome.source == "workflow"@
            &&& outcome.confidence_passed
            &&& outcome.sample_count == Some(held.len())
            &&& outcome.emitted_osl matches Some(osl) && low <= osl <= high && splits_at(
                held,
                85,
                osl,
            )
        }),
{
    let key = key_of(ScopeView::Workflow(agent), model, signature);
    let held = held_lengths(state.contexts@, ScopeView::Workflow(agent), model, signature);
    lemma_alike_is_confident(held, low, high, 10);
    assert(state.contexts@.contains_key(key));
    assert(views(state.contexts@).contains_key(key));
    assert(views(state.contexts@)[key] == state.contexts@[key]@);
    if let Some(uuid) = root {
        assert(!views(state.run_contexts@).contains_key(
            key_of(ScopeView::Run(uuid), model, signature),
        ));
    }
}

/// Enough like lengths of one run, learned from calls whose requests name a model, give a prediction
/// for a like request that names the same model, whatever the responses call it.
pub proof fn law_learned_lengths_predict<S: Scalar>(
    agent: Seq<char>,
    loaded: Option<OslEmpiricalState>,
    before: OslEmpiricalState,
    run: RunRecord<S>,
    now: Timestamp,
    state: OslEmpiricalState,
    model: Seq<char>,
    signature: OslRequestSignature,
    low: u32,
    high: u32,
)
    requires
        osl_processed(agent, loaded, run, now, Some(state)),
        loaded == Some(before) || (loaded is None && before.fresh()),
        before.fresh(),
        2 * run.calls@.len() <= 512,
        10 <= lengths_like(run.calls@, model, signature).len()
            <= 128,
        alike(lengths_like(run.calls@, model, signature), low, high),
    ensures
        state.predicted(None, agent, model, signature).source == "workflow"@,
        state.predicted(None, agent, model, signature).confidence_passed,
        state.predicted(None, agent, model, signature).sample_count == Some(
            lengths_like(run.calls@, model, signature).len(),
        ),
        state.predicted(None, agent, model, signature).emitted_osl matches Some(osl) && low <= osl
            <= high && splits_at(
            lengths_like(run.calls@, model, signature),
            85,
            osl,
        ),
{
    let lengths = lengths_like(run.calls@, model, signature);
    assert(before.contexts@.dom() =~= Set::<Seq<char>>::empty());
    law_lengths_are_kept_by_requested_model(
        agent,
        loaded,
        before,
        run,
        now,
        state,
        model,
        signature,
    );
    let held = held_lengths(state.contexts@, ScopeView::Workflow(agent), model, signature);
    assert(Seq::<u32>::empty() + lengths =~= lengths);
    assert(held =~= lengths);
    law_like_lengths_predict(state, None, agent, model, signature, low, high);
}

/// The length that is predicted for a request's model and signature is the length that the request is
/// given, held to the limit that the request sets itself.
pub proof fn law_predicted_length_is_served<S: Scalar>(
    cache: HotCache<S>,
    prediction: Option<LlmCallPrediction<S>>,
    llm_name: Seq<char>,
    context: RequestContext,
    request: AnnotatedLlmRequest,
    state: OslEmpiricalState,
    model: String,
    osl: u32,
)
    requires
        cache.osl_empirical == Some(state),
        request.model == Some(model),
        state.predicted(
            context.root_uuid,
            context.effective_agent_id@,
            model@,
            signature_of(request),
        ).emitted_osl == Some(osl),
    ensures
        ({
            let plan = request_plan(Some(cache), prediction, llm_name, context, Some(request));
            let limit = match request.params {
                Some(params) if params.max_tokens is Some => params.max_tokens,
                _ => request.max_output_tokens,
            };
            &&& plan.hints is Some
            &&& limit is None ==> plan.hints->0.osl == osl
            &&& limit matches Some(most) ==> plan.hints->0.osl == if most < osl {
                most as int
            } else {
                osl as int
            }
            &&& plan.feedback matches Some(f) && f.emitted_osl == Some(plan.hints->0.osl)
        }),
{
}

/// Requests have the same signature exactly when they end with the same kind of message and agree on
/// whether the conversation has an assistant's message, whether it has a tool result, and whether
/// tools are offered.
pub proof fn law_signatures_tell_requests_apart(a: AnnotatedLlmRequest, b: AnnotatedLlmRequest)
    ensures
        signature_of(a) == signature_of(b) <==> {
            &&& a.messages@.len() == 0 <==> b.messages@.len() == 0
            &&& a.messages@.len() > 0 ==> {
                let (x, y) = (a.messages@.last(), b.messages@.last());
                &&& x is System <==> y is System
                &&& x is User <==> y is User
                &&& x is Assistant <==> y is Assistant
                &&& x is Tool <==> y is Tool
            }
            &&& (exists|i: int| 0 <= i < a.messages@.len() && (#[trigger] a.messages@[i]) is Assistant)
                <==> (exists|i: int|
                0 <= i < b.messages@.len() && (#[trigger] b.messages@[i]) is Assistant)
            &&& (exists|i: int| 0 <= i < a.messages@.len() && (#[trigger] a.messages@[i]) is Tool)
                <==> (exists|i: int|
                0 <= i < b.messages@.len() && (#[trigger] b.messages@[i]) is Tool)
            &&& (a.tools is Some && a.tools->0@.len() > 0) <==> (b.tools is Some && b.tools->0@.len()
                > 0)
        },
{
    lemma_roles(a.messages@);
    lemma_roles(b.messages@);
}

proof fn lemma_roles(messages: Seq<Message>)
    ensures
        any_with_role(messages, OslMessageRole::Assistant) <==> exists|i: int|
            0 <= i < messages.len() && (#[trigger] messages[i]) is Assistant,
        any_with_role(messages, OslMessageRole::Tool) <==> exists|i: int|
            0 <= i < messages.len() && (#[trigger] messages[i]) is Tool,
{
    assert forall|i: int| 0 <= i < messages.len() implies (role_of(#[trigger] messages[i])
        == OslMessageRole::Assistant <==> messages[i] is Assistant) && (role_of(messages[i])
        == OslMessageRole::Tool <==> messages[i] is Tool) by {}
}

/// Enough like output lengths of a run itself predict its next one, before those of its workflow and
/// of everyone: a run trusts fewer samples than they need.
pub proof fn law_lengths_of_the_run_come_first(
    state: OslEmpiricalState,
    root: u128,
    agent: Seq<char>,
    model: Seq<char>,
    signature: OslRequestSignature,
    low: u32,
    high: u32,
)
    requires
        held_lengths(state.run_contexts@, ScopeView::Run(root), model, signature).len() >= 3,
        alike(held_lengths(state.run_contexts@, ScopeView::Run(root), model, signature), low, high),
    ensures
        ({
            let held = held_lengths(state.run_contexts@, ScopeView::Run(root), model, signature);
            let outcome = state.predicted(Some(root), agent, model, signature);
            &&& outcome.source == "run_local"@
            &&& outcome.confidence_passed
            &&& outcome.sample_count == Some(held.len())
            &&& outcome.emitted_osl matches Some(osl) && low <= osl <= high && splits_at(
                held,
                85,
                osl,
            )
        }),
{
    let key = key_of(ScopeView::Run(root), model, signature);
    let held = held_lengths(state.run_contexts@, ScopeView::Run(root), model, signature);
    lemma_alike_is_confident(held, low, high, 3);
    assert(views(state.run_contexts@).contains_key(key));
    assert(views(state.run_contexts@)[key] == state.run_contexts@[key]@);
}

/// Where neither a run nor a workflow holds anything, enough like lengths of everyone predict.
pub proof fn law_lengths_of_everyone_come_last(
    state: OslEmpiricalState,
    root: Option<u128>,
    agent: Seq<char>,
    model: Seq<char>,
    signature: OslRequestSignature,
    low: u32,
    high: u32,
)
    requires
        root matches Some(uuid) ==> !state.run_contexts@.contains_key(
            key_of(ScopeView::Run(uuid), model, signature),
        ),
        !state.contexts@.contains_key(key_of(ScopeView::Workflow(agent), model, signature)),
        held_lengths(state.contexts@, ScopeView::Global, model, signature).len() >= 10,
        alike(held_lengths(state.contexts@, ScopeView::Global, model, signature), low, high),
    ensures
        ({
            let held = held_lengths(state.contexts@, ScopeView::Global, model, signature);
            let outcome = state.predicted(root, agent, model, signature);
            &&& outcome.source == "global"@
            &&& outcome.confidence_passed
            &&& outcome.sample_count == Some(held.len())
            &&& outcome.emitted_osl matches Some(osl) && low <= osl <= high && splits_at(
                held,
                85,
                osl,
            )
        }),
{
    let key = key_of(ScopeView::Global, model, signature);
    let held = held_lengths(state.contexts@, ScopeView::Global, model, signature);
    lemma_alike_is_confident(held, low, high, 10);
    assert(views(state.contexts@).contains_key(key));
    assert(views(state.contexts@)[key] == state.contexts@[key]@);
    assert(!views(state.contexts@).contains_key(
        key_of(ScopeView::Workflow(agent), model, signature),
    ));
    if let Some(uuid) = root {
        assert(!views(state.run_contexts@).contains_key(
            key_of(ScopeView::Run(uuid), model, signature),
        ));
    }
}

/// Too few lengths predict nothing: a run needs three, a workflow and everyone ten.
pub proof fn law_few_lengths_predict_nothing(
    state: OslEmpiricalState,
    root: Option<u128>,
    agent: Seq<char>,
    model: Seq<char>,
    signature: OslRequestSignature,
)
    requires
        root matches Some(uuid) ==> held_lengths(
            state.run_contexts@,
            ScopeView::Run(uuid),
            model,
            signature,
        ).len() < 3,
        held_lengths(state.contexts@, ScopeView::Workflow(agent), model, signature).len() < 10,
        held_lengths(state.contexts@, ScopeView::Global, model, signature).len() < 10,
    ensures
        state.predicted(root, agent, model, signature).emitted_osl is None,
        !state.predicted(root, agent, model, signature).confidence_passed,
{
    let own = key_of(ScopeView::Workflow(agent), model, signature);
    let all = key_of(ScopeView::Global, model, signature);
    assert(views(state.contexts@).contains_key(own) ==> views(state.contexts@)[own].samples
        == held_lengths(state.contexts@, ScopeView::Workflow(agent), model, signature));
    assert(views(state.contexts@).contains_key(all) ==> views(state.contexts@)[all].samples
        == held_lengths(state.contexts@, ScopeView::Global, model, signature));
    if let Some(uuid) = root {
        let run = key_of(ScopeView::Run(uuid), model, signature);
        assert(views(state.run_contexts@).contains_key(run) ==> views(
            state.run_contexts@,
        )[run].samples == held_lengths(
            state.run_contexts@,
            ScopeView::Run(uuid),
            model,
            signature,
        ));
    }
}

/// Lengths are trusted exactly when there are enough of them and their ninetieth percentile is no more
/// than four times their median, where a median of zero counts as one.
pub proof fn law_stable_lengths_are_trusted(lengths: Seq<u32>, min: int)
    requires
        lengths.len() > 0,
    ensures
        exists|median: u32, high: u32|
            splits_at(lengths, 50, median) && splits_at(lengths, 90, high) && #[trigger]
                trusts(lengths, min, median, high),
{
    law_quantile_splits_the_samples(lengths, 50);
    law_quantile_splits_the_samples(lengths, 90);
    assert(trusts(lengths, min, quantile(lengths, 50), quantile(lengths, 90)));
}

/// Whether lengths with a median and a ninetieth percentile are trusted exactly when they are enough
/// and the second is no more than four times the first.
pub open spec fn trusts(lengths: Seq<u32>, min: int, median: u32, high: u32) -> bool {
    confident(lengths, min) <==> lengths.len() >= min && (high <= 4 * median || high <= 4)
}

/// A completed call adds its output length to the lengths of its own run, under the model that its
/// request names and the signature of its request, and to no others.
#[verifier::spinoff_prover]
#[verifier::rlimit(40)]
pub proof fn law_runs_keep_their_own_lengths<S: Scalar>(
    before: OslEmpiricalState,
    root: u128,
    call: CallRecord<S>,
    now: Timestamp,
    after: OslEmpiricalState,
    sampled: bool,
    model: Seq<char>,
    signature: OslRequestSignature,
    scope: ScopeView,
    other_model: Seq<char>,
    other_signature: OslRequestSignature,
)
    requires
        run_call_observed(before, root, call, now, after, sampled),
        before.run_contexts@.dom().finite(),
        before.run_contexts@.dom().len() < 256,
        completed_like(call, model, signature),
        (scope, other_model, other_signature) != (ScopeView::Run(root), model, signature),
    ensures
        sampled,
        after.contexts == before.contexts,
        last_of_all(
            held_lengths(before.run_contexts@, ScopeView::Run(root), model, signature).push(
                call.output_tokens->0,
            ),
            held_lengths(after.run_contexts@, ScopeView::Run(root), model, signature),
            128,
        ),
        held_lengths(after.run_contexts@, scope, other_model, other_signature) == held_lengths(
            before.run_contexts@,
            scope,
            other_model,
            other_signature,
        ),
{
    let key = key_of(ScopeView::Run(root), model, signature);
    let other = key_of(scope, other_model, other_signature);
    let sample = call_sample(call, None, now)->0;
    lemma_context_observed(
        before.run_contexts@,
        key,
        sample.output_tokens,
        sample.at,
        after.run_contexts@,
        256,
    );
    if other == key {
        law_storage_keys_apart(
            ScopeView::Run(root),
            model,
            signature,
            scope,
            other_model,
            other_signature,
        );
    }
    assert(after.run_contexts@.contains_key(other) <==> before.run_contexts@.contains_key(other));
}

/// Only a completed LLM call with a counted output that was not cut short, whose request is known and
/// whose model is named by the request or the record, tells an output length. The length counts from
/// when the call ended, or else when its run did, or else from now.
pub proof fn law_only_completed_calls_tell_lengths<S: Scalar>(
    call: CallRecord<S>,
    run_ended_at: Option<Timestamp>,
    now: Timestamp,
)
    ensures
        call_sample(call, run_ended_at, now) is Some <==> {
            &&& call.kind == CallKind::Llm
            &&& call.finish_reason != Some(FinishReason::Length)
            &&& call.output_tokens is Some
            &&& call.annotated_request is Some
            &&& call.annotated_request->0.model is Some || call.model_name is Some
        },
        call_sample(call, run_ended_at, now) matches Some(sample) ==> {
            &&& completed_like(call, sample.model, sample.signature)
            &&& call.output_tokens == Some(sample.output_tokens)
            &&& call.ended_at is Some ==> Some(sample.at) == call.ended_at
            &&& call.ended_at is None && run_ended_at is Some ==> Some(sample.at) == run_ended_at
            &&& call.ended_at is None && run_ended_at is None ==> sample.at == now
        },
{
}

/// A prediction is held to the limit that a request sets among its parameters, or else to the one that
/// it sets itself.
pub proof fn law_request_limit_caps(predicted: u32, request: AnnotatedLlmRequest)
    ensures
        ({
            let limit = if request.params is Some && request.params->0.max_tokens is Some {
                request.params->0.max_tokens
            } else {
                request.max_output_tokens
            };
            let capped = capped_to_request(predicted, request);
            &&& limit is None ==> capped == predicted
            &&& limit matches Some(most) ==> capped == if most < predicted {
                most as int
            } else {
                predicted as int
            }
        }),
{
}

/// A quantile of output lengths is there for any percentile from one to a hundred of at least one
/// length, and it is the length that splits them so.
pub proof fn law_length_quantiles_split(lengths: Seq<u32>, percentile: u32)
    ensures
        sample_quantile(lengths, percentile) is Some <==> 1 <= percentile <= 100 && lengths.len()
            > 0,
        sample_quantile(lengths, percentile) matches Some(q) ==> splits_at(
            lengths,
            percentile as int,
            q,
        ),
{
    if 1 <= percentile <= 100 && lengths.len() > 0 {
        law_quantile_splits_the_samples(lengths, percentile as int);
    }
}

/// Of samples of which one alone has a key that is new, the summary under the key is that sample.
proof fn lemma_only_sample<S: Scalar>(
    nodes: Map<Seq<char>, DagCpmNodeState<S>>,
    samples: Seq<DagCpmCallSample<S>>,
    at: Timestamp,
    i: int,
)
    requires
        0 <= i < samples.len(),
        !nodes.contains_key(samples[i].structural_key@),
        forall|j: int|
            0 <= j < samples.len() && j != i ==> (#[trigger] samples[j]).structural_key@
                != samples[i].structural_key@,
    ensures
        ({
            let key = samples[i].structural_key@;
            let after = samples_learned(nodes, samples, at);
            &&& after.contains_key(key) <==> valid_sample(samples[i])
            &&& after.contains_key(key) ==> {
                &&& after[key].observation_count == 1
                &&& after[key].duration_ms_ewma == samples[i].duration_ms
                &&& after[key].slack_ms_ewma == samples[i].slack_ms
                &&& after[key].criticality_ewma == samples[i].criticality
                &&& after[key].queue_horizon_ms_ewma == samples[i].queue_horizon_ms
                &&& after[key].last_updated_at == Some(at)
            }
        }),
    decreases samples.len(),
{
    let front = samples.drop_last();
    let key = samples[i].structural_key@;
    if i < samples.len() - 1 {
        assert(front[i] == samples[i]);
        assert forall|j: int| 0 <= j < front.len() && j != i implies (
        #[trigger] front[j]).structural_key@ != key by {
            assert(front[j] == samples[j]);
        }
        lemma_only_sample(nodes, front, at, i);
        assert(samples[samples.len() - 1].structural_key@ != key);
    } else {
        assert forall|j: int| 0 <= j < front.len() implies (#[trigger] front[j]).structural_key@
            != key by {
            assert(front[j] == samples[j]);
        }
        lemma_no_sample(nodes, front, at, key);
    }
}

proof fn lemma_no_sample<S: Scalar>(
    nodes: Map<Seq<char>, DagCpmNodeState<S>>,
    samples: Seq<DagCpmCallSample<S>>,
    at: Timestamp,
    key: Seq<char>,
)
    requires
        forall|j: int|
            0 <= j < samples.len() ==> (#[trigger] samples[j]).structural_key@ != key,
    ensures
        samples_learned(nodes, samples, at).contains_key(key) <==> nodes.contains_key(key),
        nodes.contains_key(key) ==> samples_learned(nodes, samples, at)[key] == nodes[key],
    decreases samples.len(),
{
    if samples.len() > 0 {
        let front = samples.drop_last();
        assert forall|j: int| 0 <= j < front.len() implies (#[trigger] front[j]).structural_key@
            != key by {
            assert(front[j] == samples[j]);
        }
        assert(samples[samples.len() - 1].structural_key@ != key);
        lemma_no_sample(nodes, front, at, key);
    }
}

/// The waits that a loaded state holds for a model.
pub open spec fn loaded_waits(loaded: Option<DagCpmState<Fixed>>, model: Seq<char>) -> Seq<Fixed> {
    match loaded {
        Some(state) => held_waits(state.queue(), model),
        None => Seq::empty(),
    }
}

/// The waits that a loaded state holds across all models.
pub open spec fn loaded_waits_of_all(loaded: Option<DagCpmState<Fixed>>) -> Seq<Fixed> {
    match loaded {
        Some(state) => state.global_queue_wait.samples_ms@,
        None => Seq::empty(),
    }
}

/// What a learner stores of a completed LLM call that it sees for the first time is judged by the
/// waits that it had loaded: the horizon is the percentile of those of the call's own model, when they
/// are enough, whatever calls to other models waited, else that across all models, when those are
/// enough, and else the default one. Within the horizon, the criticality falls with the slack on a
/// straight line.
#[verifier::spinoff_prover]
#[verifier::rlimit(40)]
pub proof fn law_stored_calls_are_judged_by_their_models_waits(
    agent: Seq<char>,
    loaded: Option<DagCpmState<Fixed>>,
    run: RunRecord<Fixed>,
    at: Timestamp,
    state: DagCpmState<Fixed>,
    c: int,
)
    requires
        run_processed(agent, loaded, run, at, Some(state)),
        0 <= c < run.calls@.len(),
        run.calls@[c].kind == CallKind::Llm,
        run.calls@[c].ended_at is Some,
        ({
            let key = key_text(
                "llm"@,
                texts(run.calls@[c].function_path@),
                run.calls@[c].name@,
            );
            &&& loaded matches Some(l) ==> !l.nodes@.contains_key(key)
            &&& forall|d: int|
                0 <= d < run.calls@.len() && d != c && (#[trigger] run.calls@[d]).kind
                    == CallKind::Llm ==> key_text(
                    "llm"@,
                    texts(run.calls@[d].function_path@),
                    run.calls@[d].name@,
                ) != key
        }),
    ensures
        ({
            let key = key_text(
                "llm"@,
                texts(run.calls@[c].function_path@),
                run.calls@[c].name@,
            );
            let own = loaded_waits(loaded, bucket_of(call_model(run.calls@[c])));
            let all = loaded_waits_of_all(loaded);
            let node = state.nodes@[key];
            let horizon = node.queue_horizon_ms_ewma;
            state.nodes@.contains_key(key) ==> {
                &&& node.observation_count == 1
                &&& node.last_updated_at == Some(at)
                &&& enough_waits(own) ==> estimated_from(own, horizon)
                &&& !enough_waits(own) && enough_waits(all) ==> estimated_from(all, horizon)
                &&& !enough_waits(own) && !enough_waits(all) ==> held_horizon(None, horizon)
                &&& 0 <= node.slack_ms_ewma.millionths <= horizon.millionths ==> {
                    let share = node.criticality_ewma.millionths * horizon.millionths;
                    let left = WHOLE * (horizon.millionths - node.slack_ms_ewma.millionths);
                    left <= share < left + horizon.millionths
                }
            }
        }),
{
    let key = key_text("llm"@, texts(run.calls@[c].function_path@), run.calls@[c].name@);
    let (before, dag, after) = choose|
        before: DagCpmState<Fixed>,
        dag: CompletedRunDag<Fixed>,
        after: DagCpmState<Fixed>,
    |
        #![trigger starts_from(agent, loaded, before), run_learned(before, run, dag, at, after, true)]
        starts_from(agent, loaded, before) && graph_of(run, dag) && run_learned(
            before,
            run,
            dag,
            at,
            after,
            true,
        ) && state == after;
    let (cpm, samples, learned) = choose|
        cpm: CompletedRunCpm<Fixed>,
        samples: Seq<DagCpmCallSample<Fixed>>,
        learned: DagCpmState<Fixed>,
    | #[trigger]
        facts_learned(before, run, dag, cpm, samples, at, learned) && tidied(learned, after, at);
    let i = law_calls_are_judged_by_their_models_waits(
        before,
        run,
        dag,
        cpm,
        samples,
        at,
        learned,
        c,
    );
    assert forall|j: int| 0 <= j < samples.len() && j != i implies (
    #[trigger] samples[j]).structural_key@ != key by {
        assert(of_another_call(run.calls@, c, samples[j]));
    }
    lemma_only_sample(before.nodes@, samples, at, i);
    let model = bucket_of(call_model(run.calls@[c]));
    match loaded {
        Some(l) => {
            assert(before.queue() == l.queue());
        },
        None => {
            assert(held_waits(before.queue(), model) =~= Seq::<Fixed>::empty());
            assert(before.global_queue_wait.samples_ms@ =~= Seq::<Fixed>::empty());
        },
    }
    if state.nodes@.contains_key(key) {
        let cutoff = choose|cutoff: Timestamp|
            cutoff@ == days_earlier(at@, 14) && #[trigger]
                pruned_within(learned.nodes@, after.nodes@, cutoff, 512) && pruned_within(
                learned.queue_wait_by_model@,
                after.queue_wait_by_model@,
                cutoff,
                64,
            );
        assert(survivors(learned.nodes@, cutoff).contains_key(key));
        assert(state.nodes@[key] == learned.nodes@[key]);
    }
}

/// Every completed LLM call of a run is stored by its path and name, as long as there is room, the
/// calls of the run are measured and do not depend on one another in a circle.
#[verifier::spinoff_prover]
#[verifier::rlimit(40)]
pub proof fn law_llm_calls_are_stored(
    agent: Seq<char>,
    loaded: Option<DagCpmState<Fixed>>,
    run: RunRecord<Fixed>,
    at: Timestamp,
    r: Option<DagCpmState<Fixed>>,
    c: int,
)
    requires
        run_processed(agent, loaded, run, at, r),
        0 <= c < run.calls@.len(),
        run.calls@[c].kind == CallKind::Llm,
        run.calls@[c].ended_at is Some,
        forall|dag: CompletedRunDag<Fixed>| #[trigger]
            graph_of(run, dag) ==> acyclic(dag.edges@) && measured(dag.nodes@),
        loaded matches Some(l) ==> l.nodes@.dom().finite() && l.nodes@.dom().len()
            + run.calls@.len() <= 512,
        loaded is None ==> run.calls@.len() <= 512,
    ensures
        r matches Some(state) && state.nodes@.contains_key(
            key_text("llm"@, texts(run.calls@[c].function_path@), run.calls@[c].name@),
        ) && state.nodes@[key_text(
            "llm"@,
            texts(run.calls@[c].function_path@),
            run.calls@[c].name@,
        )].last_updated_at == Some(at),
{
    let key = key_text("llm"@, texts(run.calls@[c].function_path@), run.calls@[c].name@);
    let (before, dag, after) = choose|
        before: DagCpmState<Fixed>,
        dag: CompletedRunDag<Fixed>,
        after: DagCpmState<Fixed>,
    |
        #![trigger starts_from(agent, loaded, before), run_learned(before, run, dag, at, after, r is Some)]
        starts_from(agent, loaded, before) && graph_of(run, dag) && run_learned(
            before,
            run,
            dag,
            at,
            after,
            r is Some,
        ) && (r matches Some(state) ==> state == after);
    assert(acyclic(dag.edges@) && measured(dag.nodes@));
    let (cpm, samples, learned) = choose|
        cpm: CompletedRunCpm<Fixed>,
        samples: Seq<DagCpmCallSample<Fixed>>,
        learned: DagCpmState<Fixed>,
    | #[trigger]
        facts_learned(before, run, dag, cpm, samples, at, learned) && tidied(learned, after, at)
            && (r is Some) == (any_valid_sample(samples) || any_wait(run.calls@) || shrunk(
            learned,
            after,
        ));
    let nodes = dag.nodes@;
    let order = nodes.map_values(|n: RunDagNode<Fixed>| n.call_index as int);
    assert(order.contains(c));
    let v = choose|v: int| 0 <= v < order.len() && order[v] == c;
    assert(nodes[v].call_index == c);
    assert(stands_for(nodes[v], run.calls@[c], c));
    let i = law_llm_calls_are_sampled(run, dag, cpm, samples, v);
    lemma_graph_in_range(dag.nodes@, dag.edges@);
    let horizons = before.node_horizons(nodes);
    assert(exact_result(dag, before.horizon(None), horizons, cpm));
    law_slack_is_never_negative(dag, before.horizon(None), horizons, cpm, v);
    law_results_stay_in_range(dag, before.horizon(None), horizons, cpm, v);
    assert(cpm.nodes@[v].node_index == v);
    law_horizon_is_held(Some(horizons[v]));
    law_criticality_in_unit_range(samples[i].slack_ms, samples[i].queue_horizon_ms);
    assert(valid_sample(samples[i]));
    lemma_learned_key(before.nodes@, samples, at, i);
    lemma_nodes_counted(before.nodes@, samples, at);
    lemma_order_fits(run.calls@, order);
    let cutoff = choose|cutoff: Timestamp|
        cutoff@ == days_earlier(at@, 14) && #[trigger]
            pruned_within(learned.nodes@, after.nodes@, cutoff, 512) && pruned_within(
            learned.queue_wait_by_model@,
            after.queue_wait_by_model@,
            cutoff,
            64,
        );
    law_cutoff_drops_what_is_older(learned.nodes@, cutoff, key);
    let left = survivors(learned.nodes@, cutoff);
    vstd::set_lib::lemma_len_subset(left.dom(), learned.nodes@.dom());
    law_nothing_goes_without_need(left, after.nodes@, 512);
}

proof fn lemma_nodes_counted<S: Scalar>(
    nodes: Map<Seq<char>, DagCpmNodeState<S>>,
    samples: Seq<DagCpmCallSample<S>>,
    at: Timestamp,
)
    requires
        nodes.dom().finite(),
    ensures
        samples_learned(nodes, samples, at).dom().finite(),
        samples_learned(nodes, samples, at).dom().len() <= nodes.dom().len() + samples.len(),
    decreases samples.len(),
{
    if samples.len() > 0 {
        lemma_nodes_counted(nodes, samples.drop_last(), at);
    }
}

proof fn lemma_order_fits<S: Scalar>(calls: Seq<CallRecord<S>>, order: Seq<int>)
    requires
        completed_order(calls, order),
    ensures
        order.len() <= calls.len(),
{
    assert forall|i: int, j: int| 0 <= i < order.len() && 0 <= j < order.len() && i
        != j implies order[i] != order[j] by {
        if i < j {
            assert(call_before(calls, order[i], order[j]));
        } else {
            assert(call_before(calls, order[j], order[i]));
        }
    }
    assert(order.no_duplicates());
    order.unique_seq_to_set();
    let range = vstd::set_lib::set_int_range(0, calls.len() as int);
    vstd::set_lib::lemma_int_range(0, calls.len() as int);
    assert(order.to_set().subset_of(range));
    vstd::set_lib::lemma_len_subset(order.to_set(), range);
}

/// The queue waits that LLM calls report, in order.
pub open spec fn all_waits<S: Scalar>(calls: Seq<CallRecord<S>>) -> Seq<S> {
    calls.filter(
        |call: CallRecord<S>|
            call.kind == CallKind::Llm && call.backend_timing is Some
                && call.backend_timing->0.prefill_wait_time_ms is Some && usable(
                call.backend_timing->0.prefill_wait_time_ms->0,
            ),
    ).map_values(|call: CallRecord<S>| call.backend_timing->0.prefill_wait_time_ms->0)
}

proof fn lemma_all_waits_kept<S: Scalar>(
    queue: QueueView<S>,
    calls: Seq<CallRecord<S>>,
    at: Timestamp,
)
    requires
        queue.global.samples.len() <= 256,
    ensures
        last_of_all(
            queue.global.samples + all_waits(calls),
            calls_waited(queue, calls, at).global.samples,
            256,
        ),
    decreases calls.len(),
{
    reveal(Seq::filter);
    let held = queue.global.samples;
    if calls.len() == 0 {
        assert(all_waits(calls) =~= Seq::<S>::empty());
        assert(held + all_waits(calls) =~= held);
    } else {
        let front = calls.drop_last();
        lemma_all_waits_kept(queue, front, at);
        let earlier = calls_waited(queue, front, at).global.samples;
        let now = calls_waited(queue, calls, at).global.samples;
        if tells_wait(calls.last()) {
            let wait = calls.last().backend_timing->0.prefill_wait_time_ms->0;
            assert(all_waits(calls) =~= all_waits(front).push(wait));
            assert(now == last_n(earlier.push(wait), 256));
            assert(held + all_waits(calls) =~= (held + all_waits(front)).push(wait));
            assert(last_of_all(held + all_waits(calls), now, 256));
        } else {
            assert(all_waits(calls) =~= all_waits(front));
        }
    }
}

/// What calls to any model waited is remembered across all models, the latest waits last.
pub proof fn law_waits_are_kept_across_models<S: Scalar>(
    before: DagCpmState<S>,
    run: RunRecord<S>,
    dag: CompletedRunDag<S>,
    at: Timestamp,
    after: DagCpmState<S>,
    changed: bool,
)
    requires
        run_learned(before, run, dag, at, after, changed),
        acyclic(dag.edges@),
        before.global_queue_wait.samples_ms@.len() <= 256,
    ensures
        last_of_all(
            before.global_queue_wait.samples_ms@ + all_waits(run.calls@),
            after.global_queue_wait.samples_ms@,
            256,
        ),
        all_waits(run.calls@).len() > 0 ==> changed,
{
    let (cpm, samples, learned) = choose|
        cpm: CompletedRunCpm<S>,
        samples: Seq<DagCpmCallSample<S>>,
        learned: DagCpmState<S>,
    | #[trigger]
        facts_learned(before, run, dag, cpm, samples, at, learned) && tidied(learned, after, at)
            && changed == (any_valid_sample(samples) || any_wait(run.calls@) || shrunk(
            learned,
            after,
        ));
    lemma_all_waits_kept(before.queue(), run.calls@, at);
    assert(learned.queue().global == learned.global_queue_wait@);
    if all_waits(run.calls@).len() > 0 {
        lemma_some_wait(run.calls@);
    }
}

proof fn lemma_some_wait<S: Scalar>(calls: Seq<CallRecord<S>>)
    requires
        all_waits(calls).len() > 0,
    ensures
        any_wait(calls),
    decreases calls.len(),
{
    reveal(Seq::filter);
    if calls.len() > 0 {
        if tells_wait(calls.last()) {
            assert(tells_wait(calls[calls.len() - 1]));
        } else {
            lemma_some_wait(calls.drop_last());
            let i = choose|i: int| 0 <= i < calls.len() - 1 && tells_wait(calls.drop_last()[i]);
            assert(tells_wait(calls[i]));
        }
    }
}

/// A summary that was updated within fourteen days stays, as long as there is room for all of them,
/// and one that was not goes.
pub proof fn law_fresh_summaries_stay<S: Scalar>(
    before: DagCpmState<S>,
    after: DagCpmState<S>,
    now: Timestamp,
    key: Seq<char>,
)
    requires
        tidied(before, after, now),
        before.nodes@.dom().finite(),
        before.nodes@.dom().len() <= 512,
        before.nodes@.contains_key(key),
        before.nodes@[key].last_updated_at is Some,
    ensures
        after.nodes@.contains_key(key) <==> (before.nodes@[key].last_updated_at->0)@
            >= days_earlier(now@, 14),
        after.nodes@.contains_key(key) ==> after.nodes@[key] == before.nodes@[key],
{
    let cutoff = choose|cutoff: Timestamp|
        cutoff@ == days_earlier(now@, 14) && #[trigger]
            pruned_within(before.nodes@, after.nodes@, cutoff, 512) && pruned_within(
            before.queue_wait_by_model@,
            after.queue_wait_by_model@,
            cutoff,
            64,
        );
    law_cutoff_drops_what_is_older(before.nodes@, cutoff, key);
    let left = survivors(before.nodes@, cutoff);
    vstd::set_lib::lemma_len_subset(left.dom(), before.nodes@.dom());
    law_nothing_goes_without_need(left, after.nodes@, 512);
}

/// A context that a loss was observed in within fourteen days stays, as long as there is room for all
/// of them, and one without goes.
pub proof fn law_fresh_contexts_stay<S: Scalar>(
    before: PriorityResidualState<S>,
    after: PriorityResidualState<S>,
    now: Timestamp,
    key: Seq<char>,
)
    requires
        residual_tidied(before, after, now),
        before.contexts@.dom().finite(),
        before.contexts@.dom().len() <= 128,
        before.contexts@.contains_key(key),
        before.contexts@[key].last_updated_at is Some,
    ensures
        after.contexts@.contains_key(key) <==> (before.contexts@[key].last_updated_at->0)@
            >= days_earlier(now@, 14),
        after.contexts@.contains_key(key) ==> after.contexts@[key] == before.contexts@[key],
{
    let cutoff = choose|cutoff: Timestamp|
        cutoff@ == days_earlier(now@, 14) && #[trigger]
            pruned_within(before.contexts@, after.contexts@, cutoff, 128) && pruned_within(
            before.pressure_by_model@,
            after.pressure_by_model@,
            cutoff,
            64,
        );
    law_cutoff_drops_what_is_older(before.contexts@, cutoff, key);
    let left = survivors(before.contexts@, cutoff);
    vstd::set_lib::lemma_len_subset(left.dom(), before.contexts@.dom());
    law_nothing_goes_without_need(left, after.contexts@, 128);
}

/// A learner stores what it learned for its own agent. The residual learner stores whenever an LLM
/// call reported a usable queue wait.
pub proof fn law_learners_store_for_their_agent<S: Scalar>(
    agent: Seq<char>,
    path_loaded: Option<DagCpmState<S>>,
    residual_loaded: Option<PriorityResidualState<S>>,
    run: RunRecord<S>,
    at: Timestamp,
    path_state: Option<DagCpmState<S>>,
    residual_state: Option<PriorityResidualState<S>>,
)
    requires
        run_processed(agent, path_loaded, run, at, path_state),
        residual_processed(agent, residual_loaded, run, at, residual_state),
    ensures
        path_state matches Some(state) ==> state.agent_id@ == agent,
        residual_state matches Some(state) ==> state.agent_id@ == agent,
        all_waits(run.calls@).len() > 0 ==> residual_state is Some,
{
    if all_waits(run.calls@).len() > 0 {
        lemma_some_wait(run.calls@);
    }
}

/// A sample that is no measurement, or whose criticality is beyond one, teaches nothing.
pub proof fn law_bad_samples_teach_nothing(
    nodes: Map<Seq<char>, DagCpmNodeState<Fixed>>,
    samples: Seq<DagCpmCallSample<Fixed>>,
    sample: DagCpmCallSample<Fixed>,
    at: Timestamp,
)
    requires
        sample.duration_ms.millionths < 0 || sample.duration_ms.millionths == i64::MAX
            || sample.slack_ms.millionths == i64::MAX || sample.slack_ms.millionths == i64::MIN
            || sample.criticality.millionths < 0 || sample.criticality.millionths > WHOLE
            || sample.queue_horizon_ms.millionths <= 0 || sample.queue_horizon_ms.millionths
            == i64::MAX,
    ensures
        samples_learned(nodes, samples.push(sample), at) == samples_learned(nodes, samples, at),
{
    assert(samples.push(sample).drop_last() =~= samples);
    assert(Fixed::ratio(0, 1).millionths == 0);
    assert(Fixed::ratio(1, 1).millionths == WHOLE);
}

/// Where no lengths are trusted, a lookup reports those of the run, or else of the workflow, or else of
/// everyone, whichever it finds first, without a prediction; and that there are none where it finds
/// none.
pub proof fn law_untrusted_lookups_report_the_nearest(
    state: OslEmpiricalState,
    root: u128,
    agent: Seq<char>,
    model: Seq<char>,
    signature: OslRequestSignature,
)
    requires
        held_lengths(state.run_contexts@, ScopeView::Run(root), model, signature).len() < 3,
        held_lengths(state.contexts@, ScopeView::Workflow(agent), model, signature).len() < 10,
        held_lengths(state.contexts@, ScopeView::Global, model, signature).len() < 10,
    ensures
        ({
            let outcome = state.predicted(Some(root), agent, model, signature);
            let run = key_of(ScopeView::Run(root), model, signature);
            let own = key_of(ScopeView::Workflow(agent), model, signature);
            let all = key_of(ScopeView::Global, model, signature);
            &&& outcome.emitted_osl is None
            &&& if state.run_contexts@.contains_key(run) {
                outcome.source == "run_local"@ && outcome.sample_count == Some(
                    state.run_contexts@[run].samples@.len(),
                )
            } else if state.contexts@.contains_key(own) {
                outcome.source == "workflow"@ && outcome.sample_count == Some(
                    state.contexts@[own].samples@.len(),
                )
            } else if state.contexts@.contains_key(all) {
                outcome.source == "global"@ && outcome.sample_count == Some(
                    state.contexts@[all].samples@.len(),
                )
            } else {
                outcome.source == "none"@ && outcome.sample_count is None
            }
        }),
{
    law_few_lengths_predict_nothing(state, Some(root), agent, model, signature);
    let run = key_of(ScopeView::Run(root), model, signature);
    let own = key_of(ScopeView::Workflow(agent), model, signature);
    let all = key_of(ScopeView::Global, model, signature);
    assert(views(state.run_contexts@).contains_key(run) <==> state.run_contexts@.contains_key(run));
    assert(views(state.contexts@).contains_key(own) <==> state.contexts@.contains_key(own));
    assert(views(state.contexts@).contains_key(all) <==> state.contexts@.contains_key(all));
}

/// Of calls of which one alone carries feedback, that one alone changes the contexts.
#[verifier::spinoff_prover]
#[verifier::rlimit(40)]
proof fn lemma_only_feedback<S: Scalar>(
    state: ResidualView<S>,
    calls: Seq<CallRecord<S>>,
    samples: Seq<DagCpmCallSample<S>>,
    at: Timestamp,
    c: int,
)
    requires
        0 <= c < calls.len(),
        forall|j: int|
            0 <= j < calls.len() && j != c ==> (#[trigger] calls[j]).adaptive_hints is None,
        tells_wait(calls[c]),
        call_feedback(calls[c], samples) is Some,
    ensures
        ({
            let (key, arm, loss) = call_feedback(calls[c], samples)->0;
            calls_absorbed(state, calls, samples, at).contexts == loss_attributed(
                state,
                key,
                arm,
                loss,
                observed_at(calls[c], at),
            ).contexts
        }),
    decreases calls.len(),
{
    let front = calls.drop_last();
    if c < calls.len() - 1 {
        assert(front[c] == calls[c]);
        assert forall|j: int| 0 <= j < front.len() && j != c implies (
        #[trigger] front[j]).adaptive_hints is None by {
            assert(front[j] == calls[j]);
        }
        lemma_only_feedback(state, front, samples, at, c);
        assert(calls[calls.len() - 1].adaptive_hints is None);
    } else {
        assert forall|j: int| 0 <= j < front.len() implies (#[trigger] front[j]).adaptive_hints
            is None by {
            assert(front[j] == calls[j]);
        }
        lemma_no_feedback(state, front, samples, at);
    }
}

proof fn lemma_no_feedback<S: Scalar>(
    state: ResidualView<S>,
    calls: Seq<CallRecord<S>>,
    samples: Seq<DagCpmCallSample<S>>,
    at: Timestamp,
)
    requires
        forall|j: int| 0 <= j < calls.len() ==> (#[trigger] calls[j]).adaptive_hints is None,
    ensures
        calls_absorbed(state, calls, samples, at).contexts == state.contexts,
    decreases calls.len(),
{
    if calls.len() > 0 {
        let front = calls.drop_last();
        assert forall|j: int| 0 <= j < front.len() implies (#[trigger] front[j]).adaptive_hints
            is None by {
            assert(front[j] == calls[j]);
        }
        assert(calls[calls.len() - 1].adaptive_hints is None);
        lemma_no_feedback(state, front, samples, at);
    }
}

proof fn lemma_loss_is_usable(wait: Fixed, slack: Fixed, emitted: u32, cap: u32)
    requires
        0 <= wait.millionths < i64::MAX,
        0 <= slack.millionths < i64::MAX,
        cap > 0,
    ensures
        residual_loss(wait, slack, emitted, cap) matches Some(loss) && 0 <= loss.millionths
            < i64::MAX,
{
    law_loss_is_harm_and_spend(wait, slack, emitted, cap);
    law_loss_is_ordered(wait, slack, emitted, wait, slack, emitted, cap);
    let loss = residual_loss(wait, slack, emitted, cap)->0.millionths as int;
    let covered: int = if slack.millionths > 0 {
        slack.millionths as int
    } else {
        0
    };
    let harm: int = if wait.millionths > covered {
        wait.millionths - covered
    } else {
        0
    };
    let spent: int = if emitted > cap {
        cap as int
    } else {
        emitted as int
    };
    assert(loss < 0x7fff_ffff_ffff_ffff) by (nonlinear_arith)
        requires
            1000 * (loss * cap) <= harm * cap + 50_000_000 * spent,
            0 <= spent <= cap,
            0 <= harm < 0x7fff_ffff_ffff_ffff,
            cap > 0,
    ;
}

/// What a completed LLM call tells of the residual that was applied to it is stored: where it alone of
/// its run carries feedback, the arm that it names is pulled once more in the context that it names. A
/// first pull leaves the loss of its own queue wait, with the slack that the call had in the run, the
/// priority that it was given and the cap, as the mean loss of the arm.
#[verifier::spinoff_prover]
#[verifier::rlimit(40)]
pub proof fn law_feedback_is_stored(
    agent: Seq<char>,
    loaded: Option<PriorityResidualState<Fixed>>,
    run: RunRecord<Fixed>,
    at: Timestamp,
    r: Option<PriorityResidualState<Fixed>>,
    c: int,
    wait: Fixed,
    ended: Timestamp,
    key: String,
    arm: u8,
    emitted: u32,
    cap: u32,
)
    requires
        residual_processed(agent, loaded, run, at, r),
        0 <= c < run.calls@.len(),
        run.calls@[c].kind == CallKind::Llm,
        run.calls@[c].ended_at == Some(ended),
        days_earlier(at@, 14) <= ended@,
        run.calls@[c].backend_timing matches Some(timing) && timing.prefill_wait_time_ms == Some(
            wait,
        ),
        0 <= wait.millionths < i64::MAX,
        run.calls@[c].adaptive_hints matches Some(hints) && {
            &&& hints.selected_priority_residual_arm == Some(arm)
            &&& hints.selected_priority_residual_key == Some(key)
            &&& hints.emitted_priority == Some(emitted)
            &&& hints.priority_cap == Some(cap)
        },
        arm < 3,
        cap > 0,
        forall|j: int|
            0 <= j < run.calls@.len() && j != c ==> (#[trigger] run.calls@[j]).adaptive_hints
                is None && run.calls@[j].scope_uuid != run.calls@[c].scope_uuid,
        forall|dag: CompletedRunDag<Fixed>| #[trigger]
            graph_of(run, dag) ==> acyclic(dag.edges@) && measured(dag.nodes@),
        loaded matches Some(l) ==> l.contexts@.dom().finite() && l.contexts@.dom().len() < 128,
    ensures
        r matches Some(state) && {
            let known = loaded is Some && loaded->0.contexts@.contains_key(key@);
            let arms = state.contexts@[key@].arms@;
            &&& state.contexts@.contains_key(key@)
            &&& state.contexts@[key@].last_updated_at == Some(ended)
            &&& !known ==> arms[arm as int].pulls == 1 && (exists|slack: Fixed|
                0 <= slack.millionths && #[trigger] residual_loss(wait, slack, emitted, cap) == Some(
                    arms[arm as int].mean_loss,
                ))
            &&& known && loaded->0.contexts@[key@].arms@[arm as int].pulls < u32::MAX
                ==> arms[arm as int].pulls == loaded->0.contexts@[key@].arms@[arm as int].pulls
                + 1
        },
{
    let (before, samples, absorbed, after) = choose|
        before: PriorityResidualState<Fixed>,
        samples: Seq<DagCpmCallSample<Fixed>>,
        absorbed: PriorityResidualState<Fixed>,
        after: PriorityResidualState<Fixed>,
    |
        #![trigger residual_starts_from(agent, loaded, before), run_samples(run, samples), residual_tidied(absorbed, after, at)]
        residual_starts_from(agent, loaded, before) && run_samples(run, samples) && absorbed@
            == calls_absorbed(before@, run.calls@, samples, at) && absorbed.agent_id
            == before.agent_id && residual_tidied(absorbed, after, at) && r is Some == (any_wait(
            run.calls@,
        ) || residual_shrunk(absorbed, after)) && (r matches Some(state) ==> state == after);
    let call = run.calls@[c];
    assert(tells_wait(run.calls@[c]));
    let dag = choose|dag: CompletedRunDag<Fixed>| #[trigger]
        graph_of(run, dag) && (sampled(dag, Some(samples)) || (sampled(dag, None) && samples.len()
            == 0));
    assert(acyclic(dag.edges@) && measured(dag.nodes@));
    let horizon = horizon_for::<Fixed>(None);
    let horizons = same_horizons(horizon, dag.nodes@.len());
    let cpm = choose|cpm: CompletedRunCpm<Fixed>| #[trigger]
        cpm_of(dag, horizon, horizons, cpm) && samples_of(dag, cpm, samples);
    let nodes = dag.nodes@;
    let order = nodes.map_values(|n: RunDagNode<Fixed>| n.call_index as int);
    assert(order.contains(c));
    let v = choose|v: int| 0 <= v < order.len() && order[v] == c;
    assert(nodes[v].call_index == c);
    assert(stands_for(nodes[v], call, c));
    let i = law_llm_calls_are_sampled(run, dag, cpm, samples, v);
    lemma_graph_in_range(dag.nodes@, dag.edges@);
    assert(exact_result(dag, horizon, horizons, cpm));
    law_results_stay_in_range(dag, horizon, horizons, cpm, v);
    assert forall|k: int| i < k < samples.len() implies (#[trigger] samples[k]).scope_uuid
        != call.scope_uuid by {
        assert(of_another(nodes, v, samples[k]));
        let w = choose|w: int|
            0 <= w < nodes.len() && w != v && (#[trigger] nodes[w]).emits_priority
                && nodes[w].structural_key == samples[k].structural_key && nodes[w].scope_uuid
                == samples[k].scope_uuid;
        let d = nodes[w].call_index as int;
        assert(order[w] == d && order[v] == c);
        assert(d != c) by {
            if v < w {
                assert(call_before(run.calls@, order[v], order[w]));
            } else {
                assert(call_before(run.calls@, order[w], order[v]));
            }
        }
        assert(stands_for(nodes[w], run.calls@[d], d));
    }
    lemma_last_slack(samples, call.scope_uuid, i);
    let slack = samples[i].slack_ms;
    lemma_loss_is_usable(wait, slack, emitted, cap);
    let loss = residual_loss(wait, slack, emitted, cap)->0;
    assert(zero_of::<Fixed>().millionths == 0);
    assert(call_feedback(call, samples) == Some((key@, arm, loss)));
    lemma_only_feedback(before@, run.calls@, samples, at, c);
    let learned = loss_attributed(before@, key@, arm, loss, ended);
    assert(absorbed@.contexts == learned.contexts);
    assert(absorbed@.contexts.dom() =~= absorbed.contexts@.dom());
    assert(before@.contexts.dom() =~= before.contexts@.dom());
    assert(learned.contexts.dom() =~= before@.contexts.dom().insert(key@));
    assert(absorbed.contexts@.contains_key(key@));
    assert(views(absorbed.contexts@)[key@] == absorbed.contexts@[key@]@);
    law_fresh_contexts_stay(absorbed, after, at, key@);
    if before.contexts@.contains_key(key@) {
        assert(views(before.contexts@)[key@] == before.contexts@[key@]@);
    }
    assert(Fixed::ratio(PRIORITY_RESIDUAL_DISCOUNT_HUNDREDTHS as int, 100).millionths == 950_000);
    assert(after.contexts@[key@] == absorbed.contexts@[key@]);
    assert(after.contexts@[key@].arms@ == learned.contexts[key@].arms);
    if !before.contexts@.contains_key(key@) {
        assert(learned.contexts[key@].arms[arm as int].mean_loss == loss);
    }
}

} // verus!
