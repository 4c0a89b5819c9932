//! Learned critical-path state of one agent.
use crate::dag::cpm::{compute_cpm_with_horizons, cpm_of, cpm_samples_from, graph_of, lemma_graph_in_range, samples_of, CompletedRunCpm, DagCpmCallSample, DEFAULT_QUEUE_HORIZON_MS, JUMP_UNIT_MS, MAX_QUEUE_HORIZON_MS};
use crate::dag::graph::{build_completed_run_dag, call_model, call_model_bucket, CompletedRunDag, RunDagNode};
use crate::dag::topology::acyclic;
use crate::model::bucket_of;
use crate::order::{nearest_rank_quantile, quantile};
use crate::records::{CallKind, CallRecord, RunRecord};
use crate::scalar::{clamp, held_between, is_usable, one, one_of, usable, zero, zero_of, Scalar};
use crate::table::{kept_freshest, survivors, views, Aged, KeyedTable};
use crate::time::{days_earlier, reaches_back, Timestamp};
use vstd::prelude::*;

verus! {

/// Days after which a summary that was not updated is dropped.
pub const DAG_CPM_RETENTION_DAYS: u32 = 14;

/// Most node summaries kept for an agent.
pub const DAG_CPM_MAX_NODES: usize = 512;

/// Most models with queue waits kept for an agent.
pub const DAG_CPM_MAX_QUEUE_MODELS: usize = 64;

/// Most queue waits kept in a window.
pub const DAG_CPM_QUEUE_WAIT_WINDOW: usize = 256;

/// Fewest queue waits that a horizon is estimated from.
pub const DAG_CPM_MIN_QUEUE_WAIT_SAMPLES: usize = 4;

/// Priority cap where no workflow class asks for another.
pub const DEFAULT_DAG_PRIORITY_CAP: u32 = 3;

/// Largest priority cap.
pub const MAX_DAG_PRIORITY_CAP: u32 = 5;

/// Percentile of the queue waits that serves as horizon.
pub const QUEUE_WAIT_PERCENTILE: u32 = 90;

/// Weight of a new sample in a moving average, in tenths.
pub const DAG_CPM_EWMA_ALPHA_TENTHS: i64 = 2;

/// Learned CPM statistics for one structural workflow node.
#[derive(Debug, PartialEq)]
pub struct DagCpmNodeState<S: Scalar> {
    /// Number of observations incorporated into this node.
    pub observation_count: u32,
    /// Exponential moving average of model service duration in milliseconds.
    pub duration_ms_ewma: S,
    /// Exponential moving average of CPM slack in milliseconds.
    pub slack_ms_ewma: S,
    /// Exponential moving average of normalized CPM criticality in `[0, 1]`.
    pub criticality_ewma: S,
    /// Exponential moving average of the queue-delay horizon used for normalization.
    pub queue_horizon_ms_ewma: S,
    /// Last update timestamp for retention and staleness checks.
    pub last_updated_at: Option<Timestamp>,
}

/// Bounded rolling queue-wait samples used to estimate scheduler pressure.
#[derive(Debug)]
pub struct DagQueueWaitWindow<S: Scalar> {
    /// Recent backend queue/admission waits in milliseconds.
    pub samples_ms: Vec<S>,
    /// Last update timestamp for retention and pruning.
    pub last_updated_at: Option<Timestamp>,
}

/// The facts of a queue-wait window.
#[verifier::ext_equal]
pub struct WindowView<S> {
    /// Recent waits.
    pub samples: Seq<S>,
    /// Last update.
    pub updated: Option<Timestamp>,
}

impl<S: Scalar> View for DagQueueWaitWindow<S> {
    type V = WindowView<S>;

    open spec fn view(&self) -> WindowView<S> {
        WindowView { samples: self.samples_ms@, updated: self.last_updated_at }
    }
}

impl<S: Scalar> Aged for DagCpmNodeState<S> {
    open spec fn updated(self) -> Option<Timestamp> {
        self.last_updated_at
    }

    open spec fn seen(self) -> nat {
        self.observation_count as nat
    }

    fn last_updated(&self) -> (r: Option<Timestamp>) {
        self.last_updated_at
    }

    fn weight(&self) -> (r: usize) {
        self.observation_count as usize
    }
}

impl<S: Scalar> Aged for DagQueueWaitWindow<S> {
    open spec fn updated(self) -> Option<Timestamp> {
        self.last_updated_at
    }

    open spec fn seen(self) -> nat {
        self.samples_ms@.len()
    }

    fn last_updated(&self) -> (r: Option<Timestamp>) {
        self.last_updated_at
    }

    fn weight(&self) -> (r: usize) {
        self.samples_ms.len()
    }
}

impl<S: Scalar> Clone for DagCpmNodeState<S> {
    fn clone(&self) -> (r: Self)
        ensures
            r == *self,
    {
        *self
    }
}

impl<S: Scalar> Copy for DagCpmNodeState<S> {

}

/// A node summary without observations.
pub open spec fn fresh_node<S: Scalar>() -> DagCpmNodeState<S> {
    DagCpmNodeState {
        observation_count: 0,
        duration_ms_ewma: zero_of(),
        slack_ms_ewma: zero_of(),
        criticality_ewma: zero_of(),
        queue_horizon_ms_ewma: zero_of(),
        last_updated_at: None,
    }
}

impl<S: Scalar> Default for DagCpmNodeState<S> {
    fn default() -> (r: Self)
        ensures
            r == fresh_node::<S>(),
    {
        DagCpmNodeState {
            observation_count: 0,
            duration_ms_ewma: zero(),
            slack_ms_ewma: zero(),
            criticality_ewma: zero(),
            queue_horizon_ms_ewma: zero(),
            last_updated_at: None,
        }
    }
}

/// A window without observations.
pub open spec fn fresh_window<S>() -> WindowView<S> {
    WindowView { samples: Seq::empty(), updated: None }
}

impl<S: Scalar> Default for DagQueueWaitWindow<S> {
    fn default() -> (r: Self)
        ensures
            r@ == fresh_window::<S>(),
    {
        DagQueueWaitWindow { samples_ms: Vec::new(), last_updated_at: None }
    }
}

/// A moving average after one more sample.
pub open spec fn moved<S: Scalar>(previous: S, sample: S) -> S {
    previous.plus(S::ratio(DAG_CPM_EWMA_ALPHA_TENTHS as int, 10).times(sample.minus(previous)))
}

/// A node summary after one more observation: the observed values the first time, moving averages
/// after that.
pub open spec fn node_observed<S: Scalar>(
    node: DagCpmNodeState<S>,
    duration: S,
    slack: S,
    criticality: S,
    horizon: S,
    at: Timestamp,
) -> DagCpmNodeState<S> {
    let first = node.observation_count == 0;
    DagCpmNodeState {
        observation_count: if node.observation_count == u32::MAX {
            u32::MAX
        } else {
            (node.observation_count + 1) as u32
        },
        duration_ms_ewma: if first {
            duration
        } else {
            moved(node.duration_ms_ewma, duration)
        },
        slack_ms_ewma: if first {
            slack
        } else {
            moved(node.slack_ms_ewma, slack)
        },
        criticality_ewma: if first {
            criticality
        } else {
            moved(node.criticality_ewma, criticality)
        },
        queue_horizon_ms_ewma: if first {
            horizon
        } else {
            moved(node.queue_horizon_ms_ewma, horizon)
        },
        last_updated_at: Some(at),
    }
}

/// The last `n` entries of a sequence.
pub open spec fn last_n<S>(s: Seq<S>, n: int) -> Seq<S> {
    if s.len() > n {
        s.skip(s.len() - n)
    } else {
        s
    }
}

/// A window after one more wait; one that is not usable leaves it as it is.
pub open spec fn wait_observed<S: Scalar>(window: WindowView<S>, wait: S, at: Timestamp) -> WindowView<
    S,
> {
    if usable(wait) {
        WindowView {
            samples: last_n(window.samples.push(wait), DAG_CPM_QUEUE_WAIT_WINDOW as int),
            updated: Some(at),
        }
    } else {
        window
    }
}

/// The usable values among samples, in order.
pub open spec fn usable_among<S: Scalar>(samples: Seq<S>) -> Seq<S>
    decreases samples.len(),
{
    if samples.len() == 0 {
        Seq::empty()
    } else {
        let earlier = usable_among(samples.drop_last());
        if usable(samples.last()) {
            earlier.push(samples.last())
        } else {
            earlier
        }
    }
}

/// The nearest-rank percentile of the usable values among samples.
pub open spec fn wait_percentile<S: Scalar>(samples: Seq<S>) -> Option<S> {
    if usable_among(samples).len() == 0 {
        None
    } else {
        Some(quantile(usable_among(samples), QUEUE_WAIT_PERCENTILE as int))
    }
}

/// The percentile of a window that holds enough samples.
pub open spec fn window_percentile<S: Scalar>(window: WindowView<S>) -> Option<S> {
    if window.samples.len() < DAG_CPM_MIN_QUEUE_WAIT_SAMPLES {
        None
    } else {
        wait_percentile(window.samples)
    }
}

/// Estimates the percentile of some waits.
fn p90<S: Scalar>(samples: &Vec<S>) -> (r: Option<S>)
    ensures
        r == wait_percentile(samples@),
{
    let mut waits: Vec<S> = Vec::new();
    let mut i: usize = 0;
    while i < samples.len()
        invariant
            i <= samples.len(),
            waits@ == usable_among(samples@.take(i as int)),
        decreases samples.len() - i,
    {
        proof {
            assert(samples@.take(i + 1).drop_last() =~= samples@.take(i as int));
        }
        if is_usable(samples[i]) {
            waits.push(samples[i]);
        }
        i += 1;
    }
    proof {
        assert(samples@.take(samples.len() as int) =~= samples@);
    }
    if waits.len() == 0 {
        None
    } else {
        Some(nearest_rank_quantile(&waits, QUEUE_WAIT_PERCENTILE))
    }
}

impl<S: Scalar> DagQueueWaitWindow<S> {
    /// Adds a wait, and drops the oldest ones that no longer fit.
    pub fn observe(&mut self, wait_ms: S, updated_at: Timestamp)
        ensures
            final(self)@ == wait_observed(old(self)@, wait_ms, updated_at),
    {
        if !is_usable(wait_ms) {
            return;
        }
        self.samples_ms.push(wait_ms);
        let ghost all = self.samples_ms@;
        while self.samples_ms.len() > DAG_CPM_QUEUE_WAIT_WINDOW
            invariant
                self.samples_ms@.len() <= all.len(),
                self.samples_ms@ == all.skip(all.len() - self.samples_ms@.len()),
                all.len() > DAG_CPM_QUEUE_WAIT_WINDOW ==> self.samples_ms@.len()
                    >= DAG_CPM_QUEUE_WAIT_WINDOW,
                all.len() <= DAG_CPM_QUEUE_WAIT_WINDOW ==> self.samples_ms@.len() == all.len(),
                self.last_updated_at == old(self).last_updated_at,
            decreases self.samples_ms.len(),
        {
            let ghost before = self.samples_ms@;
            let _ = self.samples_ms.remove(0);
            proof {
                assert(self.samples_ms@ =~= all.skip(all.len() - self.samples_ms@.len()));
            }
        }
        self.last_updated_at = Some(updated_at);
        proof {
            assert(all.skip(0) =~= all);
            assert(self.samples_ms@ =~= last_n(all, DAG_CPM_QUEUE_WAIT_WINDOW as int));
        }
    }

    /// Estimates the percentile of the waits, when there are enough.
    pub fn p90_if_enough(&self) -> (r: Option<S>)
        ensures
            r == window_percentile(self@),
    {
        if self.samples_ms.len() < DAG_CPM_MIN_QUEUE_WAIT_SAMPLES {
            return None;
        }
        p90(&self.samples_ms)
    }

    /// Whether nothing was ever observed.
    pub fn is_empty(&self) -> (r: bool)
        ensures
            r == (self@ == fresh_window::<S>()),
    {
        proof {
            assert(self.samples_ms@.len() == 0 ==> self.samples_ms@ =~= Seq::<S>::empty());
        }
        self.samples_ms.len() == 0 && self.last_updated_at.is_none()
    }
}

fn ewma<S: Scalar>(previous: S, sample: S) -> (r: S)
    ensures
        r == moved(previous, sample),
{
    previous.add(S::of_ratio(DAG_CPM_EWMA_ALPHA_TENTHS, 10).mul(sample.sub(previous)))
}

impl<S: Scalar> DagCpmNodeState<S> {
    /// Adds an observation.
    pub fn observe(
        &mut self,
        duration_ms: S,
        slack_ms: S,
        criticality: S,
        queue_horizon_ms: S,
        updated_at: Timestamp,
    )
        ensures
            *final(self) == node_observed(
                *old(self),
                duration_ms,
                slack_ms,
                criticality,
                queue_horizon_ms,
                updated_at,
            ),
    {
        if self.observation_count == 0 {
            self.duration_ms_ewma = duration_ms;
            self.slack_ms_ewma = slack_ms;
            self.criticality_ewma = criticality;
            self.queue_horizon_ms_ewma = queue_horizon_ms;
        } else {
            self.duration_ms_ewma = ewma(self.duration_ms_ewma, duration_ms);
            self.slack_ms_ewma = ewma(self.slack_ms_ewma, slack_ms);
            self.criticality_ewma = ewma(self.criticality_ewma, criticality);
            self.queue_horizon_ms_ewma = ewma(self.queue_horizon_ms_ewma, queue_horizon_ms);
        }
        self.observation_count = self.observation_count.saturating_add(1);
        self.last_updated_at = Some(updated_at);
    }
}

/// Learned DAG CPM summary for one agent.
#[derive(Debug)]
pub struct DagCpmState<S: Scalar> {
    /// Agent identifier the state belongs to.
    pub agent_id: String,
    /// Learned per-node summaries keyed by stable structural path.
    pub nodes: KeyedTable<DagCpmNodeState<S>>,
    /// Rolling queue-wait observations by normalized model.
    pub queue_wait_by_model: KeyedTable<DagQueueWaitWindow<S>>,
    /// Rolling queue-wait observations across all models.
    pub global_queue_wait: DagQueueWaitWindow<S>,
}

/// Whether a sample can be learned from.
pub open spec fn valid_sample<S: Scalar>(sample: DagCpmCallSample<S>) -> bool {
    &&& usable(sample.duration_ms)
    &&& sample.slack_ms.finite()
    &&& sample.criticality.finite()
    &&& zero_of::<S>().at_most(sample.criticality)
    &&& sample.criticality.at_most(one_of())
    &&& sample.queue_horizon_ms.finite()
    &&& zero_of::<S>().below(sample.queue_horizon_ms)
}

/// Node summaries after one more sample.
pub open spec fn sample_learned<S: Scalar>(
    nodes: Map<Seq<char>, DagCpmNodeState<S>>,
    sample: DagCpmCallSample<S>,
    at: Timestamp,
) -> Map<Seq<char>, DagCpmNodeState<S>> {
    let key = sample.structural_key@;
    let node = if nodes.contains_key(key) {
        nodes[key]
    } else {
        fresh_node()
    };
    if valid_sample(sample) {
        nodes.insert(
            key,
            node_observed(
                node,
                sample.duration_ms,
                sample.slack_ms,
                sample.criticality,
                sample.queue_horizon_ms,
                at,
            ),
        )
    } else {
        nodes
    }
}

/// Node summaries after some samples, one by one.
pub open spec fn samples_learned<S: Scalar>(
    nodes: Map<Seq<char>, DagCpmNodeState<S>>,
    samples: Seq<DagCpmCallSample<S>>,
    at: Timestamp,
) -> Map<Seq<char>, DagCpmNodeState<S>>
    decreases samples.len(),
{
    if samples.len() == 0 {
        nodes
    } else {
        sample_learned(samples_learned(nodes, samples.drop_last(), at), samples.last(), at)
    }
}

/// Whether any of some samples can be learned from.
pub open spec fn any_valid_sample<S: Scalar>(samples: Seq<DagCpmCallSample<S>>) -> bool {
    exists|i: int| 0 <= i < samples.len() && valid_sample(#[trigger] samples[i])
}

/// The queue wait that the backend reported for a call, when it is usable.
pub open spec fn call_wait<S: Scalar>(call: CallRecord<S>) -> Option<S> {
    match call.backend_timing {
        Some(timing) => match timing.prefill_wait_time_ms {
            Some(wait) if usable(wait) => Some(wait),
            _ => None,
        },
        None => None,
    }
}

/// Whether a call tells a queue wait.
pub open spec fn tells_wait<S: Scalar>(call: CallRecord<S>) -> bool {
    call.kind == CallKind::Llm && call_wait(call) is Some
}

/// The facts of the queue-wait windows of an agent.
#[verifier::ext_equal]
pub struct QueueView<S> {
    /// Windows by model.
    pub by_model: Map<Seq<char>, WindowView<S>>,
    /// Window across all models.
    pub global: WindowView<S>,
}

/// Queue-wait windows after one more call.
pub open spec fn call_waited<S: Scalar>(
    queue: QueueView<S>,
    call: CallRecord<S>,
    at: Timestamp,
) -> QueueView<S> {
    let model = bucket_of(call_model(call));
    let window = if queue.by_model.contains_key(model) {
        queue.by_model[model]
    } else {
        fresh_window()
    };
    if tells_wait(call) {
        QueueView {
            by_model: queue.by_model.insert(
                model,
                wait_observed(window, call_wait(call)->0, at),
            ),
            global: wait_observed(queue.global, call_wait(call)->0, at),
        }
    } else {
        queue
    }
}

/// Queue-wait windows after some calls, one by one.
pub open spec fn calls_waited<S: Scalar>(
    queue: QueueView<S>,
    calls: Seq<CallRecord<S>>,
    at: Timestamp,
) -> QueueView<S>
    decreases calls.len(),
{
    if calls.len() == 0 {
        queue
    } else {
        call_waited(calls_waited(queue, calls.drop_last(), at), calls.last(), at)
    }
}

/// Whether any of some calls tells a queue wait.
pub open spec fn any_wait<S: Scalar>(calls: Seq<CallRecord<S>>) -> bool {
    exists|i: int| 0 <= i < calls.len() && tells_wait(#[trigger] calls[i])
}

impl<S: Scalar> DagCpmState<S> {
    /// The facts of the queue-wait windows.
    pub open spec fn queue(self) -> QueueView<S> {
        QueueView {
            by_model: views(self.queue_wait_by_model@),
            global: self.global_queue_wait@,
        }
    }

    /// Whether nothing was learned yet.
    pub open spec fn fresh(self) -> bool {
        &&& self.nodes@ == Map::<Seq<char>, DagCpmNodeState<S>>::empty()
        &&& self.queue_wait_by_model@ == Map::<Seq<char>, DagQueueWaitWindow<S>>::empty()
        &&& self.global_queue_wait@ == fresh_window::<S>()
    }

    /// The percentile of the model's own window, when it holds enough.
    pub open spec fn model_percentile(self, model: Option<Seq<char>>) -> Option<S> {
        match model {
            Some(m) if self.queue_wait_by_model@.contains_key(m) => window_percentile(
                self.queue_wait_by_model@[m]@,
            ),
            _ => None,
        }
    }

    /// The queue-delay horizon for a model: from its own window, else from the window across all
    /// models, else the default one; held to its bounds.
    pub open spec fn horizon(self, model: Option<Seq<char>>) -> S {
        let estimate = match self.model_percentile(model) {
            Some(value) => value,
            None => match window_percentile(self.global_queue_wait@) {
                Some(value) => value,
                None => S::ratio(DEFAULT_QUEUE_HORIZON_MS as int, 1),
            },
        };
        held_between(
            estimate,
            S::ratio(JUMP_UNIT_MS as int, 1),
            S::ratio(MAX_QUEUE_HORIZON_MS as int, 1),
        )
    }

    /// The queue-delay horizon for a node: LLM calls wait for their model, tool calls for any.
    pub open spec fn node_horizon(self, node: RunDagNode<S>) -> S {
        if node.kind == CallKind::Llm {
            self.horizon(Some(node.model_bucket@))
        } else {
            self.horizon(None)
        }
    }

    /// The queue-delay horizons for some nodes.
    pub open spec fn node_horizons(self, nodes: Seq<RunDagNode<S>>) -> Seq<S> {
        nodes.map_values(|node: RunDagNode<S>| self.node_horizon(node))
    }

    /// Create an empty DAG CPM state for one agent.
    pub fn new(agent_id: String) -> (r: Self)
        ensures
            r.agent_id == agent_id,
            r.fresh(),
    {
        DagCpmState {
            agent_id,
            nodes: KeyedTable::new(),
            queue_wait_by_model: KeyedTable::new(),
            global_queue_wait: DagQueueWaitWindow::default(),
        }
    }

    /// Adds some samples to the node summaries.
    pub fn update_from_samples(
        &mut self,
        samples: &Vec<DagCpmCallSample<S>>,
        updated_at: Timestamp,
    ) -> (r: bool)
        ensures
            final(self).nodes@ == samples_learned(old(self).nodes@, samples@, updated_at),
            *final(self) == (DagCpmState { nodes: final(self).nodes, ..*old(self) }),
            r == any_valid_sample(samples@),
    {
        let mut updated = false;
        let mut i: usize = 0;
        while i < samples.len()
            invariant
                i <= samples.len(),
                self.nodes@ == samples_learned(
                    old(self).nodes@,
                    samples@.take(i as int),
                    updated_at,
                ),
                *self == (DagCpmState { nodes: self.nodes, ..*old(self) }),
                updated == (exists|k: int| 0 <= k < i && valid_sample(#[trigger] samples@[k])),
            decreases samples.len() - i,
        {
            let sample = &samples[i];
            let ghost before = self.nodes@;
            proof {
                assert(samples@.take(i + 1).drop_last() =~= samples@.take(i as int));
                assert(samples@.take(i + 1).last() == *sample);
            }
            if is_valid_sample(sample) {
                let mut node = match self.nodes.remove(sample.structural_key.as_str()) {
                    Some(node) => node,
                    None => DagCpmNodeState::default(),
                };
                node.observe(
                    sample.duration_ms,
                    sample.slack_ms,
                    sample.criticality,
                    sample.queue_horizon_ms,
                    updated_at,
                );
                self.nodes.insert(sample.structural_key.clone(), node);
                updated = true;
                proof {
                    assert(self.nodes@ =~= sample_learned(before, *sample, updated_at));
                }
            }
            i += 1;
        }
        proof {
            assert(samples@.take(samples.len() as int) =~= samples@);
        }
        updated
    }

    /// Estimates the queue-delay horizon for a model.
    pub fn queue_horizon_for_model(&self, model: Option<&str>) -> (r: S)
        ensures
            r == self.horizon(
                match model {
                    Some(m) => Some(m@),
                    None => None,
                },
            ),
    {
        let own = match model {
            Some(m) => match self.queue_wait_by_model.get(m) {
                Some(window) => window.p90_if_enough(),
                None => None,
            },
            None => None,
        };
        let estimate = match own {
            Some(value) => value,
            None => match self.global_queue_wait.p90_if_enough() {
                Some(value) => value,
                None => S::of_ratio(DEFAULT_QUEUE_HORIZON_MS, 1),
            },
        };
        clamp(estimate, S::of_ratio(JUMP_UNIT_MS, 1), S::of_ratio(MAX_QUEUE_HORIZON_MS, 1))
    }

    fn compute_cpm_for_dag(&self, dag: &CompletedRunDag<S>) -> (r: Option<CompletedRunCpm<S>>)
        ensures
            r is Some <==> crate::dag::topology::in_range(dag.edges@, dag.nodes@.len() as int)
                && acyclic(dag.edges@),
            r matches Some(cpm) ==> cpm_of(
                *dag,
                self.horizon(None),
                self.node_horizons(dag.nodes@),
                cpm,
            ),
    {
        let global_horizon = self.queue_horizon_for_model(None);
        let mut horizons: Vec<S> = Vec::new();
        let mut i: usize = 0;
        while i < dag.nodes.len()
            invariant
                i <= dag.nodes.len(),
                global_horizon == self.horizon(None),
                horizons@ == self.node_horizons(dag.nodes@.take(i as int)),
            decreases dag.nodes.len() - i,
        {
            let node = &dag.nodes[i];
            horizons.push(
                if node.kind == CallKind::Llm {
                    self.queue_horizon_for_model(Some(node.model_bucket.as_str()))
                } else {
                    global_horizon
                },
            );
            proof {
                assert(horizons@ =~= self.node_horizons(dag.nodes@.take(i + 1)));
            }
            i += 1;
        }
        proof {
            assert(dag.nodes@.take(dag.nodes.len() as int) =~= dag.nodes@);
        }
        compute_cpm_with_horizons(dag, global_horizon, &horizons)
    }

    /// Adds the queue waits that a run's calls tell.
    pub fn observe_queue_waits(&mut self, run: &RunRecord<S>, updated_at: Timestamp) -> (r: bool)
        ensures
            final(self).queue() == calls_waited(old(self).queue(), run.calls@, updated_at),
            final(self).nodes == old(self).nodes,
            final(self).agent_id == old(self).agent_id,
            r == any_wait(run.calls@),
    {
        let mut updated = false;
        let mut i: usize = 0;
        while i < run.calls.len()
            invariant
                i <= run.calls.len(),
                self.queue() == calls_waited(
                    old(self).queue(),
                    run.calls@.take(i as int),
                    updated_at,
                ),
                self.nodes == old(self).nodes,
                self.agent_id == old(self).agent_id,
                updated == (exists|k: int| 0 <= k < i && tells_wait(#[trigger] run.calls@[k])),
            decreases run.calls.len() - i,
        {
            let call = &run.calls[i];
            let ghost before = self.queue();
            proof {
                assert(run.calls@.take(i + 1).drop_last() =~= run.calls@.take(i as int));
                assert(run.calls@.take(i + 1).last() == *call);
            }
            if call.kind == CallKind::Llm {
                if let Some(wait_ms) = backend_prefill_wait_ms(call) {
                    let model = call_model_bucket(call);
                    self.global_queue_wait.observe(wait_ms, updated_at);
                    let mut window = match self.queue_wait_by_model.remove(model.as_str()) {
                        Some(window) => window,
                        None => DagQueueWaitWindow::default(),
                    };
                    window.observe(wait_ms, updated_at);
                    self.queue_wait_by_model.insert(model, window);
                    updated = true;
                    proof {
                        assert(self.queue().by_model =~= call_waited(
                            before,
                            *call,
                            updated_at,
                        ).by_model);
                    }
                }
            }
            i += 1;
        }
        proof {
            assert(run.calls@.take(run.calls.len() as int) =~= run.calls@);
        }
        updated
    }

    /// Drops what was not updated for too long, and the stalest of what is too much.
    pub fn prune(&mut self, now: Timestamp) -> (r: bool)
        requires
            reaches_back(now, DAG_CPM_RETENTION_DAYS as int),
        ensures
            tidied(*old(self), *final(self), now),
            r == shrunk(*old(self), *final(self)),
    {
        let cutoff = now.days_before(DAG_CPM_RETENTION_DAYS);
        let initial_len: usize = self.nodes.len();
        let initial_models: usize = self.queue_wait_by_model.len();
        self.nodes.drop_before(cutoff);
        self.queue_wait_by_model.drop_before(cutoff);
        let _ = self.queue_wait_by_model.keep_freshest(DAG_CPM_MAX_QUEUE_MODELS);
        let pruned_nodes = self.nodes.keep_freshest(DAG_CPM_MAX_NODES);
        proof {
            assert(pruned_within(
                old(self).nodes@,
                self.nodes@,
                cutoff,
                DAG_CPM_MAX_NODES as nat,
            ));
            vstd::set_lib::lemma_len_subset(
                survivors(old(self).nodes@, cutoff).dom(),
                old(self).nodes@.dom(),
            );
        }
        self.nodes.len() != initial_len || self.queue_wait_by_model.len() != initial_models
            || pruned_nodes
    }

    /// Update compact aggregates from one completed run.
    ///
    /// Returns whether the run changed anything.
    pub fn update_from_run(&mut self, run: &RunRecord<S>, updated_at: Timestamp) -> (r: bool)
        requires
            reaches_back(updated_at, DAG_CPM_RETENTION_DAYS as int),
        ensures
            exists|dag: CompletedRunDag<S>| #[trigger]
                graph_of(*run, dag) && run_learned(
                    *old(self),
                    *run,
                    dag,
                    updated_at,
                    *final(self),
                    r,
                ),
    {
        let dag = build_completed_run_dag(run);
        proof {
            lemma_graph_in_range(dag.nodes@, dag.edges@);
            assert(graph_of(*run, dag));
        }
        let cpm = match self.compute_cpm_for_dag(&dag) {
            Some(cpm) => cpm,
            None => {
                return false;
            },
        };
        let samples = cpm_samples_from(&dag, &cpm);
        let updated = self.update_from_samples(&samples, updated_at);
        let observed_queue = self.observe_queue_waits(run, updated_at);
        let ghost learned = *self;
        let pruned = self.prune(updated_at);
        proof {
            assert(facts_learned(*old(self), *run, dag, cpm, samples@, updated_at, learned));
            assert(run_learned(
                *old(self),
                *run,
                dag,
                updated_at,
                *self,
                updated || observed_queue || pruned,
            ));
        }
        updated || observed_queue || pruned
    }
}

/// Whether `after` is what is left of `before` when what does not outlive a cutoff is dropped, and
/// of the rest no more than the `max` freshest stay.
pub open spec fn pruned_within<V: Aged>(
    before: Map<Seq<char>, V>,
    after: Map<Seq<char>, V>,
    cutoff: Timestamp,
    max: nat,
) -> bool {
    kept_freshest(survivors(before, cutoff), after, max)
}

/// Whether `after` is `before` without what was not updated for too long, and without the stalest of
/// what is too much.
pub open spec fn tidied<S: Scalar>(
    before: DagCpmState<S>,
    after: DagCpmState<S>,
    now: Timestamp,
) -> bool {
    &&& after.agent_id == before.agent_id
    &&& after.global_queue_wait == before.global_queue_wait
    &&& exists|cutoff: Timestamp|
        cutoff@ == days_earlier(now@, DAG_CPM_RETENTION_DAYS as int) && #[trigger]
            pruned_within(before.nodes@, after.nodes@, cutoff, DAG_CPM_MAX_NODES as nat)
            && pruned_within(
            before.queue_wait_by_model@,
            after.queue_wait_by_model@,
            cutoff,
            DAG_CPM_MAX_QUEUE_MODELS as nat,
        )
}

/// Whether `after` holds another number of node summaries or of models than `before`.
pub open spec fn shrunk<S: Scalar>(before: DagCpmState<S>, after: DagCpmState<S>) -> bool {
    ||| after.nodes@.dom().len() != before.nodes@.dom().len()
    ||| after.queue_wait_by_model@.dom().len() != before.queue_wait_by_model@.dom().len()
}

/// Whether `after` is `before` with the facts of a run added: the samples of its critical-path result
/// to the node summaries, the waits of its calls to the windows.
pub open spec fn facts_learned<S: Scalar>(
    before: DagCpmState<S>,
    run: RunRecord<S>,
    dag: CompletedRunDag<S>,
    cpm: CompletedRunCpm<S>,
    samples: Seq<DagCpmCallSample<S>>,
    at: Timestamp,
    after: DagCpmState<S>,
) -> bool {
    &&& cpm_of(dag, before.horizon(None), before.node_horizons(dag.nodes@), cpm)
    &&& samples_of(dag, cpm, samples)
    &&& after.agent_id == before.agent_id
    &&& after.nodes@ == samples_learned(before.nodes@, samples, at)
    &&& after.queue() == calls_waited(before.queue(), run.calls@, at)
}

/// Whether `after` is what a run with the graph `dag` makes of `before`, and `changed` tells whether
/// it changed anything: a cyclic graph is passed over, any other adds its facts.
pub open spec fn run_learned<S: Scalar>(
    before: DagCpmState<S>,
    run: RunRecord<S>,
    dag: CompletedRunDag<S>,
    at: Timestamp,
    after: DagCpmState<S>,
    changed: bool,
) -> bool {
    if acyclic(dag.edges@) {
        exists|
            cpm: CompletedRunCpm<S>,
            samples: Seq<DagCpmCallSample<S>>,
            learned: DagCpmState<S>,
        | #[trigger]
            facts_learned(before, run, dag, cpm, samples, at, learned) && tidied(
                learned,
                after,
                at,
            ) && changed == (any_valid_sample(samples) || any_wait(run.calls@)
                || shrunk(learned, after))
    } else {
        after == before && !changed
    }
}

fn is_valid_sample<S: Scalar>(sample: &DagCpmCallSample<S>) -> (r: bool)
    ensures
        r == valid_sample(*sample),
{
    is_usable(sample.duration_ms) && sample.slack_ms.is_finite() && sample.criticality.is_finite()
        && zero::<S>().le(sample.criticality) && sample.criticality.le(one::<S>())
        && sample.queue_horizon_ms.is_finite() && zero::<S>().lt(sample.queue_horizon_ms)
}

/// Returns the queue wait that the backend reported for a call, when it is usable.
pub fn backend_prefill_wait_ms<S: Scalar>(call: &CallRecord<S>) -> (r: Option<S>)
    ensures
        r == call_wait(*call),
{
    match &call.backend_timing {
        Some(timing) => match timing.prefill_wait_time_ms {
            Some(wait_ms) => if is_usable(wait_ms) {
                Some(wait_ms)
            } else {
                None
            },
            None => None,
        },
        None => None,
    }
}

/// A whole number held to the range of `i32`.
pub open spec fn held_to_i32(n: int) -> int {
    if n < i32::MIN {
        i32::MIN as int
    } else if n > i32::MAX {
        i32::MAX as int
    } else {
        n
    }
}

/// The share of a priority cap that a criticality gives, to the nearest step.
pub open spec fn priority_share<S: Scalar>(criticality: S, cap: int) -> int {
    held_to_i32(
        S::ratio(cap, 1).times(held_between(criticality, zero_of(), one_of())).rounded() as int,
    )
}

/// The priority that a criticality projects to: its share of the cap and an adjustment, held
/// between zero and the cap.
pub open spec fn projected_priority<S: Scalar>(criticality: S, adjustment: int, cap: int) -> int {
    let priority = priority_share(criticality, cap) + adjustment;
    if priority < 0 {
        0
    } else if priority > cap {
        cap
    } else {
        priority
    }
}

/// A priority cap held to the largest one.
pub open spec fn bounded_cap(cap: u32) -> int {
    if cap > MAX_DAG_PRIORITY_CAP {
        MAX_DAG_PRIORITY_CAP as int
    } else {
        cap as int
    }
}

/// Project learned CPM criticality onto the bounded backend priority scale.
///
/// `priority_adjustment` is the optional correction layer. It defaults to `0` until a separate
/// adjustment learner is wired.
pub fn project_priority_prior<S: Scalar>(
    state: &DagCpmNodeState<S>,
    priority_adjustment: i32,
    priority_cap: u32,
) -> (r: Option<u32>)
    ensures
        r is Some <==> state.criticality_ewma.finite(),
        r matches Some(priority) ==> priority == projected_priority(
            state.criticality_ewma,
            priority_adjustment as int,
            bounded_cap(priority_cap),
        ),
{
    let criticality = state.criticality_ewma;
    if !criticality.is_finite() {
        return None;
    }
    let cap: u32 = if priority_cap > MAX_DAG_PRIORITY_CAP {
        MAX_DAG_PRIORITY_CAP
    } else {
        priority_cap
    };
    let share: i64 = S::of_ratio(cap as i64, 1).mul(
        clamp(criticality, zero::<S>(), one::<S>()),
    ).round();
    let prior: i64 = if share < i32::MIN as i64 {
        i32::MIN as i64
    } else if share > i32::MAX as i64 {
        i32::MAX as i64
    } else {
        share
    };
    let priority: i64 = prior + priority_adjustment as i64;
    if priority < 0 {
        Some(0)
    } else if priority > cap as i64 {
        Some(cap)
    } else {
        Some(priority as u32)
    }
}

/// A projected priority never exceeds its cap, nor the largest one.
pub proof fn law_priority_within_cap<S: Scalar>(criticality: S, adjustment: int, cap: u32)
    ensures
        0 <= projected_priority(criticality, adjustment, bounded_cap(cap)) <= cap,
        projected_priority(criticality, adjustment, bounded_cap(cap)) <= MAX_DAG_PRIORITY_CAP,
{
}

/// Whether a state keeps to its limits.
pub open spec fn within_limits<S: Scalar>(state: DagCpmState<S>) -> bool {
    &&& state.nodes@.dom().len() <= DAG_CPM_MAX_NODES
    &&& state.queue_wait_by_model@.dom().len() <= DAG_CPM_MAX_QUEUE_MODELS
    &&& windows_within_limits(state.queue())
}

/// Whether every window keeps to its limit.
pub open spec fn windows_within_limits<S: Scalar>(queue: QueueView<S>) -> bool {
    &&& queue.global.samples.len() <= DAG_CPM_QUEUE_WAIT_WINDOW
    &&& forall|model: Seq<char>| #[trigger]
        queue.by_model.contains_key(model) ==> queue.by_model[model].samples.len()
            <= DAG_CPM_QUEUE_WAIT_WINDOW
}

proof fn lemma_calls_within_limits<S: Scalar>(
    queue: QueueView<S>,
    calls: Seq<CallRecord<S>>,
    at: Timestamp,
)
    requires
        windows_within_limits(queue),
    ensures
        windows_within_limits(calls_waited(queue, calls, at)),
    decreases calls.len(),
{
    if calls.len() > 0 {
        lemma_calls_within_limits(queue, calls.drop_last(), at);
    }
}

/// Whatever runs a state learns from, it keeps to its limits.
pub proof fn law_learning_keeps_limits<S: Scalar>(
    before: DagCpmState<S>,
    run: RunRecord<S>,
    dag: CompletedRunDag<S>,
    at: Timestamp,
    after: DagCpmState<S>,
    changed: bool,
)
    requires
        within_limits(before),
        run_learned(before, run, dag, at, after, changed),
    ensures
        within_limits(after),
{
    if acyclic(dag.edges@) {
        let (cpm, samples, learned) = choose|
            cpm: CompletedRunCpm<S>,
            samples: Seq<DagCpmCallSample<S>>,
            learned: DagCpmState<S>,
        | #[trigger]
            facts_learned(before, run, dag, cpm, samples, at, learned) && tidied(
                learned,
                after,
                at,
            );
        lemma_calls_within_limits(before.queue(), run.calls@, at);
        assert forall|model: Seq<char>| #[trigger]
            after.queue().by_model.contains_key(model) implies after.queue().by_model[model].samples.len()
            <= DAG_CPM_QUEUE_WAIT_WINDOW by {
            assert(after.queue_wait_by_model@.contains_key(model));
            assert(learned.queue_wait_by_model@.contains_key(model));
            assert(learned.queue().by_model.contains_key(model));
        }
    }
}

/// Learner that persists compact DAG CPM aggregates from completed runs.
pub struct DagCpmLearner {
    agent_id: String,
}

/// Whether `state` is what a learner for `agent` starts from: what was loaded, or a fresh state,
/// under the learner's agent.
pub open spec fn starts_from<S: Scalar>(
    agent: Seq<char>,
    loaded: Option<DagCpmState<S>>,
    state: DagCpmState<S>,
) -> bool {
    &&& state.agent_id@ == agent
    &&& match loaded {
        Some(l) => state == (DagCpmState { agent_id: state.agent_id, ..l }),
        None => state.fresh(),
    }
}

/// Whether `r` is what a learner for `agent` makes of a run: the state to store, or nothing when the
/// run changed nothing.
pub open spec fn run_processed<S: Scalar>(
    agent: Seq<char>,
    loaded: Option<DagCpmState<S>>,
    run: RunRecord<S>,
    at: Timestamp,
    r: Option<DagCpmState<S>>,
) -> bool {
    exists|before: DagCpmState<S>, dag: CompletedRunDag<S>, after: DagCpmState<S>|
        #![trigger starts_from(agent, loaded, before), run_learned(before, run, dag, at, after, r is Some)]
        starts_from(agent, loaded, before) && graph_of(run, dag) && run_learned(
            before,
            run,
            dag,
            at,
            after,
            r is Some,
        ) && (r matches Some(state) ==> state == after)
}

impl DagCpmLearner {
    /// The agent that the learner learns for.
    pub closed spec fn agent(self) -> Seq<char> {
        self.agent_id@
    }

    /// Create a new DAG CPM learner for one agent.
    pub fn new(agent_id: String) -> (r: Self)
        ensures
            r.agent() == agent_id@,
    {
        DagCpmLearner { agent_id }
    }

    /// Learns from a completed run, at a given instant.
    ///
    /// `loaded` is the state that was stored last. Returns the state to store and to serve from,
    /// unless the run changed nothing.
    pub fn process_run_at<S: Scalar>(
        &self,
        loaded: Option<DagCpmState<S>>,
        run: &RunRecord<S>,
        updated_at: Timestamp,
    ) -> (r: Option<DagCpmState<S>>)
        requires
            reaches_back(updated_at, DAG_CPM_RETENTION_DAYS as int),
        ensures
            run_processed(self.agent(), loaded, *run, updated_at, r),
    {
        let mut state = match loaded {
            Some(state) => state,
            None => DagCpmState::new(self.agent_id.clone()),
        };
        state.agent_id = self.agent_id.clone();
        let ghost before = state;
        proof {
            assert(starts_from(self.agent(), loaded, before));
        }
        let changed = state.update_from_run(run, updated_at);
        let ghost after = state;
        let r = if changed {
            Some(state)
        } else {
            None
        };
        proof {
            let dag = choose|dag: CompletedRunDag<S>| #[trigger]
                graph_of(*run, dag) && run_learned(
                    before,
                    *run,
                    dag,
                    updated_at,
                    after,
                    changed,
                );
            assert(run_learned(before, *run, dag, updated_at, after, r is Some));
        }
        r
    }

    /// Learns from a completed run, at its end, or now when it has none.
    ///
    /// `loaded` is the state that was stored last. Returns the state to store and to serve from,
    /// unless the run changed nothing.
    pub fn process_run<S: Scalar>(
        &self,
        loaded: Option<DagCpmState<S>>,
        run: &RunRecord<S>,
    ) -> (r: Option<DagCpmState<S>>)
        requires
            run.ended_at matches Some(t) ==> reaches_back(t, DAG_CPM_RETENTION_DAYS as int),
        ensures
            exists|at: Timestamp|
                (run.ended_at is Some ==> run.ended_at == Some(at)) && #[trigger]
                    run_processed(self.agent(), loaded, *run, at, r),
    {
        let updated_at = match run.ended_at {
            Some(ended_at) => ended_at,
            None => Timestamp::now(),
        };
        self.process_run_at(loaded, run, updated_at)
    }
}

} // verus!
