//! Closed-loop residual correction for DAG CPM priority hints.
use crate::dag::cpm::{cpm_call_samples, graph_of, sampled, DagCpmCallSample};
use crate::dag::graph::{call_model, call_model_name, CompletedRunDag};
use crate::dag::state::{any_wait, backend_prefill_wait_ms, call_wait, pruned_within, tells_wait};
use crate::fixed::{floor_root, is_floor_root, lemma_over_keeps_order, lemma_times_keeps_order, Fixed};
use crate::model::{bucket_of, model_bucket};
use crate::records::{CallKind, CallRecord, RunRecord};
use crate::scalar::{is_usable, usable, zero, zero_of, Scalar};
use crate::table::{views, Aged, KeyedTable};
use crate::time::{days_earlier, reaches_back, Timestamp};
use vstd::prelude::*;

verus! {

/// Days after which a summary that was not updated is dropped.
pub const PRIORITY_RESIDUAL_RETENTION_DAYS: u32 = 14;

/// Most contexts kept for an agent.
pub const PRIORITY_RESIDUAL_MAX_CONTEXTS: usize = 128;

/// Most models with a pressure kept for an agent.
pub const PRIORITY_RESIDUAL_MAX_MODELS: usize = 64;

/// Number of arms of a context.
pub const PRIORITY_RESIDUAL_ARM_COUNT: usize = 3;

/// Queue delay that counts as one unit of loss, in milliseconds.
pub const QUEUE_HARM_UNIT_MS: i64 = 1000;

/// Loss of spending the whole priority cap, in hundredths.
pub const PRIORITY_SPEND_WEIGHT_HUNDREDTHS: i64 = 5;

/// Weight that an observation keeps when another one comes, in hundredths.
pub const PRIORITY_RESIDUAL_DISCOUNT_HUNDREDTHS: i64 = 95;

/// Weight of exploration against loss, in halves.
pub const PRIORITY_RESIDUAL_UCB_EXPLORATION_HALVES: i64 = 1;

/// One over the smallest weight that exploration divides by.
pub const LEAST_WEIGHT_INVERSE: u64 = 4_503_599_627_370_496;

/// Residual action applied to the DAG CPM priority prior.
#[derive(Debug, Clone, Copy, PartialEq, Eq, Structural)]
pub enum PriorityResidualAction {
    /// Lower the structural prior by one queue-jump unit.
    Down,
    /// Keep the structural prior unchanged.
    Noop,
    /// Raise the structural prior by one queue-jump unit.
    Up,
}

/// The arm of an action.
pub open spec fn arm_of(action: PriorityResidualAction) -> int {
    match action {
        PriorityResidualAction::Down => 0,
        PriorityResidualAction::Noop => 1,
        PriorityResidualAction::Up => 2,
    }
}

/// The action of an arm.
pub open spec fn action_of(arm: u8) -> Option<PriorityResidualAction> {
    if arm == 0 {
        Some(PriorityResidualAction::Down)
    } else if arm == 1 {
        Some(PriorityResidualAction::Noop)
    } else if arm == 2 {
        Some(PriorityResidualAction::Up)
    } else {
        None
    }
}

impl PriorityResidualAction {
    /// Returns the action of an arm.
    pub fn from_arm(arm: u8) -> (r: Option<Self>)
        ensures
            r == action_of(arm),
    {
        match arm {
            0 => Some(PriorityResidualAction::Down),
            1 => Some(PriorityResidualAction::Noop),
            2 => Some(PriorityResidualAction::Up),
            _ => None,
        }
    }

    /// Returns the arm of the action.
    pub fn arm(self) -> (r: u8)
        ensures
            r == arm_of(self),
    {
        match self {
            PriorityResidualAction::Down => 0,
            PriorityResidualAction::Noop => 1,
            PriorityResidualAction::Up => 2,
        }
    }

    /// Returns the priority steps that the action adds.
    pub fn delta(self) -> (r: i32)
        ensures
            r == arm_of(self) - 1,
    {
        match self {
            PriorityResidualAction::Down => -1,
            PriorityResidualAction::Noop => 0,
            PriorityResidualAction::Up => 1,
        }
    }
}

/// An action is found again by its arm, and no other number is an arm.
pub proof fn law_arms_name_actions(action: PriorityResidualAction, arm: u8)
    ensures
        action_of(arm_of(action) as u8) == Some(action),
        action_of(arm) is Some <==> arm < PRIORITY_RESIDUAL_ARM_COUNT,
        action_of(arm) matches Some(a) ==> arm_of(a) == arm,
{
}

/// Running mean loss for one residual arm.
#[derive(Debug, PartialEq)]
pub struct PriorityResidualArmState<S: Scalar> {
    /// Number of observations for this arm.
    pub pulls: u32,
    /// Discounted observation weight used for exploration.
    pub effective_pulls: S,
    /// Mean observed loss. Lower is better.
    pub mean_loss: S,
}

impl<S: Scalar> Clone for PriorityResidualArmState<S> {
    fn clone(&self) -> (r: Self)
        ensures
            r == *self,
    {
        *self
    }
}

impl<S: Scalar> Copy for PriorityResidualArmState<S> {

}

/// An arm without observations.
pub open spec fn fresh_arm<S: Scalar>() -> PriorityResidualArmState<S> {
    PriorityResidualArmState { pulls: 0, effective_pulls: zero_of(), mean_loss: zero_of() }
}

impl<S: Scalar> Default for PriorityResidualArmState<S> {
    fn default() -> (r: Self)
        ensures
            r == fresh_arm::<S>(),
    {
        PriorityResidualArmState { pulls: 0, effective_pulls: zero(), mean_loss: zero() }
    }
}

impl<S: Scalar> PriorityResidualArmState<S> {
    /// The weight of an arm: its discounted weight when that is usable, else its pulls.
    pub open spec fn arm_weight(self) -> S {
        if self.effective_pulls.finite() && zero_of::<S>().below(self.effective_pulls) {
            self.effective_pulls
        } else {
            S::ratio(self.pulls as int, 1)
        }
    }

    /// An arm whose observations lost some weight.
    pub open spec fn discounted(self) -> PriorityResidualArmState<S> {
        PriorityResidualArmState {
            effective_pulls: self.effective_pulls.times(
                S::ratio(PRIORITY_RESIDUAL_DISCOUNT_HUNDREDTHS as int, 100),
            ),
            ..self
        }
    }

    /// An arm after one more observation: the loss itself when the arm had no weight, else the
    /// weighted mean.
    pub open spec fn loss_observed(self, loss: S) -> PriorityResidualArmState<S> {
        let weight = self.arm_weight();
        let grown = weight.plus(S::ratio(1, 1));
        PriorityResidualArmState {
            pulls: if self.pulls == u32::MAX {
                u32::MAX
            } else {
                (self.pulls + 1) as u32
            },
            mean_loss: if weight.at_most(zero_of()) && zero_of::<S>().at_most(weight) {
                loss
            } else {
                self.mean_loss.times(weight).plus(loss).over(grown)
            },
            effective_pulls: grown,
        }
    }

    /// The score of an arm: its mean loss, less what its exploration is worth.
    pub open spec fn arm_score(self, total: S) -> S {
        self.mean_loss.minus(
            S::ratio(PRIORITY_RESIDUAL_UCB_EXPLORATION_HALVES as int, 2).times(
                total.log_one_plus().over(
                    self.arm_weight().larger(S::ratio(1, LEAST_WEIGHT_INVERSE as int)),
                ).root(),
            ),
        )
    }

    /// Takes some weight from the observations.
    pub fn discount(&mut self)
        ensures
            *final(self) == old(self).discounted(),
    {
        self.effective_pulls = self.effective_pulls.mul(
            S::of_ratio(PRIORITY_RESIDUAL_DISCOUNT_HUNDREDTHS, 100),
        );
    }

    /// Adds an observation.
    pub fn observe(&mut self, loss: S)
        ensures
            *final(self) == old(self).loss_observed(loss),
    {
        let old_weight = self.selection_pulls();
        self.pulls = self.pulls.saturating_add(1);
        let new_weight = old_weight.add(S::of_ratio(1, 1));
        self.mean_loss = if old_weight.le(zero::<S>()) && zero::<S>().le(old_weight) {
            loss
        } else {
            self.mean_loss.mul(old_weight).add(loss).div(new_weight)
        };
        self.effective_pulls = new_weight;
    }

    /// Scores the arm for selection. Lower is better.
    pub fn ucb_loss_score(&self, total_effective_pulls: S) -> (r: S)
        ensures
            r == self.arm_score(total_effective_pulls),
    {
        let exploration = total_effective_pulls.ln_1p().div(
            self.selection_pulls().max_of(S::of_ratio(1, LEAST_WEIGHT_INVERSE)),
        ).sqrt();
        self.mean_loss.sub(
            S::of_ratio(PRIORITY_RESIDUAL_UCB_EXPLORATION_HALVES, 2).mul(exploration),
        )
    }

    /// Returns the weight of the arm.
    pub fn selection_pulls(&self) -> (r: S)
        ensures
            r == self.arm_weight(),
    {
        if self.effective_pulls.is_finite() && zero::<S>().lt(self.effective_pulls) {
            self.effective_pulls
        } else {
            S::of_ratio(self.pulls as i64, 1)
        }
    }
}

/// Loss summaries for one residual context.
#[derive(Debug, PartialEq)]
pub struct PriorityResidualContextState<S: Scalar> {
    /// Arm summaries. Indexes are `down=0`, `noop=1`, `up=2`.
    pub arms: [PriorityResidualArmState<S>; PRIORITY_RESIDUAL_ARM_COUNT],
    /// Last update timestamp for retention and staleness checks.
    pub last_updated_at: Option<Timestamp>,
    /// Total observations incorporated into this context.
    pub total_pulls: u32,
}

/// The facts of a residual context.
#[verifier::ext_equal]
pub struct ContextView<S: Scalar> {
    /// Arm summaries.
    pub arms: Seq<PriorityResidualArmState<S>>,
    /// Last update.
    pub updated: Option<Timestamp>,
    /// Total observations.
    pub total_pulls: u32,
}

impl<S: Scalar> View for PriorityResidualContextState<S> {
    type V = ContextView<S>;

    open spec fn view(&self) -> ContextView<S> {
        ContextView {
            arms: self.arms@,
            updated: self.last_updated_at,
            total_pulls: self.total_pulls,
        }
    }
}

impl<S: Scalar> Aged for PriorityResidualContextState<S> {
    open spec fn updated(self) -> Option<Timestamp> {
        self.last_updated_at
    }

    open spec fn seen(self) -> nat {
        self.total_pulls as nat
    }

    fn last_updated(&self) -> (r: Option<Timestamp>) {
        self.last_updated_at
    }

    fn weight(&self) -> (r: usize) {
        self.total_pulls as usize
    }
}

/// A context without observations.
pub open spec fn fresh_context<S: Scalar>() -> ContextView<S> {
    ContextView {
        arms: seq![fresh_arm(), fresh_arm(), fresh_arm()],
        updated: None,
        total_pulls: 0,
    }
}

impl<S: Scalar> Default for PriorityResidualContextState<S> {
    fn default() -> (r: Self)
        ensures
            r@ == fresh_context::<S>(),
    {
        let arm: PriorityResidualArmState<S> = PriorityResidualArmState::default();
        let r = PriorityResidualContextState {
            arms: [arm, arm, arm],
            last_updated_at: None,
            total_pulls: 0,
        };
        proof {
            assert(r@.arms =~= fresh_context::<S>().arms);
        }
        r
    }
}

/// A context after one more observation: every arm loses weight, the pulled one takes the loss.
pub open spec fn context_observed<S: Scalar>(
    context: ContextView<S>,
    action: PriorityResidualAction,
    loss: S,
    at: Timestamp,
) -> ContextView<S> {
    let discounted = context.arms.map_values(|arm: PriorityResidualArmState<S>| arm.discounted());
    let pulled = arm_of(action);
    ContextView {
        arms: discounted.update(pulled, discounted[pulled].loss_observed(loss)),
        updated: Some(at),
        total_pulls: if context.total_pulls == u32::MAX {
            u32::MAX
        } else {
            (context.total_pulls + 1) as u32
        },
    }
}

/// The weight of all arms together.
pub open spec fn total_weight<S: Scalar>(arms: Seq<PriorityResidualArmState<S>>) -> S {
    zero_of::<S>().plus(arms[0].arm_weight()).plus(arms[1].arm_weight()).plus(arms[2].arm_weight())
}

/// The arm with the least score, the first of them when there are several.
pub open spec fn best_arm<S: Scalar>(
    arms: Seq<PriorityResidualArmState<S>>,
    total: S,
) -> PriorityResidualAction {
    let down = arms[0].arm_score(total).place();
    let noop = arms[1].arm_score(total).place();
    let up = arms[2].arm_score(total).place();
    if down <= noop && down <= up {
        PriorityResidualAction::Down
    } else if noop <= up {
        PriorityResidualAction::Noop
    } else {
        PriorityResidualAction::Up
    }
}

/// The action that a context selects: one never tried before, keeping the prior first, then raising
/// it, then lowering it; after that the one with the best arm.
pub open spec fn selected_action<S: Scalar>(arms: Seq<PriorityResidualArmState<S>>) -> PriorityResidualAction {
    let total = total_weight(arms);
    if arms[1].pulls == 0 {
        PriorityResidualAction::Noop
    } else if arms[2].pulls == 0 {
        PriorityResidualAction::Up
    } else if arms[0].pulls == 0 {
        PriorityResidualAction::Down
    } else if total.at_most(zero_of()) || !total.finite() {
        PriorityResidualAction::Noop
    } else {
        best_arm(arms, total)
    }
}

impl<S: Scalar> PriorityResidualContextState<S> {
    /// Adds an observation.
    pub fn observe(&mut self, action: PriorityResidualAction, loss: S, updated_at: Timestamp)
        ensures
            final(self)@ == context_observed(old(self)@, action, loss, updated_at),
    {
        let mut down = self.arms[0];
        let mut noop = self.arms[1];
        let mut up = self.arms[2];
        down.discount();
        noop.discount();
        up.discount();
        match action {
            PriorityResidualAction::Down => down.observe(loss),
            PriorityResidualAction::Noop => noop.observe(loss),
            PriorityResidualAction::Up => up.observe(loss),
        }
        self.arms = [down, noop, up];
        self.total_pulls = self.total_pulls.saturating_add(1);
        self.last_updated_at = Some(updated_at);
        proof {
            assert(self@.arms =~= context_observed(old(self)@, action, loss, updated_at).arms);
        }
    }

    /// Selects an action.
    pub fn select_action(&self) -> (r: PriorityResidualAction)
        ensures
            r == selected_action(self.arms@),
    {
        if self.arms[1].pulls == 0 {
            return PriorityResidualAction::Noop;
        }
        if self.arms[2].pulls == 0 {
            return PriorityResidualAction::Up;
        }
        if self.arms[0].pulls == 0 {
            return PriorityResidualAction::Down;
        }
        let total_effective_pulls = zero::<S>().add(self.arms[0].selection_pulls()).add(
            self.arms[1].selection_pulls(),
        ).add(self.arms[2].selection_pulls());
        if total_effective_pulls.le(zero::<S>()) || !total_effective_pulls.is_finite() {
            return PriorityResidualAction::Noop;
        }
        let down = self.arms[0].ucb_loss_score(total_effective_pulls);
        let noop = self.arms[1].ucb_loss_score(total_effective_pulls);
        let up = self.arms[2].ucb_loss_score(total_effective_pulls);
        if down.not_after(noop) && down.not_after(up) {
            PriorityResidualAction::Down
        } else if noop.not_after(up) {
            PriorityResidualAction::Noop
        } else {
            PriorityResidualAction::Up
        }
    }
}

/// Latest observed Dynamo pressure for a model.
#[derive(Debug, PartialEq)]
pub struct PressureState<S: Scalar> {
    /// Latest per-request Dynamo prefill/admission wait in milliseconds.
    pub prefill_wait_time_ms: S,
    /// Last update timestamp for retention and staleness checks.
    pub last_updated_at: Option<Timestamp>,
}

impl<S: Scalar> Clone for PressureState<S> {
    fn clone(&self) -> (r: Self)
        ensures
            r == *self,
    {
        *self
    }
}

impl<S: Scalar> Copy for PressureState<S> {

}

impl<S: Scalar> Default for PressureState<S> {
    fn default() -> (r: Self)
        ensures
            r == (PressureState { prefill_wait_time_ms: zero_of::<S>(), last_updated_at: None }),
    {
        PressureState { prefill_wait_time_ms: zero(), last_updated_at: None }
    }
}

impl<S: Scalar> Aged for PressureState<S> {
    open spec fn updated(self) -> Option<Timestamp> {
        self.last_updated_at
    }

    open spec fn seen(self) -> nat {
        0
    }

    fn last_updated(&self) -> (r: Option<Timestamp>) {
        self.last_updated_at
    }

    fn weight(&self) -> (r: usize) {
        0
    }
}

/// Request-time residual decision.
#[derive(Debug)]
pub struct PriorityResidualDecision {
    /// Context key used for feedback attribution.
    pub key: String,
    /// Selected residual action.
    pub action: PriorityResidualAction,
    /// Priority delta applied to the DAG CPM prior.
    pub delta: i32,
}

/// The band of a criticality.
pub open spec fn criticality_band_of<S: Scalar>(criticality: S) -> Option<Seq<char>> {
    if !criticality.finite() {
        None
    } else if S::ratio(3, 4).at_most(criticality) {
        Some("high"@)
    } else if S::ratio(33, 100).at_most(criticality) {
        Some("medium"@)
    } else if zero_of::<S>().at_most(criticality) {
        Some("low"@)
    } else {
        None
    }
}

/// The band of a queue wait.
pub open spec fn pressure_band_of<S: Scalar>(wait: S) -> Option<Seq<char>> {
    if !wait.finite() || wait.below(zero_of()) {
        None
    } else if S::ratio(1000, 1).at_most(wait) {
        Some("high"@)
    } else if S::ratio(250, 1).at_most(wait) {
        Some("moderate"@)
    } else {
        Some("low"@)
    }
}

/// The key of a context.
pub open spec fn context_key<S: Scalar>(criticality: S, wait: S, model: Seq<char>) -> Option<
    Seq<char>,
> {
    match (criticality_band_of(criticality), pressure_band_of(wait)) {
        (Some(crit), Some(pressure)) => Some(
            "crit:"@ + crit + "|pressure:"@ + pressure + "|model:"@ + model,
        ),
        _ => None,
    }
}

/// Returns the band of a criticality.
pub fn criticality_band<S: Scalar>(criticality: S) -> (r: Option<&'static str>)
    ensures
        match criticality_band_of(criticality) {
            Some(band) => r is Some && r->0@ == band,
            None => r is None,
        },
{
    if !criticality.is_finite() {
        return None;
    }
    if S::of_ratio(3, 4).le(criticality) {
        Some("high")
    } else if S::of_ratio(33, 100).le(criticality) {
        Some("medium")
    } else if zero::<S>().le(criticality) {
        Some("low")
    } else {
        None
    }
}

/// Returns the band of a queue wait.
pub fn pressure_band<S: Scalar>(prefill_wait_ms: S) -> (r: Option<&'static str>)
    ensures
        match pressure_band_of(prefill_wait_ms) {
            Some(band) => r is Some && r->0@ == band,
            None => r is None,
        },
{
    if !prefill_wait_ms.is_finite() || prefill_wait_ms.lt(zero::<S>()) {
        return None;
    }
    if S::of_ratio(1000, 1).le(prefill_wait_ms) {
        Some("high")
    } else if S::of_ratio(250, 1).le(prefill_wait_ms) {
        Some("moderate")
    } else {
        Some("low")
    }
}

/// Builds the key of a context.
pub fn residual_context_key<S: Scalar>(criticality: S, prefill_wait_ms: S, model: &str) -> (r:
    Option<String>)
    ensures
        match context_key(criticality, prefill_wait_ms, model@) {
            Some(key) => r is Some && r->0@ == key,
            None => r is None,
        },
{
    match (criticality_band(criticality), pressure_band(prefill_wait_ms)) {
        (Some(crit), Some(pressure)) => {
            let mut key = "crit:".to_owned();
            key.append(crit);
            key.append("|pressure:");
            key.append(pressure);
            key.append("|model:");
            key.append(model);
            Some(key)
        },
        _ => None,
    }
}

/// The loss of a call: the queue wait that its slack did not cover, and what it spent of its
/// priority cap.
pub open spec fn residual_loss<S: Scalar>(wait: S, slack: S, emitted: u32, cap: u32) -> Option<S> {
    if !wait.finite() || !slack.finite() || cap == 0 {
        None
    } else {
        let harm = wait.minus(slack.larger(zero_of())).larger(zero_of());
        let spent = if emitted <= cap {
            emitted
        } else {
            cap
        };
        let spend = S::ratio(spent as int, 1).over(S::ratio(cap as int, 1));
        Some(
            harm.over(S::ratio(QUEUE_HARM_UNIT_MS as int, 1)).plus(
                S::ratio(PRIORITY_SPEND_WEIGHT_HUNDREDTHS as int, 100).times(spend),
            ),
        )
    }
}

/// Computes the loss of a call.
pub fn priority_residual_loss<S: Scalar>(
    prefill_wait_ms: S,
    slack_ms: S,
    emitted_priority: u32,
    priority_cap: u32,
) -> (r: Option<S>)
    ensures
        r == residual_loss(prefill_wait_ms, slack_ms, emitted_priority, priority_cap),
{
    if !prefill_wait_ms.is_finite() || !slack_ms.is_finite() || priority_cap == 0 {
        return None;
    }
    let queue_harm_ms = prefill_wait_ms.sub(slack_ms.max_of(zero::<S>())).max_of(zero::<S>());
    let spent: u32 = if emitted_priority <= priority_cap {
        emitted_priority
    } else {
        priority_cap
    };
    let priority_spend = S::of_ratio(spent as i64, 1).div(S::of_ratio(priority_cap as i64, 1));
    Some(
        queue_harm_ms.div(S::of_ratio(QUEUE_HARM_UNIT_MS, 1)).add(
            S::of_ratio(PRIORITY_SPEND_WEIGHT_HUNDREDTHS, 100).mul(priority_spend),
        ),
    )
}

/// Learned residual-priority state for one agent.
#[derive(Debug)]
pub struct PriorityResidualState<S: Scalar> {
    /// Agent identifier the state belongs to.
    pub agent_id: String,
    /// Loss summaries keyed by coarse scheduler context.
    pub contexts: KeyedTable<PriorityResidualContextState<S>>,
    /// Latest observed Dynamo pressure by normalized model name.
    pub pressure_by_model: KeyedTable<PressureState<S>>,
}

/// The facts of a residual-priority state.
#[verifier::ext_equal]
pub struct ResidualView<S: Scalar> {
    /// Loss summaries by context.
    pub contexts: Map<Seq<char>, ContextView<S>>,
    /// Latest pressure by model.
    pub pressure: Map<Seq<char>, PressureState<S>>,
}

impl<S: Scalar> View for PriorityResidualState<S> {
    type V = ResidualView<S>;

    open spec fn view(&self) -> ResidualView<S> {
        ResidualView { contexts: views(self.contexts@), pressure: self.pressure_by_model@ }
    }
}

/// The decision for a request, as the key of its context and the action: none without a pressure for
/// the model or a key; the prior is kept in a context that nothing is known of.
pub open spec fn decided<S: Scalar>(
    state: ResidualView<S>,
    criticality: S,
    model_name: Seq<char>,
) -> Option<(Seq<char>, PriorityResidualAction)> {
    let model = bucket_of(model_name);
    if !state.pressure.contains_key(model) {
        None
    } else {
        match context_key(criticality, state.pressure[model].prefill_wait_time_ms, model) {
            Some(key) => Some(
                (
                    key,
                    if state.contexts.contains_key(key) {
                        selected_action(state.contexts[key].arms)
                    } else {
                        PriorityResidualAction::Noop
                    },
                ),
            ),
            None => None,
        }
    }
}

/// A state after one more pressure; one that is not usable leaves it as it is.
pub open spec fn pressure_observed<S: Scalar>(
    state: ResidualView<S>,
    model_name: Seq<char>,
    wait: S,
    at: Timestamp,
) -> ResidualView<S> {
    if usable(wait) {
        ResidualView {
            pressure: state.pressure.insert(
                bucket_of(model_name),
                PressureState { prefill_wait_time_ms: wait, last_updated_at: Some(at) },
            ),
            ..state
        }
    } else {
        state
    }
}

/// A state after one more loss in a context; an unknown arm or a loss that is not usable leaves it
/// as it is.
pub open spec fn loss_attributed<S: Scalar>(
    state: ResidualView<S>,
    key: Seq<char>,
    arm: u8,
    loss: S,
    at: Timestamp,
) -> ResidualView<S> {
    let context = if state.contexts.contains_key(key) {
        state.contexts[key]
    } else {
        fresh_context()
    };
    match action_of(arm) {
        Some(action) if usable(loss) => ResidualView {
            contexts: state.contexts.insert(key, context_observed(context, action, loss, at)),
            ..state
        },
        _ => state,
    }
}

impl<S: Scalar> PriorityResidualState<S> {
    /// Whether nothing was learned yet.
    pub open spec fn fresh(self) -> bool {
        &&& self.contexts@ == Map::<Seq<char>, PriorityResidualContextState<S>>::empty()
        &&& self.pressure_by_model@ == Map::<Seq<char>, PressureState<S>>::empty()
    }

    /// Create an empty residual-priority state for one agent.
    pub fn new(agent_id: String) -> (r: Self)
        ensures
            r.agent_id == agent_id,
            r.fresh(),
    {
        PriorityResidualState {
            agent_id,
            contexts: KeyedTable::new(),
            pressure_by_model: KeyedTable::new(),
        }
    }

    /// Select a residual action for a hot-path request.
    pub fn decision(&self, criticality: S, model_name: &str) -> (r: Option<
        PriorityResidualDecision,
    >)
        ensures
            match decided(self@, criticality, model_name@) {
                Some((key, action)) => r is Some && r->0.key@ == key && r->0.action == action
                    && r->0.delta == arm_of(action) - 1,
                None => r is None,
            },
    {
        let model = model_bucket(model_name);
        let pressure = match self.pressure_by_model.get(model.as_str()) {
            Some(pressure) => pressure,
            None => {
                return None;
            },
        };
        let key = match residual_context_key(
            criticality,
            pressure.prefill_wait_time_ms,
            model.as_str(),
        ) {
            Some(key) => key,
            None => {
                return None;
            },
        };
        let action = match self.contexts.get(key.as_str()) {
            Some(context) => context.select_action(),
            None => PriorityResidualAction::Noop,
        };
        Some(PriorityResidualDecision { key, action, delta: action.delta() })
    }

    /// Notes the latest pressure of a model.
    pub fn observe_pressure(
        &mut self,
        model_name: &str,
        prefill_wait_time_ms: S,
        updated_at: Timestamp,
    ) -> (r: bool)
        ensures
            final(self)@ == pressure_observed(
                old(self)@,
                model_name@,
                prefill_wait_time_ms,
                updated_at,
            ),
            final(self).agent_id == old(self).agent_id,
            final(self).contexts == old(self).contexts,
            r == usable(prefill_wait_time_ms),
    {
        if !is_usable(prefill_wait_time_ms) {
            return false;
        }
        let model = model_bucket(model_name);
        self.pressure_by_model.insert(
            model,
            PressureState { prefill_wait_time_ms, last_updated_at: Some(updated_at) },
        );
        true
    }

    /// Notes a loss in a context.
    pub fn observe_loss(&mut self, key: &str, arm: u8, loss: S, updated_at: Timestamp) -> (r: bool)
        ensures
            final(self)@ == loss_attributed(old(self)@, key@, arm, loss, updated_at),
            final(self).agent_id == old(self).agent_id,
            final(self).pressure_by_model == old(self).pressure_by_model,
            r == (action_of(arm) is Some && usable(loss)),
    {
        let action = match PriorityResidualAction::from_arm(arm) {
            Some(action) => action,
            None => {
                return false;
            },
        };
        if !is_usable(loss) {
            return false;
        }
        let mut context = match self.contexts.remove(key) {
            Some(context) => context,
            None => PriorityResidualContextState::default(),
        };
        context.observe(action, loss, updated_at);
        self.contexts.insert(key.to_owned(), context);
        proof {
            assert(self@.contexts =~= loss_attributed(
                old(self)@,
                key@,
                arm,
                loss,
                updated_at,
            ).contexts);
        }
        true
    }

    /// Drops what was not updated for too long, and the stalest of what is too much.
    pub fn prune(&mut self, now: Timestamp) -> (r: bool)
        requires
            reaches_back(now, PRIORITY_RESIDUAL_RETENTION_DAYS as int),
        ensures
            residual_tidied(*old(self), *final(self), now),
            r == residual_shrunk(*old(self), *final(self)),
    {
        let cutoff = now.days_before(PRIORITY_RESIDUAL_RETENTION_DAYS);
        let initial_contexts: usize = self.contexts.len();
        let initial_models: usize = self.pressure_by_model.len();
        self.contexts.drop_before(cutoff);
        self.pressure_by_model.drop_before(cutoff);
        let _ = self.contexts.keep_freshest(PRIORITY_RESIDUAL_MAX_CONTEXTS);
        let _ = self.pressure_by_model.keep_freshest(PRIORITY_RESIDUAL_MAX_MODELS);
        proof {
            assert(pruned_within(
                old(self).contexts@,
                self.contexts@,
                cutoff,
                PRIORITY_RESIDUAL_MAX_CONTEXTS as nat,
            ));
        }
        self.contexts.len() != initial_contexts || self.pressure_by_model.len() != initial_models
    }
}

/// Whether `after` is `before` without what was not updated for too long, and without the stalest of
/// what is too much.
pub open spec fn residual_tidied<S: Scalar>(
    before: PriorityResidualState<S>,
    after: PriorityResidualState<S>,
    now: Timestamp,
) -> bool {
    &&& after.agent_id == before.agent_id
    &&& exists|cutoff: Timestamp|
        cutoff@ == days_earlier(now@, PRIORITY_RESIDUAL_RETENTION_DAYS as int) && #[trigger]
            pruned_within(
                before.contexts@,
                after.contexts@,
                cutoff,
                PRIORITY_RESIDUAL_MAX_CONTEXTS as nat,
            ) && pruned_within(
            before.pressure_by_model@,
            after.pressure_by_model@,
            cutoff,
            PRIORITY_RESIDUAL_MAX_MODELS as nat,
        )
}

/// Whether `after` holds another number of contexts or of models than `before`.
pub open spec fn residual_shrunk<S: Scalar>(
    before: PriorityResidualState<S>,
    after: PriorityResidualState<S>,
) -> bool {
    ||| after.contexts@.dom().len() != before.contexts@.dom().len()
    ||| after.pressure_by_model@.dom().len() != before.pressure_by_model@.dom().len()
}

/// The slack of the last sample for a scope.
pub open spec fn scope_slack<S: Scalar>(samples: Seq<DagCpmCallSample<S>>, scope: u128) -> Option<S>
    decreases samples.len(),
{
    if samples.len() == 0 {
        None
    } else if samples.last().scope_uuid == scope {
        Some(samples.last().slack_ms)
    } else {
        scope_slack(samples.drop_last(), scope)
    }
}

/// What a call tells of the residual that was applied to it: the key of the context, the arm and
/// the loss.
pub open spec fn call_feedback<S: Scalar>(
    call: CallRecord<S>,
    samples: Seq<DagCpmCallSample<S>>,
) -> Option<(Seq<char>, u8, S)> {
    match (scope_slack(samples, call.scope_uuid), call.adaptive_hints, call_wait(call)) {
        (Some(slack), Some(hints), Some(wait)) => match (
            hints.selected_priority_residual_arm,
            hints.selected_priority_residual_key,
            hints.emitted_priority,
            hints.priority_cap,
        ) {
            (Some(arm), Some(key), Some(emitted), Some(cap)) => match residual_loss(
                wait,
                slack,
                emitted,
                cap,
            ) {
                Some(loss) => Some((key@, arm, loss)),
                None => None,
            },
            _ => None,
        },
        _ => None,
    }
}

/// A state after one more call: its queue wait is the latest pressure of its model, and its loss goes
/// to the context that it was decided in.
pub open spec fn call_absorbed<S: Scalar>(
    state: ResidualView<S>,
    call: CallRecord<S>,
    samples: Seq<DagCpmCallSample<S>>,
    at: Timestamp,
) -> ResidualView<S> {
    if !tells_wait(call) {
        state
    } else {
        let observed_at = match call.ended_at {
            Some(ended_at) => ended_at,
            None => at,
        };
        let pressed = pressure_observed(
            state,
            call_model(call),
            call_wait(call)->0,
            observed_at,
        );
        match call_feedback(call, samples) {
            Some((key, arm, loss)) => loss_attributed(pressed, key, arm, loss, observed_at),
            None => pressed,
        }
    }
}

/// A state after some calls, one by one.
pub open spec fn calls_absorbed<S: Scalar>(
    state: ResidualView<S>,
    calls: Seq<CallRecord<S>>,
    samples: Seq<DagCpmCallSample<S>>,
    at: Timestamp,
) -> ResidualView<S>
    decreases calls.len(),
{
    if calls.len() == 0 {
        state
    } else {
        call_absorbed(
            calls_absorbed(state, calls.drop_last(), samples, at),
            calls.last(),
            samples,
            at,
        )
    }
}

/// Finds the slack of the last sample for a scope.
fn find_slack<S: Scalar>(samples: &Vec<DagCpmCallSample<S>>, scope_uuid: u128) -> (r: Option<S>)
    ensures
        r == scope_slack(samples@, scope_uuid),
{
    let mut i: usize = samples.len();
    proof {
        assert(samples@.take(i as int) =~= samples@);
    }
    while i > 0
        invariant
            i <= samples.len(),
            scope_slack(samples@, scope_uuid) == scope_slack(samples@.take(i as int), scope_uuid),
        decreases i,
    {
        proof {
            assert(samples@.take(i as int).drop_last() =~= samples@.take(i - 1));
        }
        i -= 1;
        if samples[i].scope_uuid == scope_uuid {
            return Some(samples[i].slack_ms);
        }
    }
    None
}

/// Works out what a call tells of the residual that was applied to it.
fn residual_feedback<'a, S: Scalar>(
    call: &'a CallRecord<S>,
    samples: &Vec<DagCpmCallSample<S>>,
) -> (r: Option<(&'a str, u8, S)>)
    ensures
        match (call_feedback(*call, samples@), r) {
            (Some((key, arm, loss)), Some((k, a, l))) => k@ == key && a == arm && l == loss,
            (None, None) => true,
            _ => false,
        },
{
    let slack_ms = match find_slack(samples, call.scope_uuid) {
        Some(slack_ms) => slack_ms,
        None => {
            return None;
        },
    };
    let hints = match &call.adaptive_hints {
        Some(hints) => hints,
        None => {
            return None;
        },
    };
    let prefill_wait_ms = match backend_prefill_wait_ms(call) {
        Some(prefill_wait_ms) => prefill_wait_ms,
        None => {
            return None;
        },
    };
    match (
        hints.selected_priority_residual_arm,
        &hints.selected_priority_residual_key,
        hints.emitted_priority,
        hints.priority_cap,
    ) {
        (Some(arm), Some(key), Some(emitted_priority), Some(priority_cap)) => {
            match priority_residual_loss(prefill_wait_ms, slack_ms, emitted_priority, priority_cap) {
                Some(loss) => Some((key.as_str(), arm, loss)),
                None => None,
            }
        },
        _ => None,
    }
}

impl<S: Scalar> PriorityResidualState<S> {
    /// Adds what the calls of a run tell, given the samples of its critical-path result.
    pub fn absorb_calls(
        &mut self,
        calls: &Vec<CallRecord<S>>,
        samples: &Vec<DagCpmCallSample<S>>,
        updated_at: Timestamp,
    ) -> (r: bool)
        ensures
            final(self)@ == calls_absorbed(old(self)@, calls@, samples@, updated_at),
            final(self).agent_id == old(self).agent_id,
            r == any_wait(calls@),
    {
        let mut updated = false;
        let mut i: usize = 0;
        while i < calls.len()
            invariant
                i <= calls.len(),
                self@ == calls_absorbed(old(self)@, calls@.take(i as int), samples@, updated_at),
                self.agent_id == old(self).agent_id,
                updated == (exists|k: int| 0 <= k < i && tells_wait(#[trigger] calls@[k])),
            decreases calls.len() - i,
        {
            let call = &calls[i];
            proof {
                assert(calls@.take(i + 1).drop_last() =~= calls@.take(i as int));
                assert(calls@.take(i + 1).last() == *call);
            }
            if call.kind == CallKind::Llm {
                if let Some(prefill_wait_ms) = backend_prefill_wait_ms(call) {
                    let observed_at = match call.ended_at {
                        Some(ended_at) => ended_at,
                        None => updated_at,
                    };
                    let model = call_model_name(call);
                    let _ = self.observe_pressure(model, prefill_wait_ms, observed_at);
                    updated = true;
                    if let Some((key, arm, loss)) = residual_feedback(call, samples) {
                        let _ = self.observe_loss(key, arm, loss, observed_at);
                    }
                }
            }
            i += 1;
        }
        proof {
            assert(calls@.take(calls.len() as int) =~= calls@);
        }
        updated
    }
}

/// Learner that updates residual-priority feedback from completed runs.
pub struct PriorityResidualLearner {
    agent_id: String,
}

/// Whether `state` is what a learner for `agent` starts from: what was loaded, or a fresh state,
/// under the learner's agent.
pub open spec fn residual_starts_from<S: Scalar>(
    agent: Seq<char>,
    loaded: Option<PriorityResidualState<S>>,
    state: PriorityResidualState<S>,
) -> bool {
    &&& state.agent_id@ == agent
    &&& match loaded {
        Some(l) => state == (PriorityResidualState { agent_id: state.agent_id, ..l }),
        None => state.fresh(),
    }
}

/// Whether `samples` are the samples of a run under the default horizon, none for a cyclic graph.
pub open spec fn run_samples<S: Scalar>(
    run: RunRecord<S>,
    samples: Seq<DagCpmCallSample<S>>,
) -> bool {
    exists|dag: CompletedRunDag<S>| #[trigger]
        graph_of(run, dag) && (sampled(dag, Some(samples)) || (sampled(dag, None) && samples.len()
            == 0))
}

/// Whether `r` is what a learner for `agent` makes of a run: the state to store, or nothing when the
/// run changed nothing.
pub open spec fn residual_processed<S: Scalar>(
    agent: Seq<char>,
    loaded: Option<PriorityResidualState<S>>,
    run: RunRecord<S>,
    at: Timestamp,
    r: Option<PriorityResidualState<S>>,
) -> bool {
    exists|
        before: PriorityResidualState<S>,
        samples: Seq<DagCpmCallSample<S>>,
        absorbed: PriorityResidualState<S>,
        after: PriorityResidualState<S>,
    |
        #![trigger residual_starts_from(agent, loaded, before), run_samples(run, samples), residual_tidied(absorbed, after, at)]
        residual_starts_from(agent, loaded, before) && run_samples(run, samples) && absorbed@
            == calls_absorbed(before@, run.calls@, samples, at) && absorbed.agent_id
            == before.agent_id && residual_tidied(absorbed, after, at) && r is Some == (any_wait(
            run.calls@,
        ) || residual_shrunk(absorbed, after)) && (r matches Some(state) ==> state == after)
}

impl PriorityResidualLearner {
    /// The agent that the learner learns for.
    pub closed spec fn agent(self) -> Seq<char> {
        self.agent_id@
    }

    /// Create a new residual-priority learner for one agent.
    pub fn new(agent_id: String) -> (r: Self)
        ensures
            r.agent() == agent_id@,
    {
        PriorityResidualLearner { agent_id }
    }

    /// Learns from a completed run, at a given instant.
    ///
    /// `loaded` is the state that was stored last. Returns the state to store and to serve from,
    /// unless the run changed nothing.
    pub fn process_run_at<S: Scalar>(
        &self,
        loaded: Option<PriorityResidualState<S>>,
        run: &RunRecord<S>,
        updated_at: Timestamp,
    ) -> (r: Option<PriorityResidualState<S>>)
        requires
            reaches_back(updated_at, PRIORITY_RESIDUAL_RETENTION_DAYS as int),
        ensures
            residual_processed(self.agent(), loaded, *run, updated_at, r),
    {
        let mut state = match loaded {
            Some(state) => state,
            None => PriorityResidualState::new(self.agent_id.clone()),
        };
        state.agent_id = self.agent_id.clone();
        let ghost before = state;
        let samples = match cpm_call_samples(run) {
            Some(samples) => samples,
            None => Vec::new(),
        };
        proof {
            assert(residual_starts_from(self.agent(), loaded, before));
            assert(run_samples(*run, samples@));
        }
        let updated = state.absorb_calls(&run.calls, &samples, updated_at);
        let ghost absorbed = state;
        let pruned = state.prune(updated_at);
        let ghost after = state;
        let r = if updated || pruned {
            Some(state)
        } else {
            None
        };
        proof {
            assert(residual_tidied(absorbed, after, updated_at));
        }
        r
    }

    /// Learns from a completed run, at its end, or now when it has none.
    ///
    /// `loaded` is the state that was stored last. Returns the state to store and to serve from,
    /// unless the run changed nothing.
    pub fn process_run<S: Scalar>(
        &self,
        loaded: Option<PriorityResidualState<S>>,
        run: &RunRecord<S>,
    ) -> (r: Option<PriorityResidualState<S>>)
        requires
            run.ended_at matches Some(t) ==> reaches_back(
                t,
                PRIORITY_RESIDUAL_RETENTION_DAYS as int,
            ),
        ensures
            exists|at: Timestamp|
                (run.ended_at is Some ==> run.ended_at == Some(at)) && #[trigger]
                    residual_processed(self.agent(), loaded, *run, at, r),
    {
        let updated_at = match run.ended_at {
            Some(ended_at) => ended_at,
            None => Timestamp::now(),
        };
        self.process_run_at(loaded, run, updated_at)
    }
}

/// After a run was learned from, no more contexts and models are kept than fit.
pub proof fn law_residual_keeps_limits<S: Scalar>(
    before: PriorityResidualState<S>,
    after: PriorityResidualState<S>,
    now: Timestamp,
)
    requires
        residual_tidied(before, after, now),
    ensures
        after.contexts@.dom().len() <= PRIORITY_RESIDUAL_MAX_CONTEXTS,
        after.pressure_by_model@.dom().len() <= PRIORITY_RESIDUAL_MAX_MODELS,
{
}

/// Every action is tried in a context before any is selected for its score.
pub proof fn law_untried_actions_first<S: Scalar>(
    arms: Seq<PriorityResidualArmState<S>>,
    action: PriorityResidualAction,
)
    requires
        arms.len() == PRIORITY_RESIDUAL_ARM_COUNT,
        arms[arm_of(action)].pulls == 0,
    ensures
        arms[arm_of(selected_action(arms))].pulls == 0,
{
}

/// Once every action was tried, the one selected has the least score.
pub proof fn law_selected_action_scores_least<S: Scalar>(
    arms: Seq<PriorityResidualArmState<S>>,
    other: PriorityResidualAction,
)
    requires
        arms.len() == PRIORITY_RESIDUAL_ARM_COUNT,
        forall|i: int| 0 <= i < arms.len() ==> (#[trigger] arms[i]).pulls > 0,
        total_weight(arms).finite(),
        !total_weight(arms).at_most(zero_of()),
    ensures
        arms[arm_of(selected_action(arms))].arm_score(total_weight(arms)).place()
            <= arms[arm_of(other)].arm_score(total_weight(arms)).place(),
{
    assert(arms[0].pulls > 0 && arms[1].pulls > 0 && arms[2].pulls > 0);
}

/// In exact arithmetic a loss is never negative. A longer wait, less slack or a higher priority make
/// it no smaller.
#[verifier::spinoff_prover]
pub proof fn law_loss_is_ordered(
    wait: Fixed,
    slack: Fixed,
    emitted: u32,
    longer_wait: Fixed,
    less_slack: Fixed,
    higher: u32,
    cap: u32,
)
    requires
        wait.finite() && longer_wait.finite() && wait.millionths <= longer_wait.millionths,
        slack.finite() && less_slack.finite() && less_slack.millionths <= slack.millionths,
        emitted <= higher,
        cap > 0,
    ensures
        ({
            let low = residual_loss(wait, slack, emitted, cap);
            let high = residual_loss(longer_wait, less_slack, higher, cap);
            &&& low is Some && high is Some
            &&& 0 <= low->0.millionths <= high->0.millionths
        }),
{
    let a: int = if emitted <= cap {
        emitted as int
    } else {
        cap as int
    };
    let b: int = if higher <= cap {
        higher as int
    } else {
        cap as int
    };
    let unit = Fixed::ratio(QUEUE_HARM_UNIT_MS as int, 1);
    let weight = Fixed::ratio(PRIORITY_SPEND_WEIGHT_HUNDREDTHS as int, 100);
    let all = Fixed::ratio(cap as int, 1);
    let (spent, spent_more) = (Fixed::ratio(a, 1), Fixed::ratio(b, 1));
    let harm = wait.minus(slack.larger(zero_of())).larger(zero_of());
    let worse = longer_wait.minus(less_slack.larger(zero_of())).larger(zero_of());
    assert(unit.millionths == 1_000_000_000);
    assert(weight.millionths == 50_000);
    assert(all.millionths == cap * 1_000_000);
    assert(spent.millionths == a * 1_000_000);
    assert(spent_more.millionths == b * 1_000_000);
    assert(zero_of::<Fixed>().millionths == 0);
    assert(0 <= harm.millionths <= worse.millionths);
    lemma_over_keeps_order(harm, worse, unit);
    lemma_over_keeps_order(spent, spent_more, all);
    lemma_times_keeps_order(weight, spent.over(all), spent_more.over(all));
    let low = residual_loss(wait, slack, emitted, cap);
    let high = residual_loss(longer_wait, less_slack, higher, cap);
    assert(low == Some(harm.over(unit).plus(weight.times(spent.over(all)))));
    assert(high == Some(worse.over(unit).plus(weight.times(spent_more.over(all)))));
}

/// In exact arithmetic a loss is a thousandth of the milliseconds of queue wait that the slack did not
/// cover, and a twentieth of the share of the cap that was spent, up to the rounding of the divisions.
/// There is one exactly when the measurements are finite and the cap is not zero.
#[verifier::spinoff_prover]
pub proof fn law_loss_is_harm_and_spend(wait: Fixed, slack: Fixed, emitted: u32, cap: u32)
    ensures
        residual_loss(wait, slack, emitted, cap) is Some <==> {
            &&& i64::MIN < wait.millionths < i64::MAX
            &&& i64::MIN < slack.millionths < i64::MAX
            &&& cap > 0
        },
        residual_loss(wait, slack, emitted, cap) matches Some(loss) ==> {
            let covered: int = if slack.millionths > 0 {
                slack.millionths as int
            } else {
                0
            };
            let harm: int = if wait.millionths > covered {
                wait.millionths - covered
            } else {
                0
            };
            let spent: int = if emitted > cap {
                cap as int
            } else {
                emitted as int
            };
            let exact = harm * cap + 50_000_000 * spent;
            1000 * (loss.millionths * cap) <= exact < 1000 * ((loss.millionths + 3) * cap)
        },
{
    if residual_loss(wait, slack, emitted, cap) is Some {
        let covered: int = if slack.millionths > 0 {
            slack.millionths as int
        } else {
            0
        };
        let harm: int = if wait.millionths > covered {
            wait.millionths - covered
        } else {
            0
        };
        let spent: int = if emitted > cap {
            cap as int
        } else {
            emitted as int
        };
        let c = cap as int;
        let unit = Fixed::ratio(QUEUE_HARM_UNIT_MS as int, 1);
        let weight = Fixed::ratio(PRIORITY_SPEND_WEIGHT_HUNDREDTHS as int, 100);
        let all = Fixed::ratio(c, 1);
        let part = Fixed::ratio(spent, 1);
        let delay = wait.minus(slack.larger(zero_of())).larger(zero_of());
        assert(zero_of::<Fixed>().millionths == 0);
        assert(unit.millionths == 1_000_000_000);
        assert(weight.millionths == 50_000);
        assert(all.millionths == c * 1_000_000);
        assert(part.millionths == spent * 1_000_000);
        assert(delay.millionths == harm);
        let h = harm * 1_000_000 / 1_000_000_000;
        assert(h == harm / 1000);
        assert(delay.over(unit).millionths == h);
        let m = (spent * 1_000_000) * 1_000_000 / (c * 1_000_000);
        assert(0 <= m <= 1_000_000 && m * c <= spent * 1_000_000 < (m + 1) * c)
            by (nonlinear_arith)
            requires
                m == (spent * 1_000_000) * 1_000_000 / (c * 1_000_000),
                0 <= spent <= c,
                c > 0,
        ;
        assert(part.over(all).millionths == m);
        let w = 50_000 * m / 1_000_000;
        assert(w == m / 20);
        assert(weight.times(part.over(all)).millionths == w);
        let loss = residual_loss(wait, slack, emitted, cap)->0;
        assert(loss.millionths == h + w);
        assert(1000 * ((h + w) * c) <= harm * c + 50_000_000 * spent < 1000 * ((h + w + 3) * c))
            by (nonlinear_arith)
            requires
                1000 * h <= harm < 1000 * (h + 1),
                20 * w <= m < 20 * (w + 1),
                m * c <= spent * 1_000_000 < (m + 1) * c,
                c > 0,
        ;
    }
}

/// A loss goes to the arm that it is told for, in the context that it is told for: that arm is pulled
/// once more, and the other arms keep their pulls and mean losses. Nothing happens to other contexts
/// or to the pressures.
pub proof fn law_loss_goes_to_its_arm<S: Scalar>(
    state: ResidualView<S>,
    key: Seq<char>,
    arm: u8,
    loss: S,
    at: Timestamp,
    i: int,
    other: Seq<char>,
)
    requires
        loss.finite() && S::ratio(0, 1).at_most(loss),
        arm < 3,
        0 <= i < 3,
        state.contexts.contains_key(key) ==> state.contexts[key].arms.len() == 3,
        other != key,
    ensures
        ({
            let after = loss_attributed(state, key, arm, loss, at);
            let known = state.contexts.contains_key(key);
            let context = after.contexts[key];
            &&& after.contexts.contains_key(key)
            &&& context.arms.len() == 3
            &&& context.updated == Some(at)
            &&& !known ==> context.total_pulls == 1 && context.arms[i].pulls == if i == arm {
                1int
            } else {
                0
            }
            &&& known && state.contexts[key].total_pulls < u32::MAX ==> context.total_pulls
                == state.contexts[key].total_pulls + 1
            &&& known && i == arm && state.contexts[key].arms[i].pulls < u32::MAX
                ==> context.arms[i].pulls == state.contexts[key].arms[i].pulls + 1
            &&& known && i != arm ==> context.arms[i].pulls == state.contexts[key].arms[i].pulls
                && context.arms[i].mean_loss == state.contexts[key].arms[i].mean_loss
            &&& after.pressure == state.pressure
            &&& after.contexts.contains_key(other) <==> state.contexts.contains_key(other)
            &&& state.contexts.contains_key(other) ==> after.contexts[other]
                == state.contexts[other]
        }),
{
}

/// In exact arithmetic, the first loss of an arm is its mean loss. A later one moves the mean to the
/// weighted mean of the two, up to the rounding of the operations, where what was observed before
/// keeps nineteen twentieths of its weight and the loss has the weight one.
pub proof fn law_losses_are_averaged(
    context: ContextView<Fixed>,
    action: PriorityResidualAction,
    loss: Fixed,
    at: Timestamp,
    arm: int,
)
    requires
        context.arms.len() == 3,
        action is Down ==> arm == 0,
        action is Noop ==> arm == 1,
        action is Up ==> arm == 2,
        0 <= loss.millionths <= 1_000_000_000_000,
        0 <= context.arms[arm].mean_loss.millionths <= 1_000_000_000_000,
        0 <= context.arms[arm].effective_pulls.millionths <= 1_000_000_000_000,
    ensures
        ({
            let before = context.arms[arm];
            let after = context_observed(context, action, loss, at).arms[arm];
            let weight = before.effective_pulls.millionths * 95 / 100;
            let mean = after.mean_loss.millionths as int;
            let sum = before.mean_loss.millionths * weight + loss.millionths * 1_000_000;
            &&& before.pulls == 0 && weight == 0 ==> after.mean_loss == loss
                && after.effective_pulls.millionths == 1_000_000
            &&& weight > 0 ==> {
                &&& after.effective_pulls.millionths == weight + 1_000_000
                &&& mean * (weight + 1_000_000) <= sum
                &&& sum - weight - 2_000_000 < mean * (weight + 1_000_000)
            }
        }),
{
    let before = context.arms[arm];
    let discounted = before.discounted();
    let e = before.effective_pulls.millionths as int;
    let w = e * 95 / 100;
    assert(Fixed::ratio(95, 100).millionths == 950_000);
    assert(e * 950_000 / 1_000_000 == e * 95 / 100);
    assert(discounted.effective_pulls.millionths == w);
    assert(Fixed::ratio(1, 1).millionths == 1_000_000);
    assert(zero_of::<Fixed>().millionths == 0);
    let after = context_observed(context, action, loss, at).arms[arm];
    assert(after == discounted.loss_observed(loss));
    if w > 0 {
        let m = before.mean_loss.millionths as int;
        let l = loss.millionths as int;
        let a = m * w / 1_000_000;
        assert(0 <= a <= 1_000_000_000_000_000_000 && a * 1_000_000 <= m * w < (a + 1) * 1_000_000)
            by (nonlinear_arith)
            requires
                a == m * w / 1_000_000,
                0 <= m <= 1_000_000_000_000,
                0 <= w <= 1_000_000_000_000,
        ;
        let q = (a + l) * 1_000_000 / (w + 1_000_000);
        assert(0 <= q <= a + l && q * (w + 1_000_000) <= (a + l) * 1_000_000 < (q + 1) * (w
            + 1_000_000)) by (nonlinear_arith)
            requires
                q == (a + l) * 1_000_000 / (w + 1_000_000),
                0 <= a,
                0 <= l,
                0 < w,
        ;
        assert(after.mean_loss.millionths == q);
        assert((q + 1) * (w + 1_000_000) == q * (w + 1_000_000) + (w + 1_000_000))
            by (nonlinear_arith);
    } else {
        assert(before.pulls == 0 ==> Fixed::ratio(before.pulls as int, 1).millionths == 0);
    }
}

/// A context tries to keep the prior before it tries to raise it, and to raise it before it tries to
/// lower it.
pub proof fn law_untried_actions_in_order<S: Scalar>(arms: Seq<PriorityResidualArmState<S>>)
    requires
        arms.len() == 3,
    ensures
        arms[1].pulls == 0 ==> selected_action(arms) is Noop,
        arms[1].pulls > 0 && arms[2].pulls == 0 ==> selected_action(arms) is Up,
        arms[1].pulls > 0 && arms[2].pulls > 0 && arms[0].pulls == 0 ==> selected_action(
            arms,
        ) is Down,
{
}

/// In exact arithmetic, what an arm scores below its mean loss is half of a square root: of the
/// logarithm of one more than the weight of all arms, over the weight of the arm.
pub proof fn law_score_explores(arm: PriorityResidualArmState<Fixed>, total: Fixed)
    requires
        0 < arm.effective_pulls.millionths < i64::MAX,
        0 <= arm.mean_loss.millionths,
        0 <= total.log_one_plus().millionths <= 1_000_000_000_000,
        i64::MAX > total.log_one_plus().over(arm.effective_pulls).millionths,
    ensures
        ({
            let gap = arm.mean_loss.millionths - arm.arm_score(total).millionths;
            let weight = arm.effective_pulls.millionths as int;
            let log = total.log_one_plus().millionths as int;
            &&& gap >= 0
            &&& 4 * (gap * gap) * weight <= 1_000_000_000_000 * log
            &&& 1_000_000_000_000 * log < (4 * ((gap + 1) * (gap + 1)) + 1_000_000) * weight
        }),
{
    let w = arm.effective_pulls.millionths as int;
    let l = total.log_one_plus().millionths as int;
    assert(zero_of::<Fixed>().millionths == 0);
    assert(Fixed::ratio(1, LEAST_WEIGHT_INVERSE as int).millionths == 0);
    assert(arm.arm_weight().larger(Fixed::ratio(1, LEAST_WEIGHT_INVERSE as int))
        == arm.effective_pulls);
    let x = l * 1_000_000 / w;
    assert(0 <= x && x * w <= l * 1_000_000 < (x + 1) * w) by (nonlinear_arith)
        requires
            x == l * 1_000_000 / w,
            0 <= l,
            w > 0,
    ;
    let quotient = total.log_one_plus().over(arm.effective_pulls);
    assert(quotient.millionths == x);
    let r = quotient.root().millionths as int;
    lemma_root(quotient);
    assert(r * r <= x * 1_000_000 < (r + 1) * (r + 1));
    assert(Fixed::ratio(1, 2).millionths == 500_000);
    assert(500_000 * r / 1_000_000 == r / 2);
    let gap = r / 2;
    assert(r <= 0x1_0000_0000_0000) by (nonlinear_arith)
        requires
            r * r <= x * 1_000_000,
            x < 0x8000_0000_0000_0000,
    ;
    assert(arm.arm_score(total).millionths == arm.mean_loss.millionths - gap);
    assert(4 * (gap * gap) * w <= 1_000_000_000_000 * l) by (nonlinear_arith)
        requires
            0 <= 2 * gap <= r,
            r * r <= x * 1_000_000,
            x * w <= l * 1_000_000,
            w > 0,
    ;
    assert(1_000_000_000_000 * l < (4 * ((gap + 1) * (gap + 1)) + 1_000_000) * w)
        by (nonlinear_arith)
        requires
            0 <= r < 2 * gap + 2,
            x * 1_000_000 < (r + 1) * (r + 1),
            l * 1_000_000 < (x + 1) * w,
            w > 0,
    ;
}

proof fn lemma_root(x: Fixed)
    ensures
        ({
            let r = x.root().millionths as int;
            &&& 0 <= r
            &&& 0 <= x.millionths ==> r * r <= x.millionths * 1_000_000 < (r + 1) * (r + 1)
        }),
{
    if x.millionths > 0 {
        let n = x.millionths * 1_000_000;
        assert(n < (n + 1) * (n + 1)) by (nonlinear_arith)
            requires
                n > 0,
        ;
        let r = lemma_root_exists(n, n);
        assert(is_floor_root(n, r));
        let chosen = floor_root(n);
        assert(is_floor_root(n, chosen));
        assert(chosen < i64::MAX) by (nonlinear_arith)
            requires
                chosen * chosen <= n,
                n < 0x8000_0000_0000_0000 * 1_000_000,
        ;
        assert(x.root().millionths == chosen);
    } else {
        assert(0int * 0 <= 0 < (0int + 1) * (0 + 1));
    }
}

proof fn lemma_root_exists(n: int, high: int) -> (r: int)
    requires
        0 <= n,
        0 <= high,
        n < (high + 1) * (high + 1),
    ensures
        is_floor_root(n, r),
    decreases high,
{
    if high * high <= n {
        high
    } else {
        assert(high > 0) by (nonlinear_arith)
            requires
                high * high > n,
                n >= 0,
                high >= 0,
        ;
        assert(high - 1 + 1 == high);
        lemma_root_exists(n, high - 1)
    }
}

/// In exact arithmetic, of actions that were all tried and weigh the same, the one selected has the
/// least mean loss.
pub proof fn law_least_loss_is_selected(
    arms: Seq<PriorityResidualArmState<Fixed>>,
    other: PriorityResidualAction,
    weight: Fixed,
)
    requires
        arms.len() == 3,
        forall|i: int|
            0 <= i < 3 ==> (#[trigger] arms[i]).pulls > 0 && arms[i].effective_pulls == weight && 0
                <= arms[i].mean_loss.millionths <= 1_000_000_000_000,
        0 < weight.millionths <= 1_000_000_000_000,
    ensures
        ({
            let chosen = selected_action(arms);
            let index = |a: PriorityResidualAction|
                match a {
                    PriorityResidualAction::Down => 0int,
                    PriorityResidualAction::Noop => 1,
                    PriorityResidualAction::Up => 2,
                };
            arms[index(chosen)].mean_loss.millionths <= arms[index(other)].mean_loss.millionths
        }),
{
    assert(arms[0].pulls > 0 && arms[1].pulls > 0 && arms[2].pulls > 0);
    assert(zero_of::<Fixed>().millionths == 0);
    let total = total_weight(arms);
    assert(total.millionths == 3 * weight.millionths);
    law_selected_action_scores_least(arms, other);
    let chosen = selected_action(arms);
    let share = Fixed::ratio(1, 2).times(
        total.log_one_plus().over(
            weight.larger(Fixed::ratio(1, LEAST_WEIGHT_INVERSE as int)),
        ).root(),
    );
    let root = total.log_one_plus().over(
        weight.larger(Fixed::ratio(1, LEAST_WEIGHT_INVERSE as int)),
    ).root();
    assert(Fixed::ratio(1, 2).millionths == 500_000);
    lemma_root(total.log_one_plus().over(
        weight.larger(Fixed::ratio(1, LEAST_WEIGHT_INVERSE as int)),
    ));
    let r = root.millionths as int;
    assert(500_000 * r / 1_000_000 == r / 2) by (nonlinear_arith)
        requires
            r >= 0,
    ;
    assert(share.millionths == r / 2);
    assert(arms[arm_of(chosen)].arm_score(total) == arms[arm_of(chosen)].mean_loss.minus(share));
    assert(arms[arm_of(other)].arm_score(total) == arms[arm_of(other)].mean_loss.minus(share));
}

/// What a call tells of the residual that was applied to it reaches the arm and the context that its
/// feedback names: its loss is that of its own queue wait, the slack of its own scope, and the
/// priority and the cap that it was given.
pub proof fn law_feedback_reaches_its_arm<S: Scalar>(
    state: ResidualView<S>,
    calls: Seq<CallRecord<S>>,
    samples: Seq<DagCpmCallSample<S>>,
    at: Timestamp,
    wait: S,
    j: int,
    key: String,
    arm: u8,
    emitted: u32,
    cap: u32,
)
    requires
        calls.len() > 0,
        calls.last().kind == CallKind::Llm,
        calls.last().backend_timing matches Some(timing) && timing.prefill_wait_time_ms == Some(
            wait,
        ),
        wait.finite() && S::ratio(0, 1).at_most(wait),
        0 <= j < samples.len(),
        samples[j].scope_uuid == calls.last().scope_uuid,
        forall|k: int|
            j < k < samples.len() ==> (#[trigger] samples[k]).scope_uuid
                != calls.last().scope_uuid,
        calls.last().adaptive_hints matches Some(hints) && {
            &&& hints.selected_priority_residual_arm == Some(arm)
            &&& hints.selected_priority_residual_key == Some(key)
            &&& hints.emitted_priority == Some(emitted)
            &&& hints.priority_cap == Some(cap)
        },
    ensures
        ({
            let before = calls_absorbed(state, calls.drop_last(), samples, at);
            let after = calls_absorbed(state, calls, samples, at);
            let seen = match calls.last().ended_at {
                Some(ended_at) => ended_at,
                None => at,
            };
            match residual_loss(wait, samples[j].slack_ms, emitted, cap) {
                Some(loss) => after.contexts == loss_attributed(
                    before,
                    key@,
                    arm,
                    loss,
                    seen,
                ).contexts,
                None => after.contexts == before.contexts,
            }
        }),
{
    lemma_last_slack(samples, calls.last().scope_uuid, j);
}

pub(crate) proof fn lemma_last_slack<S: Scalar>(samples: Seq<DagCpmCallSample<S>>, scope: u128, j: int)
    requires
        0 <= j < samples.len(),
        samples[j].scope_uuid == scope,
        forall|k: int| j < k < samples.len() ==> (#[trigger] samples[k]).scope_uuid != scope,
    ensures
        scope_slack(samples, scope) == Some(samples[j].slack_ms),
    decreases samples.len(),
{
    if j < samples.len() - 1 {
        assert(samples[samples.len() - 1].scope_uuid != scope);
        lemma_last_slack(samples.drop_last(), scope, j);
    }
}

/// A decision is made in the context of the criticality, the pressure of the model and the model: the
/// one that its arms select where the context is known, and to keep the prior where it is not. There is
/// none for a model without a pressure.
pub proof fn law_decisions_follow_the_arms<S: Scalar>(
    state: ResidualView<S>,
    criticality: S,
    model: Seq<char>,
)
    ensures
        !state.pressure.contains_key(bucket_of(model)) ==> decided(state, criticality, model)
            is None,
        decided(state, criticality, model) matches Some((key, action)) ==> {
            &&& state.contexts.contains_key(key) ==> action == selected_action(
                state.contexts[key].arms,
            )
            &&& !state.contexts.contains_key(key) ==> action is Noop
            &&& Some(key) == context_key(
                criticality,
                state.pressure[bucket_of(model)].prefill_wait_time_ms,
                bucket_of(model),
            )
        },
{
}

/// In exact arithmetic, in a context where every action was tried and all weigh the same, the decision
/// is the action with the least mean loss.
pub proof fn law_decisions_avoid_losses(
    state: ResidualView<Fixed>,
    criticality: Fixed,
    model: Seq<char>,
    key: Seq<char>,
    action: PriorityResidualAction,
    other: PriorityResidualAction,
    weight: Fixed,
)
    requires
        decided(state, criticality, model) == Some((key, action)),
        state.contexts.contains_key(key),
        state.contexts[key].arms.len() == 3,
        forall|i: int|
            0 <= i < 3 ==> (#[trigger] state.contexts[key].arms[i]).pulls > 0
                && state.contexts[key].arms[i].effective_pulls == weight && 0
                <= state.contexts[key].arms[i].mean_loss.millionths <= 1_000_000_000_000,
        0 < weight.millionths <= 1_000_000_000_000,
    ensures
        ({
            let arms = state.contexts[key].arms;
            let index = |a: PriorityResidualAction|
                match a {
                    PriorityResidualAction::Down => 0int,
                    PriorityResidualAction::Noop => 1,
                    PriorityResidualAction::Up => 2,
                };
            arms[index(action)].mean_loss.millionths <= arms[index(other)].mean_loss.millionths
        }),
{
    law_least_loss_is_selected(state.contexts[key].arms, other, weight);
}

/// In exact arithmetic, the arms of a context that are not pulled keep nineteen twentieths of their
/// weight. An arm without a weight of its own weighs as much as it was pulled.
pub proof fn law_idle_arms_lose_weight(
    context: ContextView<Fixed>,
    action: PriorityResidualAction,
    loss: Fixed,
    at: Timestamp,
    i: int,
)
    requires
        context.arms.len() == 3,
        0 <= i < 3,
        action is Down ==> i != 0,
        action is Noop ==> i != 1,
        action is Up ==> i != 2,
        0 <= context.arms[i].effective_pulls.millionths <= 1_000_000_000_000,
    ensures
        ({
            let before = context.arms[i];
            let after = context_observed(context, action, loss, at).arms[i];
            &&& after.effective_pulls.millionths == before.effective_pulls.millionths * 95 / 100
            &&& after.pulls == before.pulls
            &&& after.mean_loss == before.mean_loss
            &&& before.effective_pulls.millionths == 0 ==> before.arm_weight().millionths
                == before.pulls * 1_000_000
            &&& before.effective_pulls.millionths > 0 ==> before.arm_weight()
                == before.effective_pulls
        }),
{
    let e = context.arms[i].effective_pulls.millionths as int;
    assert(Fixed::ratio(95, 100).millionths == 950_000);
    assert(e * 950_000 / 1_000_000 == e * 95 / 100);
    assert(zero_of::<Fixed>().millionths == 0);
}

} // verus!
