use adaptive::order::Ordered;
use adaptive::priority_residual::{
    criticality_band, pressure_band, priority_residual_loss, residual_context_key, PressureState,
    PriorityResidualAction, PriorityResidualArmState, PriorityResidualContextState,
    PriorityResidualLearner, PriorityResidualState, PRIORITY_RESIDUAL_MAX_CONTEXTS,
    PRIORITY_RESIDUAL_MAX_MODELS, PRIORITY_RESIDUAL_RETENTION_DAYS,
};
use adaptive::records::{BackendTiming, CallAdaptiveHints, CallKind, CallRecord, RunRecord};
use adaptive::scalar::Scalar;
use adaptive::time::Timestamp;

/// Machine floating point as the number type.
#[derive(Debug, Clone, Copy, PartialEq)]
struct F(f64);

impl Ordered for F {
    fn not_after(self, other: F) -> bool {
        self.0.total_cmp(&other.0).is_le()
    }
}

impl Scalar for F {
    fn of_ratio(num: i64, den: u64) -> F {
        F(num as f64 / den as f64)
    }
    fn of_float_bits(bits: u64) -> F {
        F(f64::from_bits(bits))
    }
    fn infinity() -> F {
        F(f64::INFINITY)
    }
    fn add(self, rhs: F) -> F {
        F(self.0 + rhs.0)
    }
    fn sub(self, rhs: F) -> F {
        F(self.0 - rhs.0)
    }
    fn mul(self, rhs: F) -> F {
        F(self.0 * rhs.0)
    }
    fn div(self, rhs: F) -> F {
        F(self.0 / rhs.0)
    }
    fn max_of(self, rhs: F) -> F {
        F(self.0.max(rhs.0))
    }
    fn min_of(self, rhs: F) -> F {
        F(self.0.min(rhs.0))
    }
    fn lt(self, rhs: F) -> bool {
        self.0 < rhs.0
    }
    fn le(self, rhs: F) -> bool {
        self.0 <= rhs.0
    }
    fn is_finite(self) -> bool {
        self.0.is_finite()
    }
    fn round(self) -> i64 {
        self.0.round() as i64
    }
    fn ln_1p(self) -> F {
        F(self.0.ln_1p())
    }
    fn sqrt(self) -> F {
        F(self.0.sqrt())
    }
}

fn after(base: Timestamp, seconds: i64) -> Timestamp {
    Timestamp::new(base.seconds() + seconds, base.subsec_nanos()).unwrap()
}

fn agent_state() -> PriorityResidualState<F> {
    PriorityResidualState::new("agent".to_string())
}

#[test]
fn residual_decision_uses_observed_pressure_and_criticality() {
    let now = Timestamp::now();
    let mut state = agent_state();
    assert!(state.decision(F(0.9), "nvidia/Nemotron").is_none());

    assert!(state.observe_pressure("nvidia/Nemotron", F(1200.0), now));
    let decision = state.decision(F(0.9), "nvidia/Nemotron").unwrap();
    assert_eq!(
        decision.key,
        "crit:high|pressure:high|model:nvidia-nemotron"
    );
    assert_eq!(decision.action, PriorityResidualAction::Noop);

    assert!(state.observe_loss(&decision.key, decision.action.arm(), F(2.0), now));
    let decision = state.decision(F(0.9), "nvidia/Nemotron").unwrap();
    assert_eq!(decision.action, PriorityResidualAction::Up);
}

#[test]
fn residual_decision_uses_ucb_exploration_after_initial_samples() {
    let now = Timestamp::now();
    let mut state = agent_state();
    assert!(state.observe_pressure("model", F(1200.0), now));
    let key = "crit:high|pressure:high|model:model".to_string();
    let mut context = PriorityResidualContextState {
        total_pulls: 201,
        last_updated_at: Some(now),
        ..PriorityResidualContextState::default()
    };
    context.arms[PriorityResidualAction::Down.arm() as usize] = PriorityResidualArmState {
        pulls: 100,
        effective_pulls: F(100.0),
        mean_loss: F(1.0),
    };
    context.arms[PriorityResidualAction::Noop.arm() as usize] = PriorityResidualArmState {
        pulls: 100,
        effective_pulls: F(100.0),
        mean_loss: F(0.9),
    };
    context.arms[PriorityResidualAction::Up.arm() as usize] = PriorityResidualArmState {
        pulls: 1,
        effective_pulls: F(1.0),
        mean_loss: F(0.92),
    };
    state.contexts.insert(key, context);

    let decision = state.decision(F(0.9), "model").unwrap();

    assert_eq!(decision.action, PriorityResidualAction::Up);
}

#[test]
fn residual_loss_charges_only_queue_wait_beyond_slack_plus_priority_spend() {
    let loss = priority_residual_loss(F(3000.0), F(5000.0), 3, 5).unwrap();
    assert!((loss.0 - 0.03).abs() < 1e-9);

    let loss = priority_residual_loss(F(3000.0), F(500.0), 3, 5).unwrap();
    assert!((loss.0 - 2.53).abs() < 1e-9);
}

fn feedback_call(now: Timestamp) -> CallRecord<F> {
    CallRecord {
        kind: CallKind::Llm,
        name: "nemotron".to_string(),
        started_at: now,
        ended_at: Some(after(now, 2)),
        scope_uuid: uuid::Uuid::new_v4().as_u128(),
        backend_timing: Some(BackendTiming {
            prefill_wait_time_ms: Some(F(1200.0)),
            total_time_ms: Some(F(2000.0)),
            ..BackendTiming::default()
        }),
        adaptive_hints: Some(CallAdaptiveHints {
            selected_priority_residual_arm: Some(PriorityResidualAction::Noop.arm()),
            selected_priority_residual_key: Some(
                "crit:high|pressure:high|model:nemotron".to_string(),
            ),
            emitted_priority: Some(3),
            priority_cap: Some(5),
            ..CallAdaptiveHints::default()
        }),
        ..CallRecord::default()
    }
}

fn one_run(now: Timestamp, calls: Vec<CallRecord<F>>) -> RunRecord<F> {
    RunRecord {
        id: uuid::Uuid::new_v4().as_u128(),
        agent_id: "agent".to_string(),
        started_at: now,
        ended_at: Some(after(now, 2)),
        calls,
    }
}

#[test]
fn priority_residual_learner_persists_real_dynamo_timing_feedback() {
    let now = Timestamp::now();
    let run = one_run(now, vec![feedback_call(now)]);
    let learner = PriorityResidualLearner::new("agent".to_string());

    let state = learner.process_run(None, &run).unwrap();

    let context = state.contexts.get("crit:high|pressure:high|model:nemotron").unwrap();
    let arm = context.arms[PriorityResidualAction::Noop.arm() as usize];
    assert_eq!(arm.pulls, 1);
    assert!((arm.mean_loss.0 - 1.23).abs() < 1e-9);
    assert_eq!(
        state.pressure_by_model.get("nemotron").unwrap().prefill_wait_time_ms,
        F(1200.0)
    );
}

#[test]
fn run_without_timing_teaches_nothing() {
    let now = Timestamp::now();
    let learner = PriorityResidualLearner::new("agent".to_string());
    let mut silent = feedback_call(now);
    silent.backend_timing = None;
    assert!(learner.process_run(None, &one_run(now, vec![silent])).is_none());
    assert!(learner.process_run(None, &one_run(now, vec![])).is_none());
}

#[test]
fn feedback_without_an_arm_only_teaches_the_pressure() {
    let now = Timestamp::now();
    let learner = PriorityResidualLearner::new("agent".to_string());
    let mut call = feedback_call(now);
    call.adaptive_hints = None;
    let state = learner.process_run(None, &one_run(now, vec![call])).unwrap();
    assert!(state.contexts.is_empty());
    assert_eq!(state.pressure_by_model.len(), 1);
    assert_eq!(
        state.pressure_by_model.get("nemotron").unwrap().last_updated_at,
        Some(after(now, 2))
    );
}

#[test]
fn arms_and_actions_name_each_other() {
    for arm in 0..3u8 {
        let action = PriorityResidualAction::from_arm(arm).unwrap();
        assert_eq!(action.arm(), arm);
        assert_eq!(action.delta(), i32::from(arm) - 1);
    }
    assert_eq!(PriorityResidualAction::from_arm(3), None);
}

#[test]
fn bands_have_sharp_edges() {
    assert_eq!(criticality_band(F(0.75)), Some("high"));
    assert_eq!(criticality_band(F(0.7499)), Some("medium"));
    assert_eq!(criticality_band(F(0.33)), Some("medium"));
    assert_eq!(criticality_band(F(0.32)), Some("low"));
    assert_eq!(criticality_band(F(0.0)), Some("low"));
    assert_eq!(criticality_band(F(-0.1)), None);
    assert_eq!(criticality_band(F(f64::NAN)), None);
    assert_eq!(pressure_band(F(1000.0)), Some("high"));
    assert_eq!(pressure_band(F(999.0)), Some("moderate"));
    assert_eq!(pressure_band(F(250.0)), Some("moderate"));
    assert_eq!(pressure_band(F(249.0)), Some("low"));
    assert_eq!(pressure_band(F(-1.0)), None);
    assert_eq!(pressure_band(F(f64::INFINITY)), None);
    assert_eq!(
        residual_context_key(F(0.5), F(10.0), "m"),
        Some("crit:medium|pressure:low|model:m".to_string())
    );
    assert_eq!(residual_context_key(F(f64::NAN), F(10.0), "m"), None);
}

#[test]
fn unusable_observations_are_refused() {
    let now = Timestamp::now();
    let mut state = agent_state();
    assert!(!state.observe_pressure("m", F(-1.0), now));
    assert!(!state.observe_pressure("m", F(f64::NAN), now));
    assert!(!state.observe_loss("k", 3, F(1.0), now));
    assert!(!state.observe_loss("k", 1, F(-1.0), now));
    assert!(!state.observe_loss("k", 1, F(f64::INFINITY), now));
    assert!(state.contexts.is_empty());
    assert!(state.pressure_by_model.is_empty());
    assert_eq!(priority_residual_loss(F(1.0), F(1.0), 1, 0), None);
    assert_eq!(priority_residual_loss(F(f64::NAN), F(1.0), 1, 5), None);
    assert_eq!(priority_residual_loss(F(1.0), F(f64::NAN), 1, 5), None);
}

#[test]
fn losses_average_with_discounted_weight() {
    let now = Timestamp::now();
    let mut context: PriorityResidualContextState<F> = PriorityResidualContextState::default();
    context.observe(PriorityResidualAction::Up, F(1.0), now);
    let up = PriorityResidualAction::Up.arm() as usize;
    assert_eq!(context.arms[up].mean_loss, F(1.0));
    assert_eq!(context.arms[up].effective_pulls, F(1.0));
    context.observe(PriorityResidualAction::Up, F(3.0), now);
    assert_eq!(context.arms[up].pulls, 2);
    assert!((context.arms[up].effective_pulls.0 - 1.95).abs() < 1e-12);
    assert!((context.arms[up].mean_loss.0 - (0.95 + 3.0) / 1.95).abs() < 1e-12);
    assert_eq!(context.total_pulls, 2);
    assert_eq!(context.last_updated_at, Some(now));
}

#[test]
fn untried_actions_come_first_and_then_the_least_score() {
    let now = Timestamp::now();
    let mut context: PriorityResidualContextState<F> = PriorityResidualContextState::default();
    assert_eq!(context.select_action(), PriorityResidualAction::Noop);
    context.observe(PriorityResidualAction::Noop, F(1.0), now);
    assert_eq!(context.select_action(), PriorityResidualAction::Up);
    context.observe(PriorityResidualAction::Up, F(0.1), now);
    assert_eq!(context.select_action(), PriorityResidualAction::Down);
    context.observe(PriorityResidualAction::Down, F(5.0), now);
    assert_eq!(context.select_action(), PriorityResidualAction::Up);
}

#[test]
fn stale_and_surplus_residuals_are_pruned() {
    let now = Timestamp::now();
    let mut state = agent_state();
    for n in 0..PRIORITY_RESIDUAL_MAX_CONTEXTS + 2 {
        assert!(state.observe_loss(&format!("k{n}"), 1, F(1.0), after(now, n as i64)));
    }
    for n in 0..PRIORITY_RESIDUAL_MAX_MODELS + 2 {
        assert!(state.observe_pressure(&format!("m{n}"), F(1.0), after(now, n as i64)));
    }
    let long_ago = now.days_before(PRIORITY_RESIDUAL_RETENTION_DAYS + 1);
    state.pressure_by_model.insert(
        "stale".to_string(),
        PressureState {
            prefill_wait_time_ms: F(1.0),
            last_updated_at: Some(long_ago),
        },
    );
    assert!(state.prune(now));
    assert_eq!(state.contexts.len(), PRIORITY_RESIDUAL_MAX_CONTEXTS);
    assert_eq!(state.pressure_by_model.len(), PRIORITY_RESIDUAL_MAX_MODELS);
    assert!(!state.contexts.contains_key("k0"));
    assert!(!state.contexts.contains_key("k1"));
    assert!(state.contexts.contains_key("k2"));
    assert!(!state.pressure_by_model.contains_key("stale"));
    assert!(!state.prune(now));
}
