use adaptive::dag::cpm::{compute_cpm, CompletedRunCpm};
use adaptive::dag::graph::{CompletedRunDag, RunDagEdge, RunDagEdgeKind, RunDagNode};
use adaptive::dag::state::{project_priority_prior, DagCpmNodeState};
use adaptive::fixed::Fixed;
use adaptive::order::{nearest_rank_quantile, Ordered};
use adaptive::osl_empirical::{
    OslContextKey, OslContextScope, OslMessageRole, OslRequestSignature,
};
use adaptive::priority_residual::priority_residual_loss;
use adaptive::records::CallKind;
use adaptive::scalar::{clamp, is_usable, one, zero, Scalar};
use adaptive::time::{Timestamp, MIN_SECONDS};
use chrono::Timelike;

fn millis(n: i64) -> Fixed {
    Fixed {
        millionths: n * 1_000_000,
    }
}

fn raw(millionths: i64) -> Fixed {
    Fixed { millionths }
}

#[test]
fn fractions_round_down() {
    assert_eq!(Fixed::of_ratio(1, 3), raw(333_333));
    assert_eq!(Fixed::of_ratio(-1, 3), raw(-333_334));
    assert_eq!(Fixed::of_ratio(3, 4), raw(750_000));
    assert_eq!(Fixed::of_ratio(i64::MAX, 1), Fixed::infinity());
    assert_eq!(Fixed::of_ratio(i64::MIN, 1), raw(i64::MIN));
}

#[test]
fn sums_are_exact_and_held_to_the_range() {
    assert_eq!(raw(1).add(raw(2)), raw(3));
    assert_eq!(raw(1).sub(raw(2)), raw(-1));
    assert_eq!(raw(i64::MAX).add(raw(1)), Fixed::infinity());
    assert_eq!(raw(i64::MIN).sub(raw(1)), raw(i64::MIN));
    assert!(!Fixed::infinity().is_finite());
    assert!(!raw(i64::MIN).is_finite());
    assert!(raw(0).is_finite());
}

#[test]
fn products_and_quotients_round_down() {
    assert_eq!(raw(1_500_000).mul(raw(2_500_000)), raw(3_750_000));
    assert_eq!(raw(-1).mul(raw(1)), raw(-1));
    assert_eq!(raw(1_000_000).div(raw(3_000_000)), raw(333_333));
    assert_eq!(raw(-1_000_000).div(raw(3_000_000)), raw(-333_334));
    assert_eq!(raw(1_000_000).div(raw(-3_000_000)), raw(-333_334));
    assert_eq!(raw(5).div(raw(0)), Fixed::infinity());
    assert_eq!(raw(-5).div(raw(0)), raw(i64::MIN));
}

#[test]
fn rounding_is_away_from_zero_at_half() {
    assert_eq!(raw(1_500_000).round(), 2);
    assert_eq!(raw(1_499_999).round(), 1);
    assert_eq!(raw(-1_500_000).round(), -2);
    assert_eq!(raw(-1_499_999).round(), -1);
    assert_eq!(raw(0).round(), 0);
}

#[test]
fn roots_and_logarithms() {
    assert_eq!(millis(4).sqrt(), millis(2));
    assert_eq!(millis(2).sqrt(), raw(1_414_213));
    assert_eq!(raw(-4).sqrt(), raw(0));
    assert_eq!(raw(i64::MAX).sqrt(), raw(3_037_000_499_976));
    assert_eq!(millis(0).ln_1p(), raw(0));
    assert_eq!(millis(1).ln_1p(), raw(693_147));
    assert_eq!(millis(3).ln_1p(), raw(2 * 693_147));
    assert_eq!(millis(2).ln_1p(), raw(693_147 + 346_573));
}

#[test]
fn machine_floats_are_decoded() {
    for (float, expected) in [
        (0.0f64, 0i64),
        (1.0, 1_000_000),
        (12.5, 12_500_000),
        (-12.5, -12_500_000),
        (0.6, 599_999),
        (1e-9, 0),
        (f64::MIN_POSITIVE, 0),
        (5e-324, 0),
        (9.0e12, 9_000_000_000_000_000_000),
        (1e13, i64::MAX),
        (-1e300, i64::MIN),
        (f64::INFINITY, i64::MAX),
        (f64::NEG_INFINITY, i64::MIN),
        (f64::NAN, i64::MAX),
    ] {
        assert_eq!(Fixed::of_float_bits(float.to_bits()), raw(expected), "{float}");
    }
}

#[test]
fn comparisons_follow_the_count() {
    assert!(raw(1).lt(raw(2)));
    assert!(!raw(2).lt(raw(2)));
    assert!(raw(2).le(raw(2)));
    assert!(raw(1).not_after(raw(1)));
    assert_eq!(raw(1).max_of(raw(2)), raw(2));
    assert_eq!(raw(1).min_of(raw(2)), raw(1));
    assert_eq!(clamp(raw(7), raw(1), raw(3)), raw(3));
    assert_eq!(clamp(raw(0), raw(1), raw(3)), raw(1));
    assert_eq!(clamp(raw(2), raw(1), raw(3)), raw(2));
    assert_eq!(zero::<Fixed>(), raw(0));
    assert_eq!(one::<Fixed>(), raw(1_000_000));
    assert!(is_usable(raw(0)));
    assert!(!is_usable(raw(-1)));
    assert!(!is_usable(Fixed::infinity()));
}

#[test]
fn quantiles_are_samples_in_order() {
    let samples = vec![raw(30), raw(10), raw(20), raw(10)];
    assert_eq!(nearest_rank_quantile(&samples, 1), raw(10));
    assert_eq!(nearest_rank_quantile(&samples, 50), raw(10));
    assert_eq!(nearest_rank_quantile(&samples, 51), raw(20));
    assert_eq!(nearest_rank_quantile(&samples, 90), raw(30));
    assert_eq!(nearest_rank_quantile(&vec![7u32, 3], 50), 3);
}

fn node(index: usize, duration_ms: i64) -> RunDagNode<Fixed> {
    RunDagNode {
        index,
        call_index: index,
        run_call_index: None,
        scope_uuid: index as u128,
        parent_uuid: None,
        kind: CallKind::Llm,
        name: format!("n{index}"),
        structural_key: format!("root/llm:n{index}"),
        model_bucket: "m".to_string(),
        started_at: Timestamp::epoch(),
        ended_at: Timestamp::epoch(),
        duration_ms: millis(duration_ms),
        emits_priority: true,
        tool_call_id: None,
        emitted_tool_call_ids: vec![],
        consumed_tool_call_ids: vec![],
    }
}

fn graph(durations: &[i64], edges: &[(usize, usize)]) -> CompletedRunDag<Fixed> {
    CompletedRunDag {
        run_id: 9,
        nodes: durations.iter().enumerate().map(|(i, d)| node(i, *d)).collect(),
        edges: edges
            .iter()
            .map(|(from, to)| RunDagEdge {
                from: *from,
                to: *to,
                kind: RunDagEdgeKind::ToolResult,
            })
            .collect(),
    }
}

fn diamond() -> CompletedRunCpm<Fixed> {
    // The long way round is 0, 2, 3; the short one leaves 2000 ms of slack.
    compute_cpm(
        &graph(&[1000, 500, 2500, 700], &[(0, 1), (0, 2), (1, 3), (2, 3)]),
        Some(millis(4000)),
    )
    .unwrap()
}

#[test]
fn workflow_takes_as_long_as_its_longest_path() {
    let cpm = diamond();
    assert_eq!(cpm.run_id, 9);
    assert_eq!(cpm.workflow_finish_ms, millis(1000 + 2500 + 700));
    for v in [0, 2, 3] {
        assert_eq!(cpm.nodes[v].slack_ms, millis(0));
        assert_eq!(cpm.nodes[v].criticality, one());
    }
}

#[test]
fn slack_is_what_the_short_way_has_left() {
    let cpm = diamond();
    assert_eq!(cpm.nodes[1].earliest_start_ms, millis(1000));
    assert_eq!(cpm.nodes[1].earliest_finish_ms, millis(1500));
    assert_eq!(cpm.nodes[1].latest_finish_ms, millis(3500));
    assert_eq!(cpm.nodes[1].latest_start_ms, millis(3000));
    assert_eq!(cpm.nodes[1].slack_ms, millis(2000));
    assert_eq!(cpm.nodes[1].criticality, raw(500_000));
}

#[test]
fn slack_is_the_finish_less_the_longest_path_through_a_call() {
    // Two ways into call 2 and two out of it, beside a longer way 0, 5.
    let cpm = compute_cpm(
        &graph(
            &[100, 300, 50, 20, 80, 900],
            &[(0, 2), (1, 2), (2, 3), (2, 4), (0, 5)],
        ),
        Some(millis(4000)),
    )
    .unwrap();
    let finish = 100 + 900;
    assert_eq!(cpm.workflow_finish_ms, millis(finish));
    let longest_through = [100 + 900, 300 + 50 + 80, 300 + 50 + 80, 300 + 50 + 20, 300 + 50 + 80, 100 + 900];
    for (v, longest) in longest_through.into_iter().enumerate() {
        assert_eq!(cpm.nodes[v].slack_ms, millis(finish - longest));
    }
}

#[test]
fn calls_follow_their_predecessors() {
    let cpm = diamond();
    for (u, v) in [(0, 1), (0, 2), (1, 3), (2, 3)] {
        assert!(cpm.nodes[u].earliest_finish_ms.le(cpm.nodes[v].earliest_start_ms));
        assert!(cpm.nodes[u].latest_finish_ms.le(cpm.nodes[v].latest_start_ms));
    }
}

#[test]
fn priorities_follow_criticality() {
    let with = |criticality: Fixed| DagCpmNodeState {
        criticality_ewma: criticality,
        ..DagCpmNodeState::default()
    };
    let mut last = 0;
    for c in 0..=10 {
        let priority = project_priority_prior(&with(raw(c * 100_000)), 0, 5).unwrap();
        assert!(last <= priority);
        last = priority;
    }
    assert_eq!(last, 5);
    assert_eq!(project_priority_prior(&with(raw(0)), 0, 5), Some(0));
}

#[test]
fn averages_move_towards_the_sample() {
    let mut node: DagCpmNodeState<Fixed> = DagCpmNodeState::default();
    let at = Timestamp::epoch();
    node.observe(millis(10), millis(0), raw(1_000_000), millis(3000), at);
    assert_eq!(node.criticality_ewma, raw(1_000_000));
    node.observe(millis(10), millis(0), raw(0), millis(3000), at);
    assert_eq!(node.criticality_ewma, raw(800_000));
    node.observe(millis(10), millis(0), raw(1_000_000), millis(3000), at);
    assert_eq!(node.criticality_ewma, raw(840_000));
    assert_eq!(node.observation_count, 3);
}

#[test]
fn losses_grow_with_wait_and_spend() {
    let loss = |wait, slack, emitted| {
        priority_residual_loss(millis(wait), millis(slack), emitted, 5)
            .unwrap()
            .millionths
    };
    assert_eq!(loss(3000, 500, 3), 2_530_000);
    assert_eq!(loss(3000, 5000, 3), 30_000);
    assert_eq!(loss(0, 0, 0), 0);
    assert!(loss(3000, 500, 3) <= loss(3500, 500, 3));
    assert!(loss(3000, 500, 3) <= loss(3000, 400, 3));
    assert!(loss(3000, 500, 3) <= loss(3000, 500, 4));
    assert_eq!(loss(3000, 500, 9), loss(3000, 500, 5));
}

#[test]
fn identifiers_are_written_apart() {
    let key = |root_uuid: u128| {
        OslContextKey {
            scope: OslContextScope::Run { root_uuid },
            model: "m".to_string(),
            signature: OslRequestSignature {
                last_message_role: OslMessageRole::User,
                has_prior_assistant_message: false,
                has_prior_tool_message: false,
                tools_defined: false,
            },
        }
        .storage_key()
    };
    let id = 0x0123_4567_89ab_cdef_0123_4567_89ab_cdef;
    assert!(key(id).contains("01234567-89ab-cdef-0123-456789abcdef"));
    assert!(key(42).contains(&uuid::Uuid::from_u128(42).to_string()));
    assert_ne!(key(42), key(43));
}

fn datetime(secs: i64, nanos: u32) -> chrono::DateTime<chrono::Utc> {
    let second = chrono::DateTime::from_timestamp(secs, 0).unwrap().naive_utc();
    second.with_nanosecond(nanos).unwrap().and_utc()
}

#[test]
fn leap_seconds_lie_between_two_seconds() {
    // The leap second at the end of 2016.
    let before = Timestamp::new(1_483_228_799, 999_000_000).unwrap();
    let within = Timestamp::new(1_483_228_799, 1_500_000_000).unwrap();
    let after = Timestamp::new(1_483_228_800, 250_000_000).unwrap();
    assert_eq!(within.seconds(), 1_483_228_799);
    assert_eq!(within.subsec_nanos(), 1_500_000_000);
    assert!(before.at_or_before(within) && !within.at_or_before(before));
    assert!(within.at_or_before(after) && !after.at_or_before(within));
    assert_eq!(before.millis_until(within), 501);
    assert_eq!(within.days_before(0), within);
    assert_eq!(
        within.days_before(1),
        Timestamp::new(1_483_228_800 - 86_400, 500_000_000).unwrap()
    );
    let call = |secs, nanos| Timestamp::new(secs, nanos).unwrap();
    assert_eq!(call(59, 1_500_000_000).millis_until(call(60, 250_000_000)), 750);
    assert_eq!(call(60, 250_000_000).millis_until(call(59, 1_500_000_000)), -750);
}

#[test]
fn instants_agree_with_the_calendar_crate() {
    let readings = [
        (0, 0),
        (0, 1_999_999_999),
        (59, 999_999_999),
        (59, 1_000_000_000),
        (59, 1_500_000_000),
        (60, 1),
        (86_399, 1_250_000_000),
        (86_400, 250_000_000),
        (-1, 1_000_000_001),
        (172_830, 1_700_000_000),
        (1_483_228_799, 1_500_000_000),
    ];
    for (s, n) in readings {
        let (a, x) = (Timestamp::new(s, n).unwrap(), datetime(s, n));
        for (t, m) in readings {
            let (b, y) = (Timestamp::new(t, m).unwrap(), datetime(t, m));
            assert_eq!(a.millis_until(b), y.signed_duration_since(x).num_milliseconds());
            assert_eq!(a.at_or_before(b), x <= y);
        }
        for days in [0, 1, 30] {
            let y = x - chrono::Duration::days(i64::from(days));
            let b = a.days_before(days);
            assert_eq!((b.seconds(), b.subsec_nanos()), (y.timestamp(), y.timestamp_subsec_nanos()));
        }
    }
}

#[test]
fn retention_stays_on_the_calendar() {
    let first = Timestamp::new(MIN_SECONDS, 0).unwrap();
    assert!(first.reaches_days_back(0));
    assert!(!first.reaches_days_back(1));
    let day = Timestamp::new(MIN_SECONDS + 86_399, 999_999_999).unwrap();
    assert!(!day.reaches_days_back(1));
    let leap = Timestamp::new(MIN_SECONDS + 86_399, 1_000_000_000).unwrap();
    assert!(leap.reaches_days_back(1));
    assert_eq!(leap.days_before(1), first);
}

#[test]
fn instants_are_counted_in_nanoseconds() {
    let a = Timestamp::new(10, 999_999_999).unwrap();
    let b = Timestamp::new(12, 500_000_000).unwrap();
    assert!(a.at_or_before(b));
    assert!(!b.at_or_before(a));
    assert!(a.at_or_before(a));
    assert_eq!(a.millis_until(b), 1500);
    assert_eq!(b.millis_until(a), -1500);
    assert_eq!(b.days_before(1), Timestamp::new(12 - 86_400, 500_000_000).unwrap());
    assert_eq!(a.seconds(), 10);
    assert_eq!(a.subsec_nanos(), 999_999_999);
    assert!(Timestamp::new(0, 2_000_000_000).is_none());
    assert!(Timestamp::new(i64::MAX, 0).is_none());
    assert!(Timestamp::now().seconds() > 1_600_000_000);
}
