//! Internal scheduling-prior primitives for adaptive LLM hints.
use crate::context_helpers::SchedulingClass;
use crate::fixed::Fixed;
use crate::scalar::Scalar;
use vstd::prelude::*;

verus! {

/// Latency class of a workflow.
#[derive(Debug, Clone, Copy, PartialEq, Eq, PartialOrd, Ord, Structural)]
pub enum WorkflowClassBucket {
    /// Background work, or work of no stated class.
    BackgroundOrUnspecified,
    /// Ordinary work.
    Standard,
    /// Work that a user waits for.
    Interactive,
}

/// How critical a call is to the workflow.
#[derive(Debug, Clone, Copy, PartialEq, Eq, PartialOrd, Ord, Structural)]
pub enum CriticalityBucket {
    /// Not known.
    Unknown,
    /// Low.
    Low,
    /// Medium.
    Medium,
    /// High.
    High,
}

/// Whether a call joins the results of others.
#[derive(Debug, Clone, Copy, PartialEq, Eq, PartialOrd, Ord, Structural)]
pub enum GateOrJoinBucket {
    /// It does not.
    Ordinary,
    /// It does.
    JoinOrSynthesis,
}

/// How narrow the fan-out is that a call belongs to.
#[derive(Debug, Clone, Copy, PartialEq, Eq, PartialOrd, Ord, Structural)]
pub enum AntiFanoutBucket {
    /// Wide.
    LargeFanout,
    /// Of medium width.
    MediumFanout,
    /// Narrow, or none.
    SmallOrSingleton,
}

/// What stage of a tool loop a call is in.
#[derive(Debug, Clone, Copy, PartialEq, Eq, PartialOrd, Ord, Structural)]
pub enum StageBucket {
    /// None.
    Ordinary,
    /// It may ask for tools.
    ToolPlanning,
    /// It follows a tool result.
    ToolResultFollowup,
}

/// Whether a call comes early in a run.
#[derive(Debug, Clone, Copy, PartialEq, Eq, PartialOrd, Ord, Structural)]
pub enum RepeatBucket {
    /// It does not.
    Repeated,
    /// It does.
    FirstOrEarly,
}

/// The facts that a priority is derived from.
#[derive(Debug, Clone, Copy, PartialEq, Eq, PartialOrd, Ord, Structural)]
pub struct PriorityKey {
    /// Latency class of the workflow.
    pub workflow_class: WorkflowClassBucket,
    /// How critical the call is.
    pub criticality: CriticalityBucket,
    /// Whether the call joins results.
    pub gate_or_join: GateOrJoinBucket,
    /// How narrow its fan-out is.
    pub anti_fanout: AntiFanoutBucket,
    /// What stage of a tool loop it is in.
    pub stage: StageBucket,
    /// Whether it comes early.
    pub repeat: RepeatBucket,
}

/// Number of different priority keys.
pub const STRUCTURAL_LEVELS: u32 = 432;

impl PriorityKey {
    /// Returns the number of different keys.
    pub fn structural_levels() -> (r: u32)
        ensures
            r == STRUCTURAL_LEVELS,
    {
        3 * 4 * 2 * 3 * 3 * 2
    }
}

/// The range of priorities that a backend takes.
#[derive(Debug, Clone, Copy, PartialEq, Eq, Structural)]
pub struct PriorityScale {
    min_priority: u32,
    max_priority: u32,
    structural_levels: u32,
}

/// A 32-bit pattern read as a signed number.
pub open spec fn signed(x: u32) -> int {
    if x <= i32::MAX {
        x as int
    } else {
        x - 0x1_0000_0000
    }
}

/// A signed number as the 32-bit pattern of an unsigned one.
pub open spec fn unsigned(x: int) -> int {
    if x >= 0 {
        x
    } else {
        x + 0x1_0000_0000
    }
}

/// A number held between two others.
pub open spec fn held(x: int, low: int, high: int) -> int {
    if x < low {
        low
    } else if x > high {
        high
    } else {
        x
    }
}

/// Reads a 32-bit pattern as a signed number.
pub(crate) fn to_signed(x: u32) -> (r: i32)
    ensures
        r == signed(x),
{
    if x <= i32::MAX as u32 {
        x as i32
    } else {
        -((u32::MAX - x) as i32) - 1
    }
}

fn to_unsigned(x: i32) -> (r: u32)
    ensures
        r == unsigned(x as int),
{
    if x >= 0 {
        x as u32
    } else {
        u32::MAX - ((-(x + 1)) as u32)
    }
}

fn hold(x: i32, low: i32, high: i32) -> (r: i32)
    ensures
        r == held(x as int, low as int, high as int),
{
    if x < low {
        low
    } else if x > high {
        high
    } else {
        x
    }
}

impl PriorityScale {
    /// The lowest priority.
    pub closed spec fn low(self) -> u32 {
        self.min_priority
    }

    /// The highest priority.
    pub closed spec fn high(self) -> u32 {
        self.max_priority
    }

    /// The number of structural levels that share the range.
    pub closed spec fn levels(self) -> u32 {
        self.structural_levels
    }

    /// The step of a residual action: an equal share of the range for each level, at least one.
    pub open spec fn quantum(self) -> int {
        let range = self.high() - self.low();
        if range <= 0 {
            0
        } else if range / (self.levels() as int) == 0 {
            1
        } else {
            range / (self.levels() as int)
        }
    }

    /// A cap held to the range.
    pub open spec fn held_cap(self, cap: u32) -> u32 {
        if cap < self.low() {
            self.low()
        } else if cap > self.high() {
            self.high()
        } else {
            cap
        }
    }

    #[verifier::type_invariant]
    spec fn valid(self) -> bool {
        self.min_priority <= self.max_priority && self.structural_levels >= 1
    }

    /// Makes a scale between two priorities, in either order.
    pub fn new(min_priority: u32, max_priority: u32, structural_levels: u32) -> (r: Self)
        ensures
            r.low() == if min_priority <= max_priority {
                min_priority
            } else {
                max_priority
            },
            r.high() == if min_priority <= max_priority {
                max_priority
            } else {
                min_priority
            },
            r.levels() == if structural_levels == 0 {
                1
            } else {
                structural_levels
            },
    {
        PriorityScale {
            min_priority: if min_priority <= max_priority {
                min_priority
            } else {
                max_priority
            },
            max_priority: if min_priority <= max_priority {
                max_priority
            } else {
                min_priority
            },
            structural_levels: if structural_levels == 0 {
                1
            } else {
                structural_levels
            },
        }
    }

    /// The scale of the Dynamo router, which takes a priority as a queue jump.
    ///
    /// The emitted range is small: 5 means about a five-second FCFS boost.
    pub fn dynamo_router_priority_jump() -> (r: Self)
        ensures
            r.low() == 0,
            r.high() == 5,
            r.levels() == STRUCTURAL_LEVELS,
    {
        PriorityScale::new(0, 5, PriorityKey::structural_levels())
    }

    /// Returns the step of a residual action.
    pub fn residual_quantum(self) -> (r: u32)
        ensures
            r == self.quantum(),
            self.low() <= self.high(),
    {
        proof {
            use_type_invariant(&self);
        }
        let range: u32 = self.max_priority - self.min_priority;
        if range == 0 {
            0
        } else {
            let share: u32 = range / self.structural_levels;
            if share == 0 {
                1
            } else {
                share
            }
        }
    }

    /// Holds a priority to the range.
    pub fn clamp(self, priority: i32) -> (r: u32)
        requires
            signed(self.low()) <= signed(self.high()),
        ensures
            r == unsigned(held(priority as int, signed(self.low()), signed(self.high()))),
    {
        to_unsigned(hold(priority, to_signed(self.min_priority), to_signed(self.max_priority)))
    }

    /// Holds a priority between the lowest one and a cap.
    pub fn clamp_to_cap(self, priority: i32, cap: u32) -> (r: u32)
        requires
            signed(self.low()) <= signed(self.held_cap(cap)),
        ensures
            r == unsigned(
                held(priority as int, signed(self.low()), signed(self.held_cap(cap))),
            ),
    {
        let cap: u32 = if cap < self.min_priority {
            self.min_priority
        } else if cap > self.max_priority {
            self.max_priority
        } else {
            cap
        };
        to_unsigned(hold(priority, to_signed(self.min_priority), to_signed(cap)))
    }
}

/// Correction applied to a priority.
#[derive(Debug, Clone, Copy, PartialEq, Eq, Structural)]
pub enum PriorityResidualAction {
    /// Lower it by one step.
    Down,
    /// Keep it.
    Noop,
    /// Raise it by one step.
    Up,
}

impl PriorityResidualAction {
    /// What the action adds to a priority.
    pub open spec fn change(self, scale: PriorityScale) -> int {
        match self {
            PriorityResidualAction::Down => -signed(scale.quantum() as u32),
            PriorityResidualAction::Noop => 0,
            PriorityResidualAction::Up => signed(scale.quantum() as u32),
        }
    }

    /// The priority after the action, held between the lowest one and a cap.
    pub open spec fn applied(self, raw_priority: int, scale: PriorityScale, cap: u32) -> int {
        unsigned(
            held(
                raw_priority + self.change(scale),
                signed(scale.low()),
                signed(scale.held_cap(cap)),
            ),
        )
    }

    /// Returns what the action adds to a priority.
    pub fn delta(self, scale: PriorityScale) -> (r: i32)
        requires
            self.change(scale) <= i32::MAX,
        ensures
            r == self.change(scale),
    {
        let quantum: i32 = to_signed(scale.residual_quantum());
        match self {
            PriorityResidualAction::Down => -quantum,
            PriorityResidualAction::Noop => 0,
            PriorityResidualAction::Up => quantum,
        }
    }

    /// Applies the action to a priority.
    pub fn apply(self, raw_priority: i32, scale: PriorityScale, cap: u32) -> (r: u32)
        requires
            self.change(scale) <= i32::MAX,
            i32::MIN <= raw_priority + self.change(scale) <= i32::MAX,
            signed(scale.low()) <= signed(scale.held_cap(cap)),
        ensures
            r == self.applied(raw_priority as int, scale, cap),
    {
        scale.clamp_to_cap(raw_priority + self.delta(scale), cap)
    }
}

/// What is known of a request at run time.
#[derive(Debug, PartialEq)]
pub struct RuntimePriorityFeatures<S: Scalar> {
    /// Scheduling class of the workflow, when stated.
    pub scheduling_class: Option<SchedulingClass>,
    /// Learned criticality, when known.
    pub dag_sensitivity: Option<S>,
    /// Depth of the scope stack.
    pub scope_depth: usize,
    /// Ordinal of the call in its run.
    pub call_index: u32,
    /// Whether tools are offered.
    pub tools_defined: bool,
    /// Whether the last message is a tool result.
    pub last_message_is_tool: bool,
    /// How many tool results the request joins, when it joins any.
    pub tool_result_join_width: Option<u32>,
}

impl<S: Scalar> Clone for RuntimePriorityFeatures<S> {
    fn clone(&self) -> (r: Self)
        ensures
            r == *self,
    {
        *self
    }
}

impl<S: Scalar> Copy for RuntimePriorityFeatures<S> {

}

impl<S: Scalar> Default for RuntimePriorityFeatures<S> {
    fn default() -> (r: Self)
        ensures
            r.scheduling_class is None,
            r.dag_sensitivity is None,
            r.scope_depth == 0,
            r.call_index == 0,
            !r.tools_defined,
            !r.last_message_is_tool,
            r.tool_result_join_width is None,
    {
        RuntimePriorityFeatures {
            scheduling_class: None,
            dag_sensitivity: None,
            scope_depth: 0,
            call_index: 0,
            tools_defined: false,
            last_message_is_tool: false,
            tool_result_join_width: None,
        }
    }
}

/// A derived priority and what it was derived from.
#[derive(Debug, Clone, Copy, PartialEq, Eq, Structural)]
pub struct PriorityDecision {
    /// Facts that the priority was derived from.
    pub key: PriorityKey,
    /// Range of priorities.
    pub scale: PriorityScale,
    /// Priority before any cap.
    pub priority_raw: i32,
    /// Highest priority allowed.
    pub priority_cap: u32,
    /// Priority under the cap.
    pub priority_prior: u32,
    /// Correction applied.
    pub residual_action: PriorityResidualAction,
    /// What the correction adds.
    pub residual_delta: i32,
    /// Priority after the correction.
    pub priority_final: u32,
}

/// The latency class of a workflow.
pub open spec fn class_bucket(class: Option<SchedulingClass>) -> WorkflowClassBucket {
    match class {
        Some(SchedulingClass::Interactive) => WorkflowClassBucket::Interactive,
        Some(SchedulingClass::Standard) => WorkflowClassBucket::Standard,
        _ => WorkflowClassBucket::BackgroundOrUnspecified,
    }
}

/// How critical a call is.
pub open spec fn sensitivity_bucket<S: Scalar>(sensitivity: Option<S>) -> CriticalityBucket {
    match sensitivity {
        None => CriticalityBucket::Unknown,
        Some(value) => if S::ratio(7, 10).below(value) {
            CriticalityBucket::High
        } else if S::ratio(3, 10).below(value) {
            CriticalityBucket::Medium
        } else {
            CriticalityBucket::Low
        },
    }
}

/// How narrow the fan-out of a call is.
pub open spec fn width_bucket(width: Option<u32>) -> AntiFanoutBucket {
    match width {
        Some(w) => if w >= 5 {
            AntiFanoutBucket::LargeFanout
        } else if w >= 2 {
            AntiFanoutBucket::MediumFanout
        } else {
            AntiFanoutBucket::SmallOrSingleton
        },
        None => AntiFanoutBucket::SmallOrSingleton,
    }
}

/// The facts that a priority is derived from.
pub open spec fn key_for<S: Scalar>(features: RuntimePriorityFeatures<S>) -> PriorityKey {
    PriorityKey {
        workflow_class: class_bucket(features.scheduling_class),
        criticality: sensitivity_bucket(features.dag_sensitivity),
        gate_or_join: if features.last_message_is_tool {
            GateOrJoinBucket::JoinOrSynthesis
        } else {
            GateOrJoinBucket::Ordinary
        },
        anti_fanout: width_bucket(features.tool_result_join_width),
        stage: if features.last_message_is_tool {
            StageBucket::ToolResultFollowup
        } else if features.tools_defined {
            StageBucket::ToolPlanning
        } else {
            StageBucket::Ordinary
        },
        repeat: if features.call_index <= 1 {
            RepeatBucket::FirstOrEarly
        } else {
            RepeatBucket::Repeated
        },
    }
}

/// What a latency class is worth.
pub open spec fn class_worth(class: WorkflowClassBucket) -> int {
    match class {
        WorkflowClassBucket::BackgroundOrUnspecified => 0,
        WorkflowClassBucket::Standard => 1,
        WorkflowClassBucket::Interactive => 2,
    }
}

/// The priority of a key before any cap: what its class is worth, one step more for each of high
/// criticality, joining results and following a tool result, one step less for a wide fan-out.
pub open spec fn raw_priority(key: PriorityKey) -> int {
    class_worth(key.workflow_class) + (if key.criticality == CriticalityBucket::High {
        1int
    } else {
        0
    }) + (if key.gate_or_join == GateOrJoinBucket::JoinOrSynthesis {
        1int
    } else {
        0
    }) + (if key.stage == StageBucket::ToolResultFollowup {
        1int
    } else {
        0
    }) - (if key.anti_fanout == AntiFanoutBucket::LargeFanout {
        1int
    } else {
        0
    })
}

/// The cap that a latency class allows.
pub open spec fn class_cap(class: WorkflowClassBucket) -> int {
    match class {
        WorkflowClassBucket::BackgroundOrUnspecified => 1,
        WorkflowClassBucket::Standard => 3,
        WorkflowClassBucket::Interactive => 5,
    }
}

/// The cap of a key on a scale.
pub open spec fn cap_for(key: PriorityKey, scale: PriorityScale) -> int {
    unsigned(held(class_cap(key.workflow_class), signed(scale.low()), signed(scale.high())))
}

/// Whether priorities can be derived on a scale with a correction, without overflow.
pub open spec fn scale_fits(
    scale: PriorityScale,
    action: PriorityResidualAction,
    raw: int,
) -> bool {
    &&& signed(scale.low()) <= signed(scale.high())
    &&& action.change(scale) <= i32::MAX
    &&& i32::MIN <= raw + action.change(scale) <= i32::MAX
}

/// Derives the priority of a request.
pub fn derive_priority_decision<S: Scalar>(
    features: RuntimePriorityFeatures<S>,
    scale: PriorityScale,
    residual_action: PriorityResidualAction,
) -> (r: PriorityDecision)
    requires
        scale_fits(scale, residual_action, raw_priority(key_for(features))),
    ensures
        r.key == key_for(features),
        r.scale == scale,
        r.priority_raw == raw_priority(r.key),
        r.priority_cap == cap_for(r.key, scale),
        r.priority_prior == PriorityResidualAction::Noop.applied(
            raw_priority(r.key),
            scale,
            r.priority_cap,
        ),
        r.residual_action == residual_action,
        r.residual_delta == residual_action.change(scale),
        r.priority_final == residual_action.applied(raw_priority(r.key), scale, r.priority_cap),
{
    let key = PriorityKey {
        workflow_class: workflow_class_bucket(features.scheduling_class),
        criticality: criticality_bucket(features.dag_sensitivity),
        gate_or_join: gate_or_join_bucket(features.last_message_is_tool),
        anti_fanout: anti_fanout_bucket(features.tool_result_join_width),
        stage: stage_bucket(features.tools_defined, features.last_message_is_tool),
        repeat: repeat_bucket(features.call_index),
    };
    let priority_raw: i32 = dynamo_queue_jump_raw(key);
    let priority_cap: u32 = dynamo_queue_jump_cap(key, scale);
    proof {
        lemma_cap_in_range(key, scale, priority_cap);
    }
    let priority_prior: u32 = scale.clamp_to_cap(priority_raw, priority_cap);
    let residual_delta: i32 = residual_action.delta(scale);
    let priority_final: u32 = residual_action.apply(priority_raw, scale, priority_cap);
    PriorityDecision {
        key,
        scale,
        priority_raw,
        priority_cap,
        priority_prior,
        residual_action,
        residual_delta,
        priority_final,
    }
}

/// A cap of a key can be held to from the lowest priority.
proof fn lemma_cap_in_range(key: PriorityKey, scale: PriorityScale, cap: u32)
    requires
        signed(scale.low()) <= signed(scale.high()),
        cap == cap_for(key, scale),
    ensures
        signed(scale.low()) <= signed(scale.held_cap(cap)),
{
}

/// Computes the priority of a key before any cap.
pub fn dynamo_queue_jump_raw(key: PriorityKey) -> (r: i32)
    ensures
        r == raw_priority(key),
        -1 <= r <= 5,
{
    workflow_class_base(key.workflow_class) + criticality_boost(key.criticality)
        + gate_or_join_boost(key.gate_or_join) + stage_boost(key.stage) + fanout_penalty(
        key.anti_fanout,
    )
}

/// Computes the cap of a key on a scale.
pub fn dynamo_queue_jump_cap(key: PriorityKey, scale: PriorityScale) -> (r: u32)
    requires
        signed(scale.low()) <= signed(scale.high()),
    ensures
        r == cap_for(key, scale),
{
    let cap: i32 = match key.workflow_class {
        WorkflowClassBucket::BackgroundOrUnspecified => 1,
        WorkflowClassBucket::Standard => 3,
        WorkflowClassBucket::Interactive => 5,
    };
    scale.clamp(cap)
}

fn workflow_class_base(workflow_class: WorkflowClassBucket) -> (r: i32)
    ensures
        r == class_worth(workflow_class),
{
    match workflow_class {
        WorkflowClassBucket::BackgroundOrUnspecified => 0,
        WorkflowClassBucket::Standard => 1,
        WorkflowClassBucket::Interactive => 2,
    }
}

fn criticality_boost(criticality: CriticalityBucket) -> (r: i32)
    ensures
        r == if criticality == CriticalityBucket::High {
            1int
        } else {
            0
        },
{
    match criticality {
        CriticalityBucket::High => 1,
        CriticalityBucket::Unknown | CriticalityBucket::Low | CriticalityBucket::Medium => 0,
    }
}

fn gate_or_join_boost(gate_or_join: GateOrJoinBucket) -> (r: i32)
    ensures
        r == if gate_or_join == GateOrJoinBucket::JoinOrSynthesis {
            1int
        } else {
            0
        },
{
    match gate_or_join {
        GateOrJoinBucket::JoinOrSynthesis => 1,
        GateOrJoinBucket::Ordinary => 0,
    }
}

fn stage_boost(stage: StageBucket) -> (r: i32)
    ensures
        r == if stage == StageBucket::ToolResultFollowup {
            1int
        } else {
            0
        },
{
    match stage {
        StageBucket::ToolResultFollowup => 1,
        StageBucket::Ordinary | StageBucket::ToolPlanning => 0,
    }
}

fn fanout_penalty(anti_fanout: AntiFanoutBucket) -> (r: i32)
    ensures
        r == if anti_fanout == AntiFanoutBucket::LargeFanout {
            -1int
        } else {
            0
        },
{
    match anti_fanout {
        AntiFanoutBucket::LargeFanout => -1,
        AntiFanoutBucket::MediumFanout | AntiFanoutBucket::SmallOrSingleton => 0,
    }
}

fn workflow_class_bucket(scheduling_class: Option<SchedulingClass>) -> (r: WorkflowClassBucket)
    ensures
        r == class_bucket(scheduling_class),
{
    match scheduling_class {
        Some(SchedulingClass::Interactive) => WorkflowClassBucket::Interactive,
        Some(SchedulingClass::Standard) => WorkflowClassBucket::Standard,
        Some(SchedulingClass::Background) | None => WorkflowClassBucket::BackgroundOrUnspecified,
    }
}

fn criticality_bucket<S: Scalar>(dag_sensitivity: Option<S>) -> (r: CriticalityBucket)
    ensures
        r == sensitivity_bucket(dag_sensitivity),
{
    match dag_sensitivity {
        None => CriticalityBucket::Unknown,
        Some(value) => if S::of_ratio(7, 10).lt(value) {
            CriticalityBucket::High
        } else if S::of_ratio(3, 10).lt(value) {
            CriticalityBucket::Medium
        } else {
            CriticalityBucket::Low
        },
    }
}

fn gate_or_join_bucket(last_message_is_tool: bool) -> (r: GateOrJoinBucket)
    ensures
        r == if last_message_is_tool {
            GateOrJoinBucket::JoinOrSynthesis
        } else {
            GateOrJoinBucket::Ordinary
        },
{
    if last_message_is_tool {
        GateOrJoinBucket::JoinOrSynthesis
    } else {
        GateOrJoinBucket::Ordinary
    }
}

fn anti_fanout_bucket(tool_result_join_width: Option<u32>) -> (r: AntiFanoutBucket)
    ensures
        r == width_bucket(tool_result_join_width),
{
    match tool_result_join_width {
        Some(width) => if width >= 5 {
            AntiFanoutBucket::LargeFanout
        } else if width >= 2 {
            AntiFanoutBucket::MediumFanout
        } else {
            AntiFanoutBucket::SmallOrSingleton
        },
        None => AntiFanoutBucket::SmallOrSingleton,
    }
}

fn stage_bucket(tools_defined: bool, last_message_is_tool: bool) -> (r: StageBucket)
    ensures
        r == if last_message_is_tool {
            StageBucket::ToolResultFollowup
        } else if tools_defined {
            StageBucket::ToolPlanning
        } else {
            StageBucket::Ordinary
        },
{
    if last_message_is_tool {
        StageBucket::ToolResultFollowup
    } else if tools_defined {
        StageBucket::ToolPlanning
    } else {
        StageBucket::Ordinary
    }
}

fn repeat_bucket(call_index: u32) -> (r: RepeatBucket)
    ensures
        r == if call_index <= 1 {
            RepeatBucket::FirstOrEarly
        } else {
            RepeatBucket::Repeated
        },
{
    if call_index <= 1 {
        RepeatBucket::FirstOrEarly
    } else {
        RepeatBucket::Repeated
    }
}

/// On a scale within the positive range of `i32`, a corrected priority stays between the lowest one
/// and the cap, and the cap within the scale.
pub proof fn law_priority_stays_in_band(
    key: PriorityKey,
    scale: PriorityScale,
    action: PriorityResidualAction,
    raw: int,
    cap: u32,
)
    requires
        scale.low() <= scale.high() <= i32::MAX,
        cap == cap_for(key, scale),
    ensures
        scale.low() <= cap <= scale.high(),
        scale.low() <= action.applied(raw, scale, cap) <= cap,
{
}

/// Raising never gives less than keeping, and keeping never less than lowering.
pub proof fn law_actions_are_ordered(raw: int, scale: PriorityScale, cap: u32)
    requires
        scale.low() <= scale.high() <= i32::MAX,
        scale.levels() >= 1,
    ensures
        PriorityResidualAction::Down.applied(raw, scale, cap)
            <= PriorityResidualAction::Noop.applied(raw, scale, cap),
        PriorityResidualAction::Noop.applied(raw, scale, cap)
            <= PriorityResidualAction::Up.applied(raw, scale, cap),
{
    let range = scale.high() - scale.low();
    let levels = scale.levels() as int;
    assert(0 <= range / levels <= range) by (nonlinear_arith)
        requires
            range >= 0,
            levels >= 1,
    ;
}

/// Whether the second of two keys is at least as urgent as the first in every respect.
pub open spec fn no_more_urgent(a: PriorityKey, b: PriorityKey) -> bool {
    &&& class_worth(a.workflow_class) <= class_worth(b.workflow_class)
    &&& a.criticality == CriticalityBucket::High ==> b.criticality == CriticalityBucket::High
    &&& a.gate_or_join == GateOrJoinBucket::JoinOrSynthesis ==> b.gate_or_join
        == GateOrJoinBucket::JoinOrSynthesis
    &&& b.anti_fanout == AntiFanoutBucket::LargeFanout ==> a.anti_fanout
        == AntiFanoutBucket::LargeFanout
    &&& a.stage == StageBucket::ToolResultFollowup ==> b.stage == StageBucket::ToolResultFollowup
}

/// More urgency in any respect never gives a lower priority. On the scale of the router the latency
/// class alone sets the cap, so background work stays at one step whatever else holds of it.
#[verifier::spinoff_prover]
pub proof fn law_urgency_orders_priorities(
    less: PriorityKey,
    more: PriorityKey,
    scale: PriorityScale,
    action: PriorityResidualAction,
)
    requires
        no_more_urgent(less, more),
        scale.low() == 0,
        scale.high() == 5,
    ensures
        raw_priority(less) <= raw_priority(more),
        cap_for(less, scale) == class_cap(less.workflow_class),
        action.applied(raw_priority(less), scale, cap_for(less, scale) as u32) <= action.applied(
            raw_priority(more),
            scale,
            cap_for(more, scale) as u32,
        ),
        less.workflow_class == WorkflowClassBucket::BackgroundOrUnspecified ==> action.applied(
            raw_priority(less),
            scale,
            cap_for(less, scale) as u32,
        ) <= 1,
{
    let (a, b) = (raw_priority(less), raw_priority(more));
    let (c, d) = (class_cap(less.workflow_class), class_cap(more.workflow_class));
    lemma_urgency_orders_worth(less, more);
    lemma_router_cap(less, scale);
    lemma_router_cap(more, scale);
    lemma_router_band(action, a, scale, c as u32);
    lemma_router_band(action, b, scale, d as u32);
    assert(held(a + action.change(scale), 0, c) <= held(b + action.change(scale), 0, d));
}

/// More urgency gives a key no less worth, and its class no lower a cap.
#[verifier::spinoff_prover]
proof fn lemma_urgency_orders_worth(less: PriorityKey, more: PriorityKey)
    requires
        no_more_urgent(less, more),
    ensures
        raw_priority(less) <= raw_priority(more),
        class_cap(less.workflow_class) <= class_cap(more.workflow_class),
{
}

/// On the scale of the router a class has its own cap.
#[verifier::spinoff_prover]
proof fn lemma_router_cap(key: PriorityKey, scale: PriorityScale)
    requires
        scale.low() == 0,
        scale.high() == 5,
    ensures
        cap_for(key, scale) == class_cap(key.workflow_class),
        1 <= class_cap(key.workflow_class) <= 5,
{
}

/// On the scale of the router a priority is held between nothing and its cap.
#[verifier::spinoff_prover]
proof fn lemma_router_band(
    action: PriorityResidualAction,
    raw: int,
    scale: PriorityScale,
    cap: u32,
)
    requires
        scale.low() == 0,
        scale.high() == 5,
        cap <= 5,
    ensures
        action.applied(raw, scale, cap) == held(raw + action.change(scale), 0, cap as int),
{
    assert(scale.held_cap(cap) == cap);
    assert(signed(scale.low()) == 0 && signed(cap) == cap);
}

/// In exact arithmetic and on the scale of the router, a priority is what its workflow class is worth,
/// with one step more for a criticality above seven tenths, two more for a request that ends with a
/// tool result, and one less for one that joins five results or more. It is corrected by one step as
/// decided, and held between zero and the cap of its class.
#[verifier::spinoff_prover]
pub proof fn law_features_make_the_priority(
    features: RuntimePriorityFeatures<Fixed>,
    scale: PriorityScale,
    action: PriorityResidualAction,
)
    requires
        scale.low() == 0,
        scale.high() == 5,
        scale.levels() == 432,
    ensures
        ({
            let class: int = if features.scheduling_class == Some(SchedulingClass::Interactive) {
                2
            } else if features.scheduling_class == Some(SchedulingClass::Standard) {
                1
            } else {
                0
            };
            let critical: int = if features.dag_sensitivity is Some
                && features.dag_sensitivity->0.millionths > 700_000 {
                1
            } else {
                0
            };
            let follows: int = if features.last_message_is_tool {
                2
            } else {
                0
            };
            let wide: int = if features.tool_result_join_width is Some
                && features.tool_result_join_width->0 >= 5 {
                1
            } else {
                0
            };
            let raw = class + critical + follows - wide;
            let step: int = match action {
                PriorityResidualAction::Up => 1,
                PriorityResidualAction::Noop => 0,
                PriorityResidualAction::Down => -1,
            };
            let cap = 2 * class + 1;
            let key = key_for(features);
            &&& raw_priority(key) == raw
            &&& cap_for(key, scale) == cap
            &&& action.change(scale) == step
            &&& action.applied(raw, scale, cap as u32) == if raw + step < 0 {
                0
            } else if raw + step > cap {
                cap
            } else {
                raw + step
            }
        }),
{
    let key = key_for(features);
    assert(Fixed::ratio(7, 10).millionths == 700_000);
    assert(Fixed::ratio(3, 10).millionths == 300_000);
    assert(5int / 432 == 0);
    assert(scale.quantum() == 1);
    lemma_router_cap(key, scale);
    lemma_router_band(action, raw_priority(key), scale, class_cap(key.workflow_class) as u32);
}

/// In exact arithmetic, the key of a request tells its features apart: its workflow class, whether the
/// criticality is unknown, low, above three tenths or above seven tenths, whether it ends with a tool
/// result or else offers tools, whether it joins two results or more or five or more, and whether it
/// is the first.
pub proof fn law_keys_tell_features(features: RuntimePriorityFeatures<Fixed>)
    ensures
        ({
            let key = key_for(features);
            let width = features.tool_result_join_width;
            &&& key.workflow_class is Interactive <==> features.scheduling_class == Some(
                SchedulingClass::Interactive,
            )
            &&& key.workflow_class is Standard <==> features.scheduling_class == Some(
                SchedulingClass::Standard,
            )
            &&& key.criticality is Unknown <==> features.dag_sensitivity is None
            &&& features.dag_sensitivity matches Some(s) ==> {
                &&& key.criticality is High <==> s.millionths > 700_000
                &&& key.criticality is Medium <==> 300_000 < s.millionths <= 700_000
            }
            &&& key.gate_or_join is JoinOrSynthesis <==> features.last_message_is_tool
            &&& key.stage is ToolResultFollowup <==> features.last_message_is_tool
            &&& key.stage is ToolPlanning <==> features.tools_defined
                && !features.last_message_is_tool
            &&& key.anti_fanout is LargeFanout <==> width is Some && width->0 >= 5
            &&& key.anti_fanout is MediumFanout <==> width is Some && 2 <= width->0 < 5
            &&& key.repeat is FirstOrEarly <==> features.call_index <= 1
        }),
{
    assert(Fixed::ratio(7, 10).millionths == 700_000);
    assert(Fixed::ratio(3, 10).millionths == 300_000);
}

/// A correction by one step takes an equal share of the scale for each level, at least one where the
/// scale has any range, and up and down are opposite.
pub proof fn law_steps_share_the_scale(scale: PriorityScale)
    requires
        scale.low() <= scale.high() <= i32::MAX,
        scale.levels() >= 1,
    ensures
        ({
            let range = scale.high() - scale.low();
            let step = PriorityResidualAction::Up.change(scale);
            &&& PriorityResidualAction::Down.change(scale) == -step
            &&& PriorityResidualAction::Noop.change(scale) == 0
            &&& range == 0 ==> step == 0
            &&& 0 < range < scale.levels() ==> step == 1
            &&& range >= scale.levels() ==> step * scale.levels() <= range < (step + 1)
                * scale.levels()
        }),
{
    let range = scale.high() - scale.low();
    let levels = scale.levels() as int;
    let share = range / levels;
    assert(0 <= share <= range && share * levels <= range < (share + 1) * levels)
        by (nonlinear_arith)
        requires
            share == range / levels,
            range >= 0,
            levels >= 1,
    ;
    assert(range < levels ==> share == 0) by (nonlinear_arith)
        requires
            share == range / levels,
            range >= 0,
            levels >= 1,
    ;
    assert(range >= levels ==> share >= 1) by (nonlinear_arith)
        requires
            share == range / levels,
            range >= 0,
            levels >= 1,
    ;
}

} // verus!
