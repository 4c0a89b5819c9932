//! What the request path reads: learned states, default hints and trie predictions.
use crate::dag::state::DagCpmState;
use crate::osl_empirical::OslEmpiricalState;
use crate::priority_residual::PriorityResidualState;
use crate::scalar::Scalar;
use vstd::prelude::*;

verus! {

/// Hints that go with an LLM request.
#[derive(Debug)]
pub struct AgentHints<S: Scalar> {
    /// Expected output length in tokens, zero when none is expected.
    pub osl: u32,
    /// Expected time to the next request in milliseconds.
    pub iat: u32,
    /// Priority of the request.
    pub priority: i32,
    /// Latency sensitivity of the request.
    pub latency_sensitivity: S,
    /// Identifier of the prefix that the request shares.
    pub prefix_id: String,
    /// Expected number of requests in all.
    pub total_requests: u32,
}

/// Hints in terms of text.
pub struct HintsView<S: Scalar> {
    /// Expected output length.
    pub osl: u32,
    /// Expected time to the next request.
    pub iat: u32,
    /// Priority.
    pub priority: i32,
    /// Latency sensitivity.
    pub latency_sensitivity: S,
    /// Identifier of the prefix.
    pub prefix_id: Seq<char>,
    /// Expected number of requests.
    pub total_requests: u32,
}

impl<S: Scalar> View for AgentHints<S> {
    type V = HintsView<S>;

    open spec fn view(&self) -> HintsView<S> {
        HintsView {
            osl: self.osl,
            iat: self.iat,
            priority: self.priority,
            latency_sensitivity: self.latency_sensitivity,
            prefix_id: self.prefix_id@,
            total_requests: self.total_requests,
        }
    }
}

/// Optional hints in terms of text.
pub open spec fn hints_view<S: Scalar>(hints: Option<AgentHints<S>>) -> Option<HintsView<S>> {
    match hints {
        Some(h) => Some(h@),
        None => None,
    }
}

impl<S: Scalar> Clone for AgentHints<S> {
    fn clone(&self) -> (r: Self)
        ensures
            r == *self,
    {
        AgentHints {
            osl: self.osl,
            iat: self.iat,
            priority: self.priority,
            latency_sensitivity: self.latency_sensitivity,
            prefix_id: self.prefix_id.clone(),
            total_requests: self.total_requests,
        }
    }
}

/// Statistics of a predicted quantity.
#[derive(Debug)]
pub struct PredictionMetrics<S: Scalar> {
    /// Number of samples.
    pub sample_count: u32,
    /// Mean.
    pub mean: S,
    /// Median.
    pub p50: S,
    /// 90th percentile.
    pub p90: S,
    /// 95th percentile.
    pub p95: S,
}

/// Prediction for an LLM call.
#[derive(Debug)]
pub struct LlmCallPrediction<S: Scalar> {
    /// Calls that are still to come.
    pub remaining_calls: PredictionMetrics<S>,
    /// Time to the next call in milliseconds.
    pub interarrival_ms: PredictionMetrics<S>,
    /// Output length in tokens.
    pub output_tokens: PredictionMetrics<S>,
    /// Latency sensitivity, when known.
    pub latency_sensitivity: Option<u32>,
}

/// Learned states that the request path reads.
#[derive(Debug)]
pub struct HotCache<S: Scalar> {
    /// Hints for requests without a prediction.
    pub agent_hints_default: Option<AgentHints<S>>,
    /// Learned critical-path state.
    pub dag_cpm: Option<DagCpmState<S>>,
    /// Learned residual-priority state.
    pub priority_residual: Option<PriorityResidualState<S>>,
    /// Learned output lengths.
    pub osl_empirical: Option<OslEmpiricalState>,
}

impl<S: Scalar> Default for HotCache<S> {
    fn default() -> (r: Self)
        ensures
            r.agent_hints_default is None,
            r.dag_cpm is None,
            r.priority_residual is None,
            r.osl_empirical is None,
    {
        HotCache {
            agent_hints_default: None,
            dag_cpm: None,
            priority_residual: None,
            osl_empirical: None,
        }
    }
}

} // verus!
