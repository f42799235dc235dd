//! Records of routing decisions.

use vstd::prelude::*;

use crate::metrics::RealBits;

verus! {

/// A candidate with its score.
#[derive(Clone, Debug, PartialEq, Eq)]
pub struct CandidateScore {
    /// The candidate, as `region/instance`.
    pub backend: String,
    /// Its score; more is better.
    pub score: RealBits,
    /// Blocks of the prompt that it has cached.
    pub kv_overlap: u32,
}

/// An attempt to forward to a candidate.
#[derive(Clone, Debug, PartialEq, Eq)]
pub struct ForwardAttempt {
    /// The candidate, as `region/instance`.
    pub backend: String,
    /// Whether it worked.
    pub success: bool,
    /// Whether it was left out because the backend's circuit was open.
    pub skipped_open_circuit: bool,
    /// What went wrong.
    pub error: Option<String>,
}

/// How a request ended.
#[derive(Clone, Copy, Debug, PartialEq, Eq, Structural)]
pub enum DecisionOutcome {
    /// A backend answered.
    Success,
    /// There was no candidate.
    RoutingFailed,
    /// No candidate answered.
    AllCandidatesFailed,
}

/// Weights of a hybrid score.
#[derive(Clone, Copy, Debug, PartialEq, Eq, Structural)]
pub struct WeightSnapshot {
    /// Weight of cached blocks.
    pub kv: RealBits,
    /// Weight of the load.
    pub load: RealBits,
    /// Weight of the distance.
    pub topology: RealBits,
}

/// All that is recorded of one routing decision.
#[derive(Clone, Debug, PartialEq, Eq)]
pub struct DecisionEvent {
    /// The record.
    pub event_id: String,
    /// When it was made, in Unix milliseconds.
    pub timestamp_unix_ms: i64,
    /// Gateway that decided.
    pub gateway_instance: String,
    /// Region of that gateway.
    pub gateway_region: String,
    /// The request.
    pub request_id: String,
    /// Model that was asked.
    pub model: String,
    /// Session of the request.
    pub session_id: Option<String>,
    /// Strategy that decided.
    pub strategy: String,
    /// Weights of the hybrid score, when there was one.
    pub weights: Option<WeightSnapshot>,
    /// Candidates, the best first.
    pub candidates: Vec<CandidateScore>,
    /// Attempts in order.
    pub attempts: Vec<ForwardAttempt>,
    /// Backend that answered.
    pub selected_backend: Option<String>,
    /// Blocks of the prompt that it had cached.
    pub kv_overlap: u32,
    /// Blocks of the prompt.
    pub prompt_blocks: u32,
    /// Time spent routing, in microseconds.
    pub routing_latency_us: u64,
    /// Time spent in all, in microseconds.
    pub total_latency_us: u64,
    /// How the request ended.
    pub outcome: DecisionOutcome,
}

} // verus!
