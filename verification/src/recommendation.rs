//! Candidate configurations and recommendations.

use vstd::prelude::*;

use crate::workload::OptimizationGoal;

verus! {

/// One llama.cpp configuration that a recommendation may propose.
#[derive(Debug, Clone, PartialEq, Eq)]
pub struct CandidateConfig {
    pub quantization: String,
    pub context_tokens: u32,
    pub concurrency: u16,
    pub threads: Option<usize>,
    pub batch_size: Option<u32>,
    pub micro_batch_size: Option<u32>,
    pub gpu_layers: Option<u32>,
    pub key_cache_type: Option<String>,
    pub value_cache_type: Option<String>,
    pub memory_map: Option<bool>,
    pub lock_memory: Option<bool>,
}

/// A recommended configuration for a profile, with its reasons and warnings.
#[derive(Debug, Clone, PartialEq, Eq)]
pub struct Recommendation {
    pub profile: OptimizationGoal,
    pub candidate: CandidateConfig,
    pub confidence: Confidence,
    pub reasons: Vec<String>,
    pub warnings: Vec<String>,
}

/// Whether a recommendation was estimated or measured on this host.
#[derive(Debug, Clone, Copy, PartialEq, Eq, Structural)]
pub enum Confidence {
    Estimated,
    Benchmarked,
}

} // verus!
