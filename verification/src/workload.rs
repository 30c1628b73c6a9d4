//! Workload constraints used to rank configurations.

use vstd::prelude::*;

verus! {

/// The workload that a configuration must serve.
#[derive(Debug, Clone, PartialEq, Eq)]
pub struct Workload {
    pub context_tokens: u32,
    pub maximum_output_tokens: u32,
    pub concurrency: u16,
    pub goal: OptimizationGoal,
}

/// What a recommendation optimizes for.
#[derive(Debug, Clone, Copy, PartialEq, Eq, Structural)]
pub enum OptimizationGoal {
    MemorySaver,
    Balanced,
    QualityFirst,
    FastestMeasured,
}

} // verus!
