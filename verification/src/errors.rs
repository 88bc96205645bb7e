use vstd::prelude::*;

verus! {

/// Failures of the engine.
///
/// `ArityMismatch` and `NotOperable`: an operator was applied to the wrong
/// number of argument vectors, or a terminal was asked to operate.
/// `EmptyTree` / `UnevaluatedIndividual`: a prerequisite computation (tree
/// construction, evaluation) has not happened yet; these signal a sequencing
/// bug in the caller. `InvalidPoolSize` / `InvalidPopulationSize`: a
/// configuration was rejected before a run started. `NotImplemented`: a
/// declared selection policy that has no implementation was invoked.
#[derive(Clone, Copy, Debug, PartialEq, Eq, Structural)]
pub enum GpError {
    ArityMismatch,
    NotOperable,
    EmptyTree,
    UnevaluatedIndividual,
    InvalidPoolSize,
    InvalidPopulationSize,
    NotImplemented,
}

} // verus!
