//! How often a transition is applied, and when its last iterate counts as
//! bounded.
use vstd::prelude::*;
use crate::binary64::Binary64;
use crate::registry::{EscapeClause, Fractal, Transition};

verus! {

/// The number of times a transition is applied to a sample. It is fixed:
/// no sample is given up early and none is followed longer, so that the
/// time spent on a sample does not depend on the sample, and so that the
/// same configuration always draws the same picture.
pub const ITERATION_DEPTH: u32 = 36;

/// What the evaluation of one sample does next.
#[derive(Clone, Copy, Debug, PartialEq, Eq, Structural)]
pub enum EvalAction {
    /// Replace `z` by the transition of `z` and the sample.
    Apply(Transition),
    /// Classify the sample by the clause on `z`, and stop.
    Test(EscapeClause),
}

/// The action that follows `applied` applications of the transition.
pub open spec fn action_after(fractal: Fractal, applied: nat) -> EvalAction {
    if applied < ITERATION_DEPTH {
        EvalAction::Apply(fractal.function)
    } else {
        EvalAction::Test(fractal.clause)
    }
}

/// Decides the next action in the evaluation of a sample, which starts
/// from `z` equal to the sample: apply the transition while it has been
/// applied fewer than `ITERATION_DEPTH` times, whatever `z` has become,
/// then test the clause.
pub fn next_action(fractal: Fractal, applied: u32) -> (action: EvalAction)
    ensures
        action == action_after(fractal, applied as nat),
{
    if applied < ITERATION_DEPTH {
        EvalAction::Apply(fractal.function)
    } else {
        EvalAction::Test(fractal.clause)
    }
}

impl EscapeClause {
    /// Whether a last iterate of the given magnitude satisfies the clause:
    /// the magnitude is a number and does not exceed the radius.
    pub open spec fn satisfied_by(self, magnitude: Binary64) -> bool {
        magnitude.at_most(self.radius as nat)
    }

    /// Classifies a sample by the magnitude of its last iterate.
    pub fn holds(self, magnitude: Binary64) -> (satisfied: bool)
        ensures
            satisfied == self.satisfied_by(magnitude),
    {
        magnitude.is_at_most(self.radius)
    }
}

/// The depth is fixed: the first `ITERATION_DEPTH` actions apply the
/// fractal's transition, and every later one tests its clause.
pub proof fn lemma_fixed_depth(fractal: Fractal, applied: nat)
    ensures
        applied < 36 <==> action_after(fractal, applied) == EvalAction::Apply(fractal.function),
        applied >= 36 <==> action_after(fractal, applied) == EvalAction::Test(fractal.clause),
{
}

} // verus!
