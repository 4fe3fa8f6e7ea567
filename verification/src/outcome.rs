//! The result of an adaptive routine.
//!
//! Each adaptive routine is a refinement loop bounded by an iteration cap.
//! Its result is a tagged outcome, so that a caller can tell an estimate
//! that met the requested tolerance from a best effort returned at the cap.

use vstd::prelude::*;
use crate::rational::{Qv, Rat};

verus! {

/// A finished adaptive run: the estimate, the refinement level it was
/// produced at, and whether the tolerance was met before the level cap.
#[derive(Clone, Copy, Debug, PartialEq, Eq, Structural)]
pub enum Outcome {
    /// The estimated error fell below the requested tolerance.
    Converged { value: Rat, level: usize },
    /// The level cap was reached first; the value is the last estimate.
    CapReached { value: Rat, level: usize },
}

/// The specification view of an `Outcome`.
pub enum OutcomeV {
    Converged { value: Qv, level: nat },
    CapReached { value: Qv, level: nat },
}

impl View for Outcome {
    type V = OutcomeV;

    open spec fn view(&self) -> OutcomeV {
        match self {
            Outcome::Converged { value, level } => OutcomeV::Converged {
                value: value@,
                level: *level as nat,
            },
            Outcome::CapReached { value, level } => OutcomeV::CapReached {
                value: value@,
                level: *level as nat,
            },
        }
    }
}

impl Outcome {
    /// The estimate, however the run ended.
    pub fn value(&self) -> (r: Rat)
        ensures
            r@ == self.spec_value(),
    {
        match self {
            Outcome::Converged { value, .. } => *value,
            Outcome::CapReached { value, .. } => *value,
        }
    }

    /// The refinement level the estimate was produced at.
    pub fn level(&self) -> (r: usize)
        ensures
            r as nat == self.spec_level(),
    {
        match self {
            Outcome::Converged { level, .. } => *level,
            Outcome::CapReached { level, .. } => *level,
        }
    }

    /// Whether the tolerance was met.
    pub fn converged(&self) -> (r: bool)
        ensures
            r == (self@ is Converged),
    {
        match self {
            Outcome::Converged { .. } => true,
            Outcome::CapReached { .. } => false,
        }
    }

    /// The estimate, at the specification level.
    pub open spec fn spec_value(&self) -> Qv {
        match self@ {
            OutcomeV::Converged { value, .. } => value,
            OutcomeV::CapReached { value, .. } => value,
        }
    }

    /// The level, at the specification level.
    pub open spec fn spec_level(&self) -> nat {
        match self@ {
            OutcomeV::Converged { level, .. } => level,
            OutcomeV::CapReached { level, .. } => level,
        }
    }
}

/// Outcomes with the same view are the same value.
pub proof fn lemma_outcome_view_injective(o1: Outcome, o2: Outcome)
    requires
        o1@ == o2@,
    ensures
        o1 == o2,
{
    match (o1, o2) {
        (
            Outcome::Converged { value: v1, level: l1 },
            Outcome::Converged { value: v2, level: l2 },
        ) => {
            crate::rational::lemma_rat_view_injective(v1, v2);
        },
        (
            Outcome::CapReached { value: v1, level: l1 },
            Outcome::CapReached { value: v2, level: l2 },
        ) => {
            crate::rational::lemma_rat_view_injective(v1, v2);
        },
        _ => {},
    }
}

/// As `lemma_outcome_view_injective`, lifted to optional results.
pub proof fn lemma_ovo_injective(o1: Option<Outcome>, o2: Option<Outcome>)
    requires
        ovo(o1) == ovo(o2),
    ensures
        o1 == o2,
{
    match (o1, o2) {
        (Some(v1), Some(v2)) => {
            lemma_outcome_view_injective(v1, v2);
        },
        _ => {},
    }
}

/// Lift `Option<Outcome>` to its specification view.
pub open spec fn ovo(r: Option<Outcome>) -> Option<OutcomeV> {
    match r {
        Some(o) => Some(o@),
        None => None,
    }
}

} // verus!
