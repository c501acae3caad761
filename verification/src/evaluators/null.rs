//! An evaluator that sees nothing.

use vstd::prelude::*;
use crate::score::Score;
use crate::state::state::{Move, State, StateEval};

verus! {

/// Scores every position of every game as 0.
#[derive(Clone, Copy, Debug)]
pub struct NullEval;

impl<M: Move, S: State<M>> StateEval<M, S> for NullEval {
    open spec fn value(&self, position: S::V) -> Score {
        0
    }

    fn evaluate(&self, state: &S) -> (score: Score) {
        0
    }
}

} // verus!
