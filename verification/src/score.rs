//! Scores and the max/min-by-perspective rule.

use vstd::prelude::*;

verus! {

/// The value of a position, seen from the maximizing side: larger is better
/// for it.
pub type Score = i64;

/// The lower end of a search window: no score lies below it.
pub const SCORE_MIN: Score = i64::MIN;

/// The upper end of a search window: no score lies above it.
pub const SCORE_MAX: Score = i64::MAX;

/// The better of two scores for the side to move: the larger one for the
/// maximizing side, the smaller one for its opponent.
pub open spec fn better(maximizing: bool, a: Score, b: Score) -> Score {
    if maximizing {
        if a >= b { a } else { b }
    } else {
        if a <= b { a } else { b }
    }
}

/// Whether `a` is at least as good as `b` for the side to move.
pub open spec fn at_least(maximizing: bool, a: Score, b: Score) -> bool {
    if maximizing {
        a >= b
    } else {
        a <= b
    }
}

/// What an answer of a search with the window `(alpha, beta)` says of the
/// value searched for: inside the window the answer is the value, at or
/// below `alpha` it is an upper bound of it, at or above `beta` a lower
/// bound.
pub open spec fn bounds_value(answer: Score, alpha: Score, beta: Score, value: Score) -> bool {
    &&& answer <= alpha ==> value <= answer
    &&& answer >= beta ==> value >= answer
    &&& alpha < answer < beta ==> value == answer
}

/// Computes [`better`].
pub fn pick(maximizing: bool, a: Score, b: Score) -> (best: Score)
    ensures
        best == better(maximizing, a, b),
{
    if maximizing {
        if a >= b { a } else { b }
    } else {
        if a <= b { a } else { b }
    }
}

} // verus!
