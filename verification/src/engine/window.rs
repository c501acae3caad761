//! The bookkeeping of one node of the alpha-beta search: the best value
//! found among the children tried so far, and the window that the next
//! child is searched with.

use vstd::prelude::*;
use crate::score::{at_least, better, bounds_value, pick, Score, SCORE_MAX, SCORE_MIN};

verus! {

/// Where the pass over the children of a node stands.
#[derive(Clone, Copy, Debug)]
pub struct Window {
    /// The best value among the children tried so far.
    pub best: Score,
    /// The score that the maximizing side is sure of already.
    pub alpha: Score,
    /// The score that the minimizing side is sure of already.
    pub beta: Score,
    /// Whether `best` has met the opposing bound, so that the children
    /// left cannot matter.
    pub cut: bool,
}

impl Window {
    /// The pass before any child: nothing found, the window as it was
    /// handed down.
    pub open spec fn opening(maximizing: bool, alpha: Score, beta: Score) -> Window {
        Window { best: if maximizing { SCORE_MIN } else { SCORE_MAX }, alpha, beta, cut: false }
    }

    /// The pass after one more child came back with `value`: the best so
    /// far by the side's rule, the side's own bound moved up to it, and a
    /// cutoff once it meets the opposing bound.
    pub open spec fn absorbed(self, maximizing: bool, value: Score) -> Window {
        let best = better(maximizing, self.best, value);
        if maximizing {
            Window {
                best,
                alpha: better(true, self.alpha, best),
                beta: self.beta,
                cut: best >= self.beta,
            }
        } else {
            Window {
                best,
                alpha: self.alpha,
                beta: better(false, self.beta, best),
                cut: best <= self.alpha,
            }
        }
    }

    /// What is known during the pass over a node that was entered with the
    /// window `(alpha, beta)` and is worth `value`: the bounds follow the
    /// best so far as the side's rule says, and a best that beats the
    /// side's own bound is no better than the node is worth.
    pub open spec fn on_course(self, maximizing: bool, alpha: Score, beta: Score, value: Score) -> bool {
        &&& alpha < beta
        &&& if maximizing {
            &&& self.beta == beta
            &&& self.alpha == better(true, alpha, self.best)
            &&& self.cut == (self.best >= beta)
            &&& self.best > alpha ==> value >= self.best
        } else {
            &&& self.alpha == alpha
            &&& self.beta == better(false, beta, self.best)
            &&& self.cut == (self.best <= alpha)
            &&& self.best < beta ==> value <= self.best
        }
    }

    /// Computes [`Window::opening`].
    pub fn open(maximizing: bool, alpha: Score, beta: Score) -> (window: Window)
        ensures
            window == Window::opening(maximizing, alpha, beta),
    {
        Window { best: if maximizing { SCORE_MIN } else { SCORE_MAX }, alpha, beta, cut: false }
    }

    /// Computes [`Window::absorbed`].
    pub fn absorb(self, maximizing: bool, value: Score) -> (window: Window)
        ensures
            window == self.absorbed(maximizing, value),
    {
        let best = pick(maximizing, self.best, value);
        if maximizing {
            Window {
                best,
                alpha: pick(true, self.alpha, best),
                beta: self.beta,
                cut: best >= self.beta,
            }
        } else {
            Window {
                best,
                alpha: self.alpha,
                beta: pick(false, self.beta, best),
                cut: best <= self.alpha,
            }
        }
    }
}

/// The pass starts on course, with room in the window.
pub proof fn lemma_opening(maximizing: bool, alpha: Score, beta: Score, value: Score)
    requires
        alpha < beta,
    ensures
        Window::opening(maximizing, alpha, beta).on_course(maximizing, alpha, beta, value),
{
}

/// One more child keeps the pass on course. The child was searched with
/// the window of the pass and is worth `child`; the node is worth at least
/// as much to its side as any of its children. Afterwards the best so far
/// is no worse than it was, and, unless the pass was cut off, no worse than
/// the child is worth.
pub proof fn lemma_absorb(
    window: Window,
    maximizing: bool,
    alpha: Score,
    beta: Score,
    value: Score,
    answer: Score,
    child: Score,
)
    requires
        window.on_course(maximizing, alpha, beta, value),
        !window.cut,
        bounds_value(answer, window.alpha, window.beta, child),
        at_least(maximizing, value, child),
    ensures
        window.absorbed(maximizing, answer).on_course(maximizing, alpha, beta, value),
        at_least(maximizing, window.absorbed(maximizing, answer).best, window.best),
        !window.absorbed(maximizing, answer).cut ==> at_least(
            maximizing,
            window.absorbed(maximizing, answer).best,
            child,
        ),
{
}

/// While the pass is not cut off, the next child gets a window with room
/// in it.
pub proof fn lemma_room(window: Window, maximizing: bool, alpha: Score, beta: Score, value: Score)
    requires
        window.on_course(maximizing, alpha, beta, value),
        !window.cut,
    ensures
        window.alpha < window.beta,
{
}

/// What the pass has found at its end says of the node's worth what an
/// answer for the window must say: the pass was cut off, or its best is no
/// worse than any child and the node is worth what one of its children is.
pub proof fn lemma_settled(
    window: Window,
    maximizing: bool,
    alpha: Score,
    beta: Score,
    value: Score,
)
    requires
        window.on_course(maximizing, alpha, beta, value),
        window.cut || at_least(maximizing, window.best, value),
    ensures
        bounds_value(window.best, alpha, beta, value),
{
}

} // verus!
