//! What the search over the tables computes when one worker has the tables
//! to itself, as a function of what it is given.

use vstd::prelude::*;
use crate::engine::cache::{lookup_in, store_in, TranspositionEntry};
use crate::engine::engine::puts_off;
use crate::engine::window::Window;
use crate::score::Score;
use crate::state::state::{Move, State, StateEval};

verus! {

/// Whether the child number `index` of `position` is put off at a node
/// with `depth` plies left, given the moves in flight when the node is
/// entered. The first child never is.
pub open spec fn put_off_at<M: Move, S: State<M>>(
    claims: Set<M>,
    depth: usize,
    position: S::V,
    index: int,
) -> bool {
    index > 0 && puts_off(depth, claims, S::moves(position)[index])
}

/// The answer of the search of `position` and the cache that it leaves.
///
/// The search is entered with the cache `entries`, the moves in flight
/// `claims` and the window `(alpha, beta)`. A cached result that is deep
/// enough is the answer. At depth 0 and without legal moves the
/// evaluator's score is. Otherwise the children are tried in two passes,
/// and the best value found is the answer and is offered to the cache.
pub open spec fn search_model<M: Move, S: State<M>, E: StateEval<M, S>>(
    evaluator: &E,
    entries: Map<u64, TranspositionEntry>,
    claims: Set<M>,
    alpha: Score,
    beta: Score,
    depth: usize,
    maximizing: bool,
    position: S::V,
) -> (Score, Map<u64, TranspositionEntry>)
    decreases depth, 3nat, 0nat,
{
    match lookup_in(entries, S::key(position), depth) {
        Some(score) => (score, entries),
        None => if depth == 0 || S::moves(position).len() == 0 {
            (evaluator.value(position), entries)
        } else {
            let first = first_pass::<M, S, E>(
                evaluator,
                entries,
                claims,
                alpha,
                beta,
                depth,
                maximizing,
                position,
                S::moves(position).len(),
            );
            let second = second_pass::<M, S, E>(
                evaluator,
                first,
                claims,
                depth,
                maximizing,
                position,
                S::moves(position).len(),
            );
            (second.0.best, store_in(second.1, S::key(position), depth, second.0.best))
        },
    }
}

/// Where the first pass over the children of `position` stands when it has
/// come to the child number `upto`, and the cache at that point.
///
/// The pass takes the children in their order. Once the best value has met
/// the opposing bound, the children left are skipped. A child that is put
/// off is skipped. Any other is searched one ply less deep, from the other
/// side, with the window as it stands, and while it is searched its move
/// is in flight, unless it is the first.
pub open spec fn first_pass<M: Move, S: State<M>, E: StateEval<M, S>>(
    evaluator: &E,
    entries: Map<u64, TranspositionEntry>,
    claims: Set<M>,
    alpha: Score,
    beta: Score,
    depth: usize,
    maximizing: bool,
    position: S::V,
    upto: nat,
) -> (Window, Map<u64, TranspositionEntry>)
    decreases depth, 1nat, upto,
{
    if upto == 0 || depth == 0 {
        (Window::opening(maximizing, alpha, beta), entries)
    } else {
        let before = first_pass::<M, S, E>(
            evaluator,
            entries,
            claims,
            alpha,
            beta,
            depth,
            maximizing,
            position,
            (upto - 1) as nat,
        );
        let index = upto - 1;
        if before.0.cut || put_off_at::<M, S>(claims, depth, position, index) {
            before
        } else {
            let movement = S::moves(position)[index];
            let below = search_model::<M, S, E>(
                evaluator,
                before.1,
                if index > 0 {
                    claims.insert(movement)
                } else {
                    claims
                },
                before.0.alpha,
                before.0.beta,
                (depth - 1) as usize,
                !maximizing,
                S::after(position, movement),
            );
            (before.0.absorbed(maximizing, below.0), below.1)
        }
    }
}

/// Where the second pass over the children of `position` stands when it
/// has come to the child number `upto`, and the cache at that point. The
/// pass starts from where the first pass ended, `start`.
///
/// The pass takes the children that were put off, in their order, and
/// searches each as the first pass searches a child, but without marking
/// its move: the move is in flight already. It, too, stops once the best
/// value has met the opposing bound.
pub open spec fn second_pass<M: Move, S: State<M>, E: StateEval<M, S>>(
    evaluator: &E,
    start: (Window, Map<u64, TranspositionEntry>),
    claims: Set<M>,
    depth: usize,
    maximizing: bool,
    position: S::V,
    upto: nat,
) -> (Window, Map<u64, TranspositionEntry>)
    decreases depth, 2nat, upto,
{
    if upto == 0 || depth == 0 {
        start
    } else {
        let before = second_pass::<M, S, E>(
            evaluator,
            start,
            claims,
            depth,
            maximizing,
            position,
            (upto - 1) as nat,
        );
        let index = upto - 1;
        if before.0.cut || !put_off_at::<M, S>(claims, depth, position, index) {
            before
        } else {
            let below = search_model::<M, S, E>(
                evaluator,
                before.1,
                claims,
                before.0.alpha,
                before.0.beta,
                (depth - 1) as usize,
                !maximizing,
                S::after(position, S::moves(position)[index]),
            );
            (before.0.absorbed(maximizing, below.0), below.1)
        }
    }
}

/// Once the first pass is cut off, it stays where it is.
pub proof fn lemma_first_pass_stays<M: Move, S: State<M>, E: StateEval<M, S>>(
    evaluator: &E,
    entries: Map<u64, TranspositionEntry>,
    claims: Set<M>,
    alpha: Score,
    beta: Score,
    depth: usize,
    maximizing: bool,
    position: S::V,
    from: nat,
    upto: nat,
)
    requires
        from <= upto,
        first_pass::<M, S, E>(
            evaluator,
            entries,
            claims,
            alpha,
            beta,
            depth,
            maximizing,
            position,
            from,
        ).0.cut,
    ensures
        first_pass::<M, S, E>(
            evaluator,
            entries,
            claims,
            alpha,
            beta,
            depth,
            maximizing,
            position,
            upto,
        ) == first_pass::<M, S, E>(
            evaluator,
            entries,
            claims,
            alpha,
            beta,
            depth,
            maximizing,
            position,
            from,
        ),
    decreases upto,
{
    if from < upto {
        lemma_first_pass_stays::<M, S, E>(
            evaluator,
            entries,
            claims,
            alpha,
            beta,
            depth,
            maximizing,
            position,
            from,
            (upto - 1) as nat,
        );
    }
}

/// The second pass stays where it is over children that were not put off,
/// and over all children once it is cut off.
pub proof fn lemma_second_pass_stays<M: Move, S: State<M>, E: StateEval<M, S>>(
    evaluator: &E,
    start: (Window, Map<u64, TranspositionEntry>),
    claims: Set<M>,
    depth: usize,
    maximizing: bool,
    position: S::V,
    from: nat,
    upto: nat,
)
    requires
        from <= upto,
        second_pass::<M, S, E>(evaluator, start, claims, depth, maximizing, position, from).0.cut
            || forall|index: int|
            from <= index < upto ==> !put_off_at::<M, S>(claims, depth, position, index),
    ensures
        second_pass::<M, S, E>(evaluator, start, claims, depth, maximizing, position, upto)
            == second_pass::<M, S, E>(evaluator, start, claims, depth, maximizing, position, from),
    decreases upto,
{
    if from < upto {
        lemma_second_pass_stays::<M, S, E>(
            evaluator,
            start,
            claims,
            depth,
            maximizing,
            position,
            from,
            (upto - 1) as nat,
        );
    }
}

} // verus!
