//! What holds of the searches, whatever the game and the evaluator.

use vstd::prelude::*;
use crate::engine::cache::{kept, scores_within, TranspositionEntry};
use crate::engine::engine::{
    minimax_outcome, parallel_outcome, puts_off, session_cache, SearchError, DEFER_DEPTH,
};
use crate::engine::soundness::{lemma_search_keeps, lemma_search_model};
use crate::engine::tree::{
    attainable, keys_distinct, lemma_constant_evaluator, lemma_minimax_attained,
    lemma_terminal_value, minimax_value, tree_keys,
};
use crate::score::{Score, SCORE_MAX, SCORE_MIN};
use crate::state::state::{Move, State, StateEval};

verus! {

/// Below the deferral depth no move is ever put off, whatever is in
/// flight.
pub proof fn lemma_below_deferral_depth<M>(depth: usize, in_flight: Set<M>, movement: M)
    requires
        depth < DEFER_DEPTH,
    ensures
        !puts_off(depth, in_flight, movement),
{
}

/// A claim and its release are a pair: a move that was not in flight
/// before it was claimed leaves, once it is released, the moves in flight
/// as they were before the claim.
pub proof fn lemma_claim_and_release<M>(in_flight: Set<M>, movement: M)
    requires
        !in_flight.contains(movement),
    ensures
        in_flight.insert(movement).remove(movement) == in_flight,
{
    assert(in_flight.insert(movement).remove(movement) =~= in_flight);
}

/// The exhaustive search is a function of the position, the depth, the
/// side and the evaluator: two searches of the same give the same answer.
pub proof fn lemma_minimax_repeats<M: Move, S: State<M>, E: StateEval<M, S>>(
    evaluator: &E,
    position: S::V,
    depth: nat,
    perspective: bool,
    first: Result<Score, SearchError>,
    second: Result<Score, SearchError>,
)
    requires
        first == minimax_outcome::<M, S, E>(evaluator, position, depth, perspective),
        second == minimax_outcome::<M, S, E>(evaluator, position, depth, perspective),
    ensures
        first == second,
{
}

/// With an evaluator that scores every position as 0, the exhaustive
/// search of a legal position answers 0 at every depth.
pub proof fn lemma_minimax_of_zero<M: Move, S: State<M>, E: StateEval<M, S>>(
    evaluator: &E,
    position: S::V,
    depth: nat,
    perspective: bool,
)
    requires
        S::legal(position),
        forall|any: S::V| #[trigger] evaluator.value(any) == 0,
    ensures
        minimax_outcome::<M, S, E>(evaluator, position, depth, perspective) == Ok::<
            Score,
            SearchError,
        >(0),
{
    lemma_constant_evaluator::<M, S, E>(evaluator, position, depth, perspective, 0);
}

/// For a legal position without legal moves the exhaustive search answers
/// what the evaluator says of the position, at every depth.
pub proof fn lemma_minimax_at_the_end<M: Move, S: State<M>, E: StateEval<M, S>>(
    evaluator: &E,
    position: S::V,
    depth: nat,
    perspective: bool,
)
    requires
        S::legal(position),
        S::moves(position).len() == 0,
    ensures
        minimax_outcome::<M, S, E>(evaluator, position, depth, perspective) == Ok::<
            Score,
            SearchError,
        >(evaluator.value(position)),
{
    lemma_terminal_value::<M, S, E>(evaluator, position, depth, perspective);
}

/// What the cache of a session holds for the position that is searched.
///
/// Only a node with plies left and legal moves writes to the cache: at
/// depth 0 and for a position without legal moves the cache stays empty.
/// Otherwise the first worker leaves a result for the position that is as
/// deep as was asked, and the workers after it find that and leave it.
/// Every score in the cache is one that the evaluator gives within the
/// horizon; and where the tree below the position has no transposition,
/// the result for the position is its minimax value.
pub proof fn lemma_session_cache<M: Move, S: State<M>, E: StateEval<M, S>>(
    evaluator: &E,
    position: S::V,
    depth: usize,
    workers: nat,
)
    ensures
        scores_within(
            session_cache::<M, S, E>(evaluator, position, depth, workers),
            attainable::<M, S, E>(evaluator, position, depth as nat),
        ),
        workers == 0 || depth == 0 || S::moves(position).len() == 0 ==> session_cache::<M, S, E>(
            evaluator,
            position,
            depth,
            workers,
        ) == Map::<u64, TranspositionEntry>::empty(),
        workers > 0 && depth > 0 && S::moves(position).len() > 0 ==> {
            &&& session_cache::<M, S, E>(evaluator, position, depth, workers).contains_key(
                S::key(position),
            )
            &&& session_cache::<M, S, E>(evaluator, position, depth, workers)[S::key(
                position,
            )].depth == depth
            &&& keys_distinct::<M, S>(position, depth as nat) ==> session_cache::<M, S, E>(
                evaluator,
                position,
                depth,
                workers,
            )[S::key(position)].score == minimax_value::<M, S, E>(
                evaluator,
                position,
                depth as nat,
                true,
            )
        },
    decreases workers,
{
    if workers > 0 {
        let before = session_cache::<M, S, E>(evaluator, position, depth, (workers - 1) as nat);
        lemma_session_cache::<M, S, E>(evaluator, position, depth, (workers - 1) as nat);
        lemma_search_model::<M, S, E>(
            evaluator,
            before,
            Set::empty(),
            SCORE_MIN,
            SCORE_MAX,
            depth,
            true,
            position,
            attainable::<M, S, E>(evaluator, position, depth as nat),
        );
        if workers == 1 {
            assert(before.dom() =~= Set::<u64>::empty());
            assert(before.dom().disjoint(tree_keys::<M, S>(position, depth as nat)));
        }
    }
}

/// Over the life of a session no key leaves the cache and no stored depth
/// goes down: what the cache holds after some workers, it still holds,
/// at least as deep, after more.
pub proof fn lemma_session_keeps<M: Move, S: State<M>, E: StateEval<M, S>>(
    evaluator: &E,
    position: S::V,
    depth: usize,
    earlier: nat,
    later: nat,
)
    requires
        earlier <= later,
    ensures
        kept(
            session_cache::<M, S, E>(evaluator, position, depth, earlier),
            session_cache::<M, S, E>(evaluator, position, depth, later),
        ),
    decreases later,
{
    if earlier < later {
        lemma_session_keeps::<M, S, E>(evaluator, position, depth, earlier, (later - 1) as nat);
        lemma_search_keeps::<M, S, E>(
            evaluator,
            session_cache::<M, S, E>(evaluator, position, depth, (later - 1) as nat),
            Set::empty(),
            SCORE_MIN,
            SCORE_MAX,
            depth,
            true,
            position,
        );
    }
}

/// When the search with workers answers, and what. A position that is not
/// legal is refused. Without a worker, at depth 0 and for a position
/// without legal moves the cache has nothing to give, and the search
/// fails. Otherwise there is an answer, and it is the evaluator's score of
/// some position within the horizon.
pub proof fn lemma_parallel_outcome<M: Move, S: State<M>, E: StateEval<M, S>>(
    evaluator: &E,
    position: S::V,
    depth: usize,
    workers: nat,
)
    ensures
        !S::legal(position) ==> parallel_outcome::<M, S, E>(evaluator, position, depth, workers)
            == Err::<Score, SearchError>(SearchError::InvalidPosition),
        S::legal(position) && (workers == 0 || depth == 0 || S::moves(position).len() == 0)
            ==> parallel_outcome::<M, S, E>(evaluator, position, depth, workers) == Err::<
            Score,
            SearchError,
        >(SearchError::CacheFailure),
        S::legal(position) && workers > 0 && depth > 0 && S::moves(position).len() > 0 ==> {
            &&& parallel_outcome::<M, S, E>(evaluator, position, depth, workers) is Ok
            &&& attainable::<M, S, E>(evaluator, position, depth as nat).contains(
                parallel_outcome::<M, S, E>(evaluator, position, depth, workers)->Ok_0,
            )
        },
{
    lemma_session_cache::<M, S, E>(evaluator, position, depth, workers);
}

/// The two searches agree: with at least one worker, at least one ply, a
/// position that has a legal move, and a tree without transposition, the
/// search with workers answers what the exhaustive search for the
/// maximizing side answers.
pub proof fn lemma_searches_agree<M: Move, S: State<M>, E: StateEval<M, S>>(
    evaluator: &E,
    position: S::V,
    depth: usize,
    workers: nat,
)
    requires
        workers > 0,
        depth > 0,
        S::moves(position).len() > 0,
        keys_distinct::<M, S>(position, depth as nat),
    ensures
        parallel_outcome::<M, S, E>(evaluator, position, depth, workers) == minimax_outcome::<
            M,
            S,
            E,
        >(evaluator, position, depth as nat, true),
{
    lemma_session_cache::<M, S, E>(evaluator, position, depth, workers);
}

/// The two searches agree wherever the evaluator cannot tell the positions
/// within the horizon apart: if it gives them all one score, the search
/// with workers, when it answers, answers what the exhaustive search
/// answers.
pub proof fn lemma_searches_agree_on_one_score<M: Move, S: State<M>, E: StateEval<M, S>>(
    evaluator: &E,
    position: S::V,
    depth: usize,
    workers: nat,
)
    requires
        parallel_outcome::<M, S, E>(evaluator, position, depth, workers) is Ok,
        forall|a: Score, b: Score|
            attainable::<M, S, E>(evaluator, position, depth as nat).contains(a) && attainable::<
                M,
                S,
                E,
            >(evaluator, position, depth as nat).contains(b) ==> a == b,
    ensures
        parallel_outcome::<M, S, E>(evaluator, position, depth, workers) == minimax_outcome::<
            M,
            S,
            E,
        >(evaluator, position, depth as nat, true),
{
    lemma_parallel_outcome::<M, S, E>(evaluator, position, depth, workers);
    lemma_minimax_attained::<M, S, E>(evaluator, position, depth as nat, true);
}

/// With an evaluator that scores every position as 0, the search with
/// workers answers 0 whenever it answers.
pub proof fn lemma_workers_of_zero<M: Move, S: State<M>, E: StateEval<M, S>>(
    evaluator: &E,
    position: S::V,
    depth: usize,
    workers: nat,
)
    requires
        parallel_outcome::<M, S, E>(evaluator, position, depth, workers) is Ok,
        forall|any: S::V| #[trigger] evaluator.value(any) == 0,
    ensures
        parallel_outcome::<M, S, E>(evaluator, position, depth, workers) == Ok::<
            Score,
            SearchError,
        >(0),
{
    lemma_parallel_outcome::<M, S, E>(evaluator, position, depth, workers);
}

} // verus!
