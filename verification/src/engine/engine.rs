//! The two searches: exhaustive minimax, and the ABDADA-style alpha-beta
//! search over shared tables.

use vstd::prelude::*;
use crate::score::{pick, Score, SCORE_MAX, SCORE_MIN};
use crate::state::state::{Move, State, StateEval};
use crate::engine::cache::{lookup_in, TranspositionEntry};
use crate::engine::inflight::InFlightSet;
use crate::engine::model::{
    first_pass, lemma_first_pass_stays, lemma_second_pass_stays, put_off_at, search_model,
    second_pass,
};
use crate::engine::tables::{same_session, LocalTables, SearchTables};
use crate::engine::tree::{
    attainable, best_reply, child, child_value, lemma_attainable_child, lemma_attainable_here,
    minimax_value,
};
use crate::engine::window::Window;

verus! {

/// From this remaining depth on, a move that another worker is exploring is
/// put off. Below it the subtrees are small, and searching one twice costs
/// less than waiting for it.
pub const DEFER_DEPTH: usize = 2;

/// The number of workers of a session, unless the caller names another.
pub const NUM_THREADS: usize = 4;

/// Why a search gave no score.
#[derive(Clone, Copy, Debug, PartialEq, Eq, Structural)]
pub enum SearchError {
    /// The position to search from is not a legal position of the game.
    InvalidPosition,
    /// After all workers had finished, the cache held no result for the root
    /// that was searched as deep as asked.
    CacheFailure,
}

/// What the exhaustive search answers: the minimax value of a legal
/// position, and a refusal for any other.
pub open spec fn minimax_outcome<M: Move, S: State<M>, E: StateEval<M, S>>(
    evaluator: &E,
    position: S::V,
    depth: nat,
    perspective: bool,
) -> Result<Score, SearchError> {
    if S::legal(position) {
        Ok(minimax_value::<M, S, E>(evaluator, position, depth, perspective))
    } else {
        Err(SearchError::InvalidPosition)
    }
}

/// The cache of a session after `workers` workers have searched `position`
/// one after the other, each with the full window and for the maximizing
/// side. The session starts with an empty cache and no move in flight.
pub open spec fn session_cache<M: Move, S: State<M>, E: StateEval<M, S>>(
    evaluator: &E,
    position: S::V,
    depth: usize,
    workers: nat,
) -> Map<u64, TranspositionEntry>
    decreases workers,
{
    if workers == 0 {
        Map::empty()
    } else {
        search_model::<M, S, E>(
            evaluator,
            session_cache::<M, S, E>(evaluator, position, depth, (workers - 1) as nat),
            Set::empty(),
            SCORE_MIN,
            SCORE_MAX,
            depth,
            true,
            position,
        ).1
    }
}

/// What the search with workers answers when the workers take their turns
/// one after the other: a refusal for a position that is not legal, and
/// otherwise what the cache of the session holds for the position when all
/// workers are done, if that is as deep as was asked.
pub open spec fn parallel_outcome<M: Move, S: State<M>, E: StateEval<M, S>>(
    evaluator: &E,
    position: S::V,
    depth: usize,
    workers: nat,
) -> Result<Score, SearchError> {
    if !S::legal(position) {
        Err(SearchError::InvalidPosition)
    } else {
        match lookup_in(
            session_cache::<M, S, E>(evaluator, position, depth, workers),
            S::key(position),
            depth,
        ) {
            Some(score) => Ok(score),
            None => Err(SearchError::CacheFailure),
        }
    }
}

/// Something that holds a position and can search from it.
pub trait Engine<M: Move, S: State<M>>: Sized {
    /// The position that the engine holds.
    spec fn position(&self) -> S::V;

    /// A copy of the position that the engine holds.
    fn state(&self) -> (state: S)
        ensures
            state@ == self.position(),
    ;

    /// Exhaustive minimax from the engine's position, `depth` plies deep,
    /// without pruning and without memory. `perspective` says whether the
    /// side to move maximizes.
    fn minimax_naive<E: StateEval<M, S>>(
        &self,
        evaluator: &E,
        depth: usize,
        perspective: bool,
    ) -> (outcome: Result<Score, SearchError>)
        ensures
            outcome == minimax_outcome::<M, S, E>(
                evaluator,
                self.position(),
                depth as nat,
                perspective,
            ),
    {
        let state = self.state();
        if !state.is_valid() {
            return Err(SearchError::InvalidPosition);
        }
        Ok(minimax_naive_recurse(evaluator, depth, perspective, state))
    }

    /// The search with [`NUM_THREADS`] workers, `depth` plies deep, for the
    /// maximizing side.
    fn abdada<E: StateEval<M, S>>(&self, evaluator: &E, depth: usize) -> (outcome: Result<
        Score,
        SearchError,
    >)
        ensures
            outcome == parallel_outcome::<M, S, E>(
                evaluator,
                self.position(),
                depth,
                NUM_THREADS as nat,
            ),
    {
        self.search_parallel(evaluator, depth, NUM_THREADS)
    }

    /// The search with `thread_count` workers, `depth` plies deep, for the
    /// maximizing side. Every worker searches from the engine's position
    /// with the full window, on one cache and one set of moves in flight;
    /// the answer is what the cache holds for the position when all are
    /// done. Here the workers take their turns one after the other; for
    /// workers that run at the same time there is
    /// [`SearchSession`](crate::engine::session::SearchSession).
    ///
    /// When there is an answer, and when it is the minimax value, is shown
    /// in [`laws`](crate::engine::laws).
    fn search_parallel<E: StateEval<M, S>>(
        &self,
        evaluator: &E,
        depth: usize,
        thread_count: usize,
    ) -> (outcome: Result<Score, SearchError>)
        ensures
            outcome == parallel_outcome::<M, S, E>(
                evaluator,
                self.position(),
                depth,
                thread_count as nat,
            ),
    {
        let state = self.state();
        if !state.is_valid() {
            return Err(SearchError::InvalidPosition);
        }
        run_workers(evaluator, depth, thread_count, &state)
    }
}

/// Runs `thread_count` workers from `state`, one after the other, on fresh
/// tables, and reads the answer from the cache.
fn run_workers<M: Move, S: State<M>, E: StateEval<M, S>>(
    evaluator: &E,
    depth: usize,
    thread_count: usize,
    state: &S,
) -> (outcome: Result<Score, SearchError>)
    requires
        S::legal(state@),
    ensures
        outcome == parallel_outcome::<M, S, E>(evaluator, state@, depth, thread_count as nat),
{
    let ghost scores = attainable::<M, S, E>(evaluator, state@, depth as nat);
    let mut tables = LocalTables::<M>::new(Ghost(scores));
    let mut worker: usize = 0;
    while worker < thread_count
        invariant
            worker <= thread_count,
            scores == attainable::<M, S, E>(evaluator, state@, depth as nat),
            tables.wf(),
            tables.exclusive(),
            tables.admitted() == scores,
            tables.in_flight() == Set::<M>::empty(),
            tables.entries() == session_cache::<M, S, E>(evaluator, state@, depth, worker as nat),
        decreases thread_count - worker,
    {
        abdada_recurse(&mut tables, SCORE_MIN, SCORE_MAX, depth, true, evaluator, state);
        worker += 1;
    }
    match tables.probe(state.hash(), depth) {
        Some(score) => Ok(score),
        None => Err(SearchError::CacheFailure),
    }
}

/// Whether `movement` is put off at a node with `depth` plies left, given
/// the moves `in_flight`: only where the node is deep enough and the move
/// is in flight.
pub open spec fn puts_off<M>(depth: usize, in_flight: Set<M>, movement: M) -> bool {
    depth >= DEFER_DEPTH && in_flight.contains(movement)
}

/// Decides [`puts_off`] for `curr_move`.
pub fn defer_move<M: Move>(curr_move: M, depth: usize, curr_searching: &InFlightSet<M>) -> (deferred:
    bool)
    ensures
        deferred == puts_off(depth, curr_searching@, curr_move),
{
    if depth < DEFER_DEPTH {
        false
    } else {
        curr_searching.contains(curr_move)
    }
}

/// Claims `curr_move` before its subtree is searched: the move is in
/// flight from now on. The plies left at the node, `depth`, make no
/// difference to a claim; only [`defer_move`] looks at them.
#[allow(unused_variables)]
pub fn starting_search<M: Move>(curr_move: M, depth: usize, curr_searching: &mut InFlightSet<M>)
    ensures
        final(curr_searching)@ == old(curr_searching)@.insert(curr_move),
{
    curr_searching.insert(curr_move);
}

/// Releases the claim on `curr_move` once its subtree is done: the move is
/// in flight no more. The plies left at the node, `depth`, make no
/// difference to a release.
#[allow(unused_variables)]
pub fn finished_search<M: Move>(curr_move: M, depth: usize, curr_searching: &mut InFlightSet<M>)
    ensures
        final(curr_searching)@ == old(curr_searching)@.remove(curr_move),
{
    curr_searching.remove(curr_move);
}

/// The minimax value of `state`, by visiting every position within `depth`
/// plies.
pub fn minimax_naive_recurse<M: Move, S: State<M>, E: StateEval<M, S>>(
    evaluator: &E,
    depth: usize,
    perspective: bool,
    state: S,
) -> (score: Score)
    ensures
        score == minimax_value::<M, S, E>(evaluator, state@, depth as nat, perspective),
    decreases depth,
{
    let legal_moves = state.legal_moves();
    if depth == 0 || legal_moves.len() == 0 {
        evaluator.evaluate(&state)
    } else {
        let mut best = minimax_naive_recurse(
            evaluator,
            depth - 1,
            !perspective,
            state.make_move(legal_moves[0]),
        );
        assert(best == child_value::<M, S, E>(
            evaluator,
            state@,
            (depth - 1) as nat,
            perspective,
            0,
        ));
        let mut i: usize = 1;
        while i < legal_moves.len()
            invariant
                depth > 0,
                1 <= i <= legal_moves.len(),
                legal_moves@ == S::moves(state@),
                best == best_reply::<M, S, E>(
                    evaluator,
                    state@,
                    (depth - 1) as nat,
                    perspective,
                    i as nat,
                ),
            decreases legal_moves.len() - i,
        {
            let value = minimax_naive_recurse(
                evaluator,
                depth - 1,
                !perspective,
                state.make_move(legal_moves[i]),
            );
            assert(value == child_value::<M, S, E>(
                evaluator,
                state@,
                (depth - 1) as nat,
                perspective,
                i as int,
            ));
            best = pick(perspective, best, value);
            i += 1;
        }
        best
    }
}

/// Whether the child number `index` is among the children put off that
/// `list` names.
pub open spec fn listed(list: Seq<usize>, index: int) -> bool {
    exists|q: int| 0 <= q < list.len() && #[trigger] list[q] == index
}

/// One node of the ABDADA search: alpha-beta with the window
/// `(alpha, beta)` over the shared `tables`.
///
/// A cached result that is deep enough is returned at once. A position at
/// depth 0 or without legal moves is scored by the evaluator. Otherwise the
/// first move is searched at once; each later move is put off if another
/// worker has it in flight and the node is deep enough, and otherwise
/// claimed, searched and released. A move that is in flight already when
/// it is claimed stays in flight when its subtree is done: the claim that
/// was met is not this node's to release. The moves put off are searched
/// when the others are done. The pass stops as soon as the best value meets the
/// opposing bound. The result goes into the cache.
///
/// Whoever else uses the tables, the answer is one of the scores that the
/// tables admit. A worker that has the tables to itself gets the answer of
/// [`search_model`], and leaves the cache that it says and the moves in
/// flight as they were.
pub fn abdada_recurse<M: Move, S: State<M>, E: StateEval<M, S>, T: SearchTables<M>>(
    tables: &mut T,
    alpha: Score,
    beta: Score,
    depth: usize,
    maximizing: bool,
    evaluator: &E,
    state: &S,
) -> (x: Score)
    requires
        old(tables).wf(),
        attainable::<M, S, E>(evaluator, state@, depth as nat).subset_of(old(tables).admitted()),
    ensures
        same_session(old(tables), final(tables)),
        final(tables).admitted().contains(x),
        old(tables).exclusive() ==> final(tables).in_flight() == old(tables).in_flight(),
        old(tables).exclusive() ==> (x, final(tables).entries()) == search_model::<M, S, E>(
            evaluator,
            old(tables).entries(),
            old(tables).in_flight(),
            alpha,
            beta,
            depth,
            maximizing,
            state@,
        ),
    decreases depth,
{
    let ghost position = state@;
    let ghost before = tables.entries();
    let ghost claims = tables.in_flight();
    let ghost alone = tables.exclusive();

    let hash = state.hash();
    match tables.probe(hash, depth) {
        Some(score) => {
            return score;
        },
        None => {},
    }
    let legal_moves = state.legal_moves();
    if depth == 0 || legal_moves.len() == 0 {
        proof {
            lemma_attainable_here::<M, S, E>(evaluator, position, depth as nat);
        }
        return evaluator.evaluate(state);
    }
    let count = legal_moves.len();
    proof {
        assert forall|j: int| 0 <= j < count implies #[trigger] attainable::<M, S, E>(
            evaluator,
            child::<M, S>(position, j),
            (depth - 1) as nat,
        ).subset_of(tables.admitted()) by {
            lemma_attainable_child::<M, S, E>(evaluator, position, depth as nat, j);
        }
    }

    let mut window = Window::open(maximizing, alpha, beta);
    let mut deferred: Vec<usize> = Vec::new();
    let mut i: usize = 0;
    while i < count && !window.cut
        invariant
            depth > 0,
            count == legal_moves.len(),
            count > 0,
            i <= count,
            legal_moves@ == S::moves(position),
            position == state@,
            alone == old(tables).exclusive(),
            before == old(tables).entries(),
            claims == old(tables).in_flight(),
            same_session(old(tables), tables),
            i > 0 ==> tables.admitted().contains(window.best),
            i == 0 ==> window == Window::opening(maximizing, alpha, beta),
            forall|j: int|
                0 <= j < count ==> #[trigger] attainable::<M, S, E>(
                    evaluator,
                    child::<M, S>(position, j),
                    (depth - 1) as nat,
                ).subset_of(tables.admitted()),
            forall|q: int| 0 <= q < deferred@.len() ==> 0 < #[trigger] deferred@[q] < i,
            forall|q: int, r: int|
                0 <= q < r < deferred@.len() ==> #[trigger] deferred@[q] < #[trigger] deferred@[r],
            alone ==> tables.in_flight() == claims,
            alone ==> (window, tables.entries()) == first_pass::<M, S, E>(
                evaluator,
                before,
                claims,
                alpha,
                beta,
                depth,
                maximizing,
                position,
                i as nat,
            ),
            alone && !window.cut ==> forall|j: int|
                0 <= j < i ==> (listed(deferred@, j) <==> #[trigger] put_off_at::<M, S>(
                    claims,
                    depth,
                    position,
                    j,
                )),
        decreases count - i,
    {
        let movement = legal_moves[i];
        if i > 0 && tables.deferred(movement, depth) {
            let ghost earlier = deferred@;
            deferred.push(i);
            proof {
                assert(deferred@[deferred@.len() - 1] == i);
                assert forall|j: int| listed(earlier, j) implies listed(deferred@, j) by {
                    let q = choose|q: int| 0 <= q < earlier.len() && #[trigger] earlier[q] == j;
                    assert(deferred@[q] == j);
                }
                assert forall|j: int| j != i && listed(deferred@, j) implies listed(earlier, j) by {
                    let q = choose|q: int| 0 <= q < deferred@.len() && #[trigger] deferred@[q] == j;
                    assert(earlier[q] == j);
                }
                assert(listed(deferred@, i as int));
            }
        } else {
            let mut claimed = false;
            if i > 0 {
                claimed = tables.claim(movement, depth);
            }
            let next = state.make_move(movement);
            assert(attainable::<M, S, E>(
                evaluator,
                child::<M, S>(position, i as int),
                (depth - 1) as nat,
            ).subset_of(tables.admitted()));
            let answer = abdada_recurse(
                tables,
                window.alpha,
                window.beta,
                depth - 1,
                !maximizing,
                evaluator,
                &next,
            );
            if claimed {
                tables.release(movement, depth);
            }
            window = window.absorb(maximizing, answer);
            proof {
                if alone {
                    assert(tables.in_flight() =~= claims);
                }
            }
        }
        i += 1;
    }
    let ghost first = first_pass::<M, S, E>(
        evaluator,
        before,
        claims,
        alpha,
        beta,
        depth,
        maximizing,
        position,
        count as nat,
    );
    let ghost mut done: nat = 0;
    proof {
        if alone && i < count {
            lemma_first_pass_stays::<M, S, E>(
                evaluator,
                before,
                claims,
                alpha,
                beta,
                depth,
                maximizing,
                position,
                i as nat,
                count as nat,
            );
        }
    }
    let mut k: usize = 0;
    while k < deferred.len() && !window.cut
        invariant
            depth > 0,
            count == legal_moves.len(),
            count > 0,
            k <= deferred@.len(),
            legal_moves@ == S::moves(position),
            position == state@,
            alone == old(tables).exclusive(),
            before == old(tables).entries(),
            claims == old(tables).in_flight(),
            same_session(old(tables), tables),
            tables.admitted().contains(window.best),
            forall|j: int|
                0 <= j < count ==> #[trigger] attainable::<M, S, E>(
                    evaluator,
                    child::<M, S>(position, j),
                    (depth - 1) as nat,
                ).subset_of(tables.admitted()),
            forall|q: int| 0 <= q < deferred@.len() ==> 0 < #[trigger] deferred@[q] < count,
            forall|q: int, r: int|
                0 <= q < r < deferred@.len() ==> #[trigger] deferred@[q] < #[trigger] deferred@[r],
            alone ==> tables.in_flight() == claims,
            done <= count,
            forall|q: int| 0 <= q < k ==> #[trigger] deferred@[q] < done,
            forall|q: int| k <= q < deferred@.len() ==> #[trigger] deferred@[q] >= done,
            alone ==> (window, tables.entries()) == second_pass::<M, S, E>(
                evaluator,
                first,
                claims,
                depth,
                maximizing,
                position,
                done,
            ),
            alone && !window.cut ==> forall|j: int|
                0 <= j < count ==> (listed(deferred@, j) <==> #[trigger] put_off_at::<M, S>(
                    claims,
                    depth,
                    position,
                    j,
                )),
        decreases deferred@.len() - k,
    {
        let index = deferred[k];
        let movement = legal_moves[index];
        proof {
            if alone {
                assert forall|j: int| done <= j < index implies !put_off_at::<M, S>(
                    claims,
                    depth,
                    position,
                    j,
                ) by {
                    if listed(deferred@, j) {
                        let q = choose|q: int|
                            0 <= q < deferred@.len() && #[trigger] deferred@[q] == j;
                        assert(q < k || q >= k);
                    }
                }
                lemma_second_pass_stays::<M, S, E>(
                    evaluator,
                    first,
                    claims,
                    depth,
                    maximizing,
                    position,
                    done,
                    index as nat,
                );
                assert(listed(deferred@, index as int));
            }
        }
        let next = state.make_move(movement);
        assert(attainable::<M, S, E>(
            evaluator,
            child::<M, S>(position, index as int),
            (depth - 1) as nat,
        ).subset_of(tables.admitted()));
        let answer = abdada_recurse(
            tables,
            window.alpha,
            window.beta,
            depth - 1,
            !maximizing,
            evaluator,
            &next,
        );
        window = window.absorb(maximizing, answer);
        proof {
            done = (index + 1) as nat;
        }
        k += 1;
    }
    proof {
        if alone {
            if !window.cut {
                assert forall|j: int| done <= j < count implies !put_off_at::<M, S>(
                    claims,
                    depth,
                    position,
                    j,
                ) by {
                    if listed(deferred@, j) {
                        let q = choose|q: int|
                            0 <= q < deferred@.len() && #[trigger] deferred@[q] == j;
                        assert(deferred@[q] < done);
                    }
                }
            }
            lemma_second_pass_stays::<M, S, E>(
                evaluator,
                first,
                claims,
                depth,
                maximizing,
                position,
                done,
                count as nat,
            );
        }
    }
    tables.record(hash, depth, window.best);
    window.best
}

} // verus!
