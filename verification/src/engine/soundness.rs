//! What the search over the tables is worth: how its answer, as the model
//! gives it, relates to the minimax value and to the scores of the
//! evaluator.

use vstd::prelude::*;
use crate::engine::cache::{
    capped, changed_within, kept, lookup_in, scores_within, store_in, TranspositionEntry,
};
use crate::engine::model::{first_pass, put_off_at, search_model, second_pass};
use crate::engine::tree::{
    attainable, child, child_value, keys_distinct, lemma_attainable_child,
    lemma_attainable_here, lemma_best_reply, lemma_distinct_children, lemma_keys_child,
    lemma_keys_here, minimax_value, tree_keys,
};
use crate::engine::window::{lemma_absorb, lemma_opening, lemma_room, lemma_settled, Window};
use crate::score::{at_least, bounds_value, Score};
use crate::state::state::{Move, State, StateEval};

verus! {

/// Whether a search of `position` meets nothing it has seen before: the
/// tree below it has no transposition, and the cache `entries` knows none
/// of its positions.
pub open spec fn unexplored<M: Move, S: State<M>>(
    entries: Map<u64, TranspositionEntry>,
    position: S::V,
    depth: nat,
) -> bool {
    &&& keys_distinct::<M, S>(position, depth)
    &&& entries.dom().disjoint(tree_keys::<M, S>(position, depth))
}

/// What one search of `position` does to the cache and what its answer is
/// worth. It was entered with the window `(alpha, beta)` and the cache
/// `before`, and left `answer` and the cache `after`.
///
/// - The cache changed at hashes of the tree below `position` only, and
///   what is new in it is at most `depth` deep.
/// - Unless the answer came from the cache or from the evaluator, the
///   cache holds `(depth, answer)` for `position` afterwards.
/// - Where the search meets nothing it has seen before, the answer is what
///   alpha-beta owes: the minimax value inside the window, a bound of it
///   outside.
pub open spec fn search_sound<M: Move, S: State<M>, E: StateEval<M, S>>(
    evaluator: &E,
    position: S::V,
    depth: usize,
    maximizing: bool,
    alpha: Score,
    beta: Score,
    before: Map<u64, TranspositionEntry>,
    after: Map<u64, TranspositionEntry>,
    answer: Score,
) -> bool {
    &&& changed_within(before, after, tree_keys::<M, S>(position, depth as nat))
    &&& capped(before, after, depth)
    &&& lookup_in(before, S::key(position), depth) is None && depth > 0 && S::moves(position).len()
        > 0 ==> after.contains_key(S::key(position)) && after[S::key(position)]
        == (TranspositionEntry { depth, score: answer })
    &&& alpha < beta && unexplored::<M, S>(before, position, depth as nat) ==> bounds_value(
        answer,
        alpha,
        beta,
        minimax_value::<M, S, E>(evaluator, position, depth as nat, maximizing),
    )
}

/// The hashes below those of the first `upto` children of `position` that
/// the pass in question searches: the second pass those that are put off,
/// the first pass the others.
pub open spec fn pass_keys<M: Move, S: State<M>>(
    claims: Set<M>,
    depth: usize,
    position: S::V,
    upto: nat,
    second: bool,
) -> Set<u64> {
    Set::new(
        |key: u64|
            exists|j: int|
                0 <= j < upto && put_off_at::<M, S>(claims, depth, position, j) == second
                    && #[trigger] tree_keys::<M, S>(
                    child::<M, S>(position, j),
                    (depth - 1) as nat,
                ).contains(key),
    )
}

/// What is known of a pass over the children of `position` when it stands
/// at `window` with the cache `cache`, having changed the cache within
/// `covered` only. The node was entered with the cache `entries` and the
/// window `(alpha, beta)`.
pub open spec fn pass_sound<M: Move, S: State<M>, E: StateEval<M, S>>(
    evaluator: &E,
    entries: Map<u64, TranspositionEntry>,
    alpha: Score,
    beta: Score,
    depth: usize,
    maximizing: bool,
    position: S::V,
    window: Window,
    cache: Map<u64, TranspositionEntry>,
    covered: Set<u64>,
) -> bool {
    &&& changed_within(entries, cache, covered)
    &&& capped(entries, cache, (depth - 1) as usize)
    &&& covered.subset_of(tree_keys::<M, S>(position, depth as nat))
    &&& !covered.contains(S::key(position)) || !unexplored::<M, S>(entries, position, depth as nat)
    &&& alpha < beta && unexplored::<M, S>(entries, position, depth as nat) ==> window.on_course(
        maximizing,
        alpha,
        beta,
        minimax_value::<M, S, E>(evaluator, position, depth as nat, maximizing),
    )
}

/// One more child keeps a pass sound. The child number `index` was
/// searched from where the pass stood, with a sound search that left
/// `answer` and the cache `after`, and no hash below it had been covered
/// before.
pub proof fn lemma_pass_step<M: Move, S: State<M>, E: StateEval<M, S>>(
    evaluator: &E,
    entries: Map<u64, TranspositionEntry>,
    alpha: Score,
    beta: Score,
    depth: usize,
    maximizing: bool,
    position: S::V,
    window: Window,
    cache: Map<u64, TranspositionEntry>,
    covered: Set<u64>,
    index: int,
    answer: Score,
    after: Map<u64, TranspositionEntry>,
)
    requires
        depth > 0,
        0 <= index < S::moves(position).len(),
        !window.cut,
        pass_sound::<M, S, E>(
            evaluator,
            entries,
            alpha,
            beta,
            depth,
            maximizing,
            position,
            window,
            cache,
            covered,
        ),
        unexplored::<M, S>(entries, position, depth as nat) ==> covered.disjoint(
            tree_keys::<M, S>(child::<M, S>(position, index), (depth - 1) as nat),
        ),
        alpha < beta && unexplored::<M, S>(entries, position, depth as nat) ==> search_sound::<
            M,
            S,
            E,
        >(
            evaluator,
            child::<M, S>(position, index),
            (depth - 1) as usize,
            !maximizing,
            window.alpha,
            window.beta,
            cache,
            after,
            answer,
        ),
        changed_within(
            cache,
            after,
            tree_keys::<M, S>(child::<M, S>(position, index), (depth - 1) as nat),
        ),
        capped(cache, after, (depth - 1) as usize),
    ensures
        pass_sound::<M, S, E>(
            evaluator,
            entries,
            alpha,
            beta,
            depth,
            maximizing,
            position,
            window.absorbed(maximizing, answer),
            after,
            covered.union(tree_keys::<M, S>(child::<M, S>(position, index), (depth - 1) as nat)),
        ),
        alpha < beta && unexplored::<M, S>(entries, position, depth as nat) ==> {
            &&& at_least(maximizing, window.absorbed(maximizing, answer).best, window.best)
            &&& !window.absorbed(maximizing, answer).cut ==> at_least(
                maximizing,
                window.absorbed(maximizing, answer).best,
                child_value::<M, S, E>(
                    evaluator,
                    position,
                    (depth - 1) as nat,
                    maximizing,
                    index,
                ),
            )
        },
{
    let shallow = (depth - 1) as nat;
    let below = child::<M, S>(position, index);
    let below_keys = tree_keys::<M, S>(below, shallow);
    let keys = tree_keys::<M, S>(position, depth as nat);
    let value = minimax_value::<M, S, E>(evaluator, position, depth as nat, maximizing);
    let worth = child_value::<M, S, E>(evaluator, position, shallow, maximizing, index);
    lemma_keys_child::<M, S>(position, depth as nat, index);
    assert(below_keys.subset_of(keys));
    assert(changed_within(entries, after, covered.union(below_keys)));
    assert(capped(entries, after, (depth - 1) as usize));
    if unexplored::<M, S>(entries, position, depth as nat) {
        lemma_distinct_children::<M, S>(position, depth as nat);
        assert(!below_keys.contains(S::key(position)));
        if alpha < beta {
            lemma_best_reply::<M, S, E>(
                evaluator,
                position,
                shallow,
                maximizing,
                S::moves(position).len(),
            );
            lemma_room(window, maximizing, alpha, beta, value);
            assert forall|hash: u64| below_keys.contains(hash) implies !cache.dom().contains(
                hash,
            ) by {
                assert(keys.contains(hash));
                assert(!covered.contains(hash));
                assert(!entries.dom().contains(hash));
                assert(cache.contains_key(hash) == entries.contains_key(hash));
            }
            assert(cache.dom().disjoint(below_keys));
            assert(unexplored::<M, S>(cache, below, shallow));
            lemma_absorb(window, maximizing, alpha, beta, value, answer, worth);
        }
    }
}

/// The search as the model gives it is sound, and answers with one of
/// `scores` and leaves only such in the cache, if the cache held only such
/// and the evaluator gives only such within the horizon.
pub proof fn lemma_search_model<M: Move, S: State<M>, E: StateEval<M, S>>(
    evaluator: &E,
    entries: Map<u64, TranspositionEntry>,
    claims: Set<M>,
    alpha: Score,
    beta: Score,
    depth: usize,
    maximizing: bool,
    position: S::V,
    scores: Set<Score>,
)
    ensures
        search_sound::<M, S, E>(
            evaluator,
            position,
            depth,
            maximizing,
            alpha,
            beta,
            entries,
            search_model::<M, S, E>(
                evaluator,
                entries,
                claims,
                alpha,
                beta,
                depth,
                maximizing,
                position,
            ).1,
            search_model::<M, S, E>(
                evaluator,
                entries,
                claims,
                alpha,
                beta,
                depth,
                maximizing,
                position,
            ).0,
        ),
        scores_within(entries, scores) && attainable::<M, S, E>(
            evaluator,
            position,
            depth as nat,
        ).subset_of(scores) ==> {
            &&& scores.contains(
                search_model::<M, S, E>(
                    evaluator,
                    entries,
                    claims,
                    alpha,
                    beta,
                    depth,
                    maximizing,
                    position,
                ).0,
            )
            &&& scores_within(
                search_model::<M, S, E>(
                    evaluator,
                    entries,
                    claims,
                    alpha,
                    beta,
                    depth,
                    maximizing,
                    position,
                ).1,
                scores,
            )
        },
    decreases depth, 3nat, 0nat,
{
    let key = S::key(position);
    let count = S::moves(position).len();
    let keys = tree_keys::<M, S>(position, depth as nat);
    lemma_keys_here::<M, S>(position, depth as nat);
    lemma_attainable_here::<M, S, E>(evaluator, position, depth as nat);
    if lookup_in(entries, key, depth) is None && depth > 0 && count > 0 {
        let first = first_pass::<M, S, E>(
            evaluator,
            entries,
            claims,
            alpha,
            beta,
            depth,
            maximizing,
            position,
            count,
        );
        let second = second_pass::<M, S, E>(
            evaluator,
            first,
            claims,
            depth,
            maximizing,
            position,
            count,
        );
        let after = store_in(second.1, key, depth, second.0.best);
        lemma_second_pass::<M, S, E>(
            evaluator,
            entries,
            claims,
            alpha,
            beta,
            depth,
            maximizing,
            position,
            count,
            scores,
        );
        let covered = pass_keys::<M, S>(claims, depth, position, count, false).union(
            pass_keys::<M, S>(claims, depth, position, count, true),
        );
        assert(changed_within(entries, after, keys));
        assert(capped(entries, after, depth));
        assert(after.contains_key(key) && after[key] == (TranspositionEntry {
            depth,
            score: second.0.best,
        }));
        if alpha < beta && unexplored::<M, S>(entries, position, depth as nat) {
            let value = minimax_value::<M, S, E>(evaluator, position, depth as nat, maximizing);
            lemma_best_reply::<M, S, E>(
                evaluator,
                position,
                (depth - 1) as nat,
                maximizing,
                count,
            );
            if !second.0.cut {
                let best = choose|j: int|
                    0 <= j < count && value == #[trigger] child_value::<M, S, E>(
                        evaluator,
                        position,
                        (depth - 1) as nat,
                        maximizing,
                        j,
                    );
                assert(at_least(maximizing, second.0.best, value));
            }
            lemma_settled(second.0, maximizing, alpha, beta, value);
        }
    }
}

/// The first pass as the model gives it is sound when it has come to the
/// child number `upto`. Unless it is cut off, its best is no worse than
/// any child before `upto` that was not put off. Its best is one of
/// `scores` once a child is searched, and it leaves only such in the
/// cache, if the cache held only such and the evaluator gives only such
/// within the horizon.
pub proof fn lemma_first_pass<M: Move, S: State<M>, E: StateEval<M, S>>(
    evaluator: &E,
    entries: Map<u64, TranspositionEntry>,
    claims: Set<M>,
    alpha: Score,
    beta: Score,
    depth: usize,
    maximizing: bool,
    position: S::V,
    upto: nat,
    scores: Set<Score>,
)
    requires
        depth > 0,
        upto <= S::moves(position).len(),
    ensures
        pass_sound::<M, S, E>(
            evaluator,
            entries,
            alpha,
            beta,
            depth,
            maximizing,
            position,
            first_pass::<M, S, E>(
                evaluator,
                entries,
                claims,
                alpha,
                beta,
                depth,
                maximizing,
                position,
                upto,
            ).0,
            first_pass::<M, S, E>(
                evaluator,
                entries,
                claims,
                alpha,
                beta,
                depth,
                maximizing,
                position,
                upto,
            ).1,
            pass_keys::<M, S>(claims, depth, position, upto, false),
        ),
        alpha < beta && unexplored::<M, S>(entries, position, depth as nat) && !first_pass::<
            M,
            S,
            E,
        >(evaluator, entries, claims, alpha, beta, depth, maximizing, position, upto).0.cut
            ==> forall|j: int|
            0 <= j < upto ==> put_off_at::<M, S>(claims, depth, position, j) || at_least(
                maximizing,
                first_pass::<M, S, E>(
                    evaluator,
                    entries,
                    claims,
                    alpha,
                    beta,
                    depth,
                    maximizing,
                    position,
                    upto,
                ).0.best,
                #[trigger] child_value::<M, S, E>(
                    evaluator,
                    position,
                    (depth - 1) as nat,
                    maximizing,
                    j,
                ),
            ),
        scores_within(entries, scores) && attainable::<M, S, E>(
            evaluator,
            position,
            depth as nat,
        ).subset_of(scores) ==> {
            &&& upto > 0 ==> scores.contains(
                first_pass::<M, S, E>(
                    evaluator,
                    entries,
                    claims,
                    alpha,
                    beta,
                    depth,
                    maximizing,
                    position,
                    upto,
                ).0.best,
            )
            &&& scores_within(
                first_pass::<M, S, E>(
                    evaluator,
                    entries,
                    claims,
                    alpha,
                    beta,
                    depth,
                    maximizing,
                    position,
                    upto,
                ).1,
                scores,
            )
        },
    decreases depth, 1nat, upto,
{
    let value = minimax_value::<M, S, E>(evaluator, position, depth as nat, maximizing);
    let shallow = (depth - 1) as nat;
    if upto == 0 {
        if alpha < beta {
            lemma_opening(maximizing, alpha, beta, value);
        }
        assert(pass_keys::<M, S>(claims, depth, position, 0, false) =~= Set::<u64>::empty());
    } else {
        let index = upto - 1;
        let before = first_pass::<M, S, E>(
            evaluator,
            entries,
            claims,
            alpha,
            beta,
            depth,
            maximizing,
            position,
            index as nat,
        );
        let covered = pass_keys::<M, S>(claims, depth, position, index as nat, false);
        let wider = pass_keys::<M, S>(claims, depth, position, upto, false);
        let below = child::<M, S>(position, index);
        let below_keys = tree_keys::<M, S>(below, shallow);
        lemma_first_pass::<M, S, E>(
            evaluator,
            entries,
            claims,
            alpha,
            beta,
            depth,
            maximizing,
            position,
            index as nat,
            scores,
        );
        if before.0.cut || put_off_at::<M, S>(claims, depth, position, index) {
            lemma_keys_child::<M, S>(position, depth as nat, index);
            if unexplored::<M, S>(entries, position, depth as nat) {
                lemma_distinct_children::<M, S>(position, depth as nat);
            }
            assert(covered.subset_of(wider));
            assert(wider.subset_of(covered.union(below_keys)));
            assert(changed_within(entries, before.1, wider));
        } else {
            let movement = S::moves(position)[index];
            let marked = if index > 0 {
                claims.insert(movement)
            } else {
                claims
            };
            let found = search_model::<M, S, E>(
                evaluator,
                before.1,
                marked,
                before.0.alpha,
                before.0.beta,
                (depth - 1) as usize,
                !maximizing,
                below,
            );
            lemma_search_model::<M, S, E>(
                evaluator,
                before.1,
                marked,
                before.0.alpha,
                before.0.beta,
                (depth - 1) as usize,
                !maximizing,
                below,
                scores,
            );
            lemma_attainable_child::<M, S, E>(evaluator, position, depth as nat, index);
            assert(wider =~= covered.union(below_keys));
            if unexplored::<M, S>(entries, position, depth as nat) {
                lemma_distinct_children::<M, S>(position, depth as nat);
                assert(covered.disjoint(below_keys));
            }
            lemma_pass_step::<M, S, E>(
                evaluator,
                entries,
                alpha,
                beta,
                depth,
                maximizing,
                position,
                before.0,
                before.1,
                covered,
                index,
                found.0,
                found.1,
            );
        }
    }
}

/// The second pass as the model gives it is sound when it has come to the
/// child number `upto`. Unless it is cut off, its best is no worse than
/// any child that was not put off and any child before `upto` that was.
/// Its best is one of `scores`, and it leaves only such in the cache, if
/// the cache held only such and the evaluator gives only such within the
/// horizon.
pub proof fn lemma_second_pass<M: Move, S: State<M>, E: StateEval<M, S>>(
    evaluator: &E,
    entries: Map<u64, TranspositionEntry>,
    claims: Set<M>,
    alpha: Score,
    beta: Score,
    depth: usize,
    maximizing: bool,
    position: S::V,
    upto: nat,
    scores: Set<Score>,
)
    requires
        depth > 0,
        0 < S::moves(position).len(),
        upto <= S::moves(position).len(),
    ensures
        pass_sound::<M, S, E>(
            evaluator,
            entries,
            alpha,
            beta,
            depth,
            maximizing,
            position,
            second_pass::<M, S, E>(
                evaluator,
                first_pass::<M, S, E>(
                    evaluator,
                    entries,
                    claims,
                    alpha,
                    beta,
                    depth,
                    maximizing,
                    position,
                    S::moves(position).len(),
                ),
                claims,
                depth,
                maximizing,
                position,
                upto,
            ).0,
            second_pass::<M, S, E>(
                evaluator,
                first_pass::<M, S, E>(
                    evaluator,
                    entries,
                    claims,
                    alpha,
                    beta,
                    depth,
                    maximizing,
                    position,
                    S::moves(position).len(),
                ),
                claims,
                depth,
                maximizing,
                position,
                upto,
            ).1,
            pass_keys::<M, S>(claims, depth, position, S::moves(position).len(), false).union(
                pass_keys::<M, S>(claims, depth, position, upto, true),
            ),
        ),
        alpha < beta && unexplored::<M, S>(entries, position, depth as nat) && !second_pass::<
            M,
            S,
            E,
        >(
            evaluator,
            first_pass::<M, S, E>(
                evaluator,
                entries,
                claims,
                alpha,
                beta,
                depth,
                maximizing,
                position,
                S::moves(position).len(),
            ),
            claims,
            depth,
            maximizing,
            position,
            upto,
        ).0.cut ==> forall|j: int|
            0 <= j < S::moves(position).len() ==> (j >= upto && put_off_at::<M, S>(
                claims,
                depth,
                position,
                j,
            )) || at_least(
                maximizing,
                second_pass::<M, S, E>(
                    evaluator,
                    first_pass::<M, S, E>(
                        evaluator,
                        entries,
                        claims,
                        alpha,
                        beta,
                        depth,
                        maximizing,
                        position,
                        S::moves(position).len(),
                    ),
                    claims,
                    depth,
                    maximizing,
                    position,
                    upto,
                ).0.best,
                #[trigger] child_value::<M, S, E>(
                    evaluator,
                    position,
                    (depth - 1) as nat,
                    maximizing,
                    j,
                ),
            ),
        scores_within(entries, scores) && attainable::<M, S, E>(
            evaluator,
            position,
            depth as nat,
        ).subset_of(scores) ==> {
            &&& scores.contains(
                second_pass::<M, S, E>(
                    evaluator,
                    first_pass::<M, S, E>(
                        evaluator,
                        entries,
                        claims,
                        alpha,
                        beta,
                        depth,
                        maximizing,
                        position,
                        S::moves(position).len(),
                    ),
                    claims,
                    depth,
                    maximizing,
                    position,
                    upto,
                ).0.best,
            )
            &&& scores_within(
                second_pass::<M, S, E>(
                    evaluator,
                    first_pass::<M, S, E>(
                        evaluator,
                        entries,
                        claims,
                        alpha,
                        beta,
                        depth,
                        maximizing,
                        position,
                        S::moves(position).len(),
                    ),
                    claims,
                    depth,
                    maximizing,
                    position,
                    upto,
                ).1,
                scores,
            )
        },
    decreases depth, 2nat, upto,
{
    let count = S::moves(position).len();
    let shallow = (depth - 1) as nat;
    let first = first_pass::<M, S, E>(
        evaluator,
        entries,
        claims,
        alpha,
        beta,
        depth,
        maximizing,
        position,
        count,
    );
    let first_keys = pass_keys::<M, S>(claims, depth, position, count, false);
    if upto == 0 {
        lemma_first_pass::<M, S, E>(
            evaluator,
            entries,
            claims,
            alpha,
            beta,
            depth,
            maximizing,
            position,
            count,
            scores,
        );
        assert(pass_keys::<M, S>(claims, depth, position, 0, true) =~= Set::<u64>::empty());
        assert(first_keys.union(pass_keys::<M, S>(claims, depth, position, 0, true))
            =~= first_keys);
    } else {
        let index = upto - 1;
        let before = second_pass::<M, S, E>(
            evaluator,
            first,
            claims,
            depth,
            maximizing,
            position,
            index as nat,
        );
        let narrow = pass_keys::<M, S>(claims, depth, position, index as nat, true);
        let wide = pass_keys::<M, S>(claims, depth, position, upto, true);
        let covered = first_keys.union(narrow);
        let below = child::<M, S>(position, index);
        let below_keys = tree_keys::<M, S>(below, shallow);
        lemma_second_pass::<M, S, E>(
            evaluator,
            entries,
            claims,
            alpha,
            beta,
            depth,
            maximizing,
            position,
            index as nat,
            scores,
        );
        if before.0.cut || !put_off_at::<M, S>(claims, depth, position, index) {
            lemma_keys_child::<M, S>(position, depth as nat, index);
            if unexplored::<M, S>(entries, position, depth as nat) {
                lemma_distinct_children::<M, S>(position, depth as nat);
            }
            assert(narrow.subset_of(wide));
            assert(wide.subset_of(narrow.union(below_keys)));
            assert(covered.subset_of(first_keys.union(wide)));
            assert(first_keys.union(wide).subset_of(covered.union(below_keys)));
            assert(changed_within(entries, before.1, first_keys.union(wide)));
        } else {
            let found = search_model::<M, S, E>(
                evaluator,
                before.1,
                claims,
                before.0.alpha,
                before.0.beta,
                (depth - 1) as usize,
                !maximizing,
                below,
            );
            lemma_search_model::<M, S, E>(
                evaluator,
                before.1,
                claims,
                before.0.alpha,
                before.0.beta,
                (depth - 1) as usize,
                !maximizing,
                below,
                scores,
            );
            lemma_attainable_child::<M, S, E>(evaluator, position, depth as nat, index);
            assert(wide =~= narrow.union(below_keys));
            assert(first_keys.union(wide) =~= covered.union(below_keys));
            if unexplored::<M, S>(entries, position, depth as nat) {
                lemma_distinct_children::<M, S>(position, depth as nat);
                assert(covered.disjoint(below_keys));
            }
            lemma_pass_step::<M, S, E>(
                evaluator,
                entries,
                alpha,
                beta,
                depth,
                maximizing,
                position,
                before.0,
                before.1,
                covered,
                index,
                found.0,
                found.1,
            );
        }
    }
}

/// A search never takes a key out of the cache, and never lowers the
/// depth that is stored for one.
pub proof fn lemma_search_keeps<M: Move, S: State<M>, E: StateEval<M, S>>(
    evaluator: &E,
    entries: Map<u64, TranspositionEntry>,
    claims: Set<M>,
    alpha: Score,
    beta: Score,
    depth: usize,
    maximizing: bool,
    position: S::V,
)
    ensures
        kept(
            entries,
            search_model::<M, S, E>(
                evaluator,
                entries,
                claims,
                alpha,
                beta,
                depth,
                maximizing,
                position,
            ).1,
        ),
    decreases depth, 3nat, 0nat,
{
    if lookup_in(entries, S::key(position), depth) is None && depth > 0 && S::moves(
        position,
    ).len() > 0 {
        let count = S::moves(position).len();
        let first = first_pass::<M, S, E>(
            evaluator,
            entries,
            claims,
            alpha,
            beta,
            depth,
            maximizing,
            position,
            count,
        );
        lemma_first_pass_keeps::<M, S, E>(
            evaluator,
            entries,
            claims,
            alpha,
            beta,
            depth,
            maximizing,
            position,
            count,
        );
        lemma_second_pass_keeps::<M, S, E>(
            evaluator,
            first,
            claims,
            depth,
            maximizing,
            position,
            count,
        );
    }
}

/// The first pass never takes a key out of the cache, and never lowers the
/// depth that is stored for one.
pub proof fn lemma_first_pass_keeps<M: Move, S: State<M>, E: StateEval<M, S>>(
    evaluator: &E,
    entries: Map<u64, TranspositionEntry>,
    claims: Set<M>,
    alpha: Score,
    beta: Score,
    depth: usize,
    maximizing: bool,
    position: S::V,
    upto: nat,
)
    ensures
        kept(
            entries,
            first_pass::<M, S, E>(
                evaluator,
                entries,
                claims,
                alpha,
                beta,
                depth,
                maximizing,
                position,
                upto,
            ).1,
        ),
    decreases depth, 1nat, upto,
{
    if upto > 0 && depth > 0 {
        let index = upto - 1;
        let before = first_pass::<M, S, E>(
            evaluator,
            entries,
            claims,
            alpha,
            beta,
            depth,
            maximizing,
            position,
            index as nat,
        );
        lemma_first_pass_keeps::<M, S, E>(
            evaluator,
            entries,
            claims,
            alpha,
            beta,
            depth,
            maximizing,
            position,
            index as nat,
        );
        if !(before.0.cut || put_off_at::<M, S>(claims, depth, position, index)) {
            let movement = S::moves(position)[index];
            lemma_search_keeps::<M, S, E>(
                evaluator,
                before.1,
                if index > 0 {
                    claims.insert(movement)
                } else {
                    claims
                },
                before.0.alpha,
                before.0.beta,
                (depth - 1) as usize,
                !maximizing,
                S::after(position, movement),
            );
        }
    }
}

/// The second pass never takes a key out of the cache, and never lowers
/// the depth that is stored for one.
pub proof fn lemma_second_pass_keeps<M: Move, S: State<M>, E: StateEval<M, S>>(
    evaluator: &E,
    start: (Window, Map<u64, TranspositionEntry>),
    claims: Set<M>,
    depth: usize,
    maximizing: bool,
    position: S::V,
    upto: nat,
)
    ensures
        kept(
            start.1,
            second_pass::<M, S, E>(evaluator, start, claims, depth, maximizing, position, upto).1,
        ),
    decreases depth, 2nat, upto,
{
    if upto > 0 && depth > 0 {
        let index = upto - 1;
        let before = second_pass::<M, S, E>(
            evaluator,
            start,
            claims,
            depth,
            maximizing,
            position,
            index as nat,
        );
        lemma_second_pass_keeps::<M, S, E>(
            evaluator,
            start,
            claims,
            depth,
            maximizing,
            position,
            index as nat,
        );
        if !(before.0.cut || !put_off_at::<M, S>(claims, depth, position, index)) {
            lemma_search_keeps::<M, S, E>(
                evaluator,
                before.1,
                claims,
                before.0.alpha,
                before.0.beta,
                (depth - 1) as usize,
                !maximizing,
                S::after(position, S::moves(position)[index]),
            );
        }
    }
}

} // verus!
