//! The game tree below a position, and the value that an exhaustive search
//! of it gives.

use vstd::prelude::*;
use crate::score::{at_least, better, Score};
use crate::state::state::{Move, State, StateEval};

verus! {

/// The minimax value of `position` searched `depth` plies deep. A position
/// at depth 0 or without legal moves is worth what the evaluator says;
/// any other is worth the best of its children for the side to move, each
/// child searched one ply less deep from the opponent's point of view.
pub open spec fn minimax_value<M: Move, S: State<M>, E: StateEval<M, S>>(
    evaluator: &E,
    position: S::V,
    depth: nat,
    maximizing: bool,
) -> Score
    decreases depth, 0nat, 0nat,
{
    if depth == 0 || S::moves(position).len() == 0 {
        evaluator.value(position)
    } else {
        best_reply::<M, S, E>(
            evaluator,
            position,
            (depth - 1) as nat,
            maximizing,
            S::moves(position).len(),
        )
    }
}

/// The value of the child of `position` under its legal move number `index`,
/// searched `depth` plies deep. `maximizing` is the side to move in
/// `position`, so the child is valued from the other side.
pub open spec fn child_value<M: Move, S: State<M>, E: StateEval<M, S>>(
    evaluator: &E,
    position: S::V,
    depth: nat,
    maximizing: bool,
    index: int,
) -> Score
    decreases depth, 1nat, 0nat,
{
    minimax_value::<M, S, E>(
        evaluator,
        S::after(position, S::moves(position)[index]),
        depth,
        !maximizing,
    )
}

/// The best, for the side to move in `position`, among the values of its
/// first `count` children.
pub open spec fn best_reply<M: Move, S: State<M>, E: StateEval<M, S>>(
    evaluator: &E,
    position: S::V,
    depth: nat,
    maximizing: bool,
    count: nat,
) -> Score
    decreases depth, 2nat, count,
{
    if count <= 1 {
        child_value::<M, S, E>(evaluator, position, depth, maximizing, 0)
    } else {
        better(
            maximizing,
            best_reply::<M, S, E>(evaluator, position, depth, maximizing, (count - 1) as nat),
            child_value::<M, S, E>(evaluator, position, depth, maximizing, count - 1),
        )
    }
}

/// The position reached from `position` by taking, one after the other, the
/// legal moves whose numbers `path` lists.
pub open spec fn node<M: Move, S: State<M>>(position: S::V, path: Seq<int>) -> S::V
    decreases path.len(),
{
    if path.len() == 0 {
        position
    } else {
        node::<M, S>(S::after(position, S::moves(position)[path[0]]), path.drop_first())
    }
}

/// Whether `path` leads to a position that a search of `position` to
/// `depth` plies can visit: every step takes a legal move, and there are
/// no more steps than plies.
pub open spec fn in_tree<M: Move, S: State<M>>(position: S::V, depth: nat, path: Seq<int>) -> bool
    decreases path.len(),
{
    if path.len() == 0 {
        true
    } else {
        &&& depth > 0
        &&& 0 <= path[0] < S::moves(position).len()
        &&& in_tree::<M, S>(
            S::after(position, S::moves(position)[path[0]]),
            (depth - 1) as nat,
            path.drop_first(),
        )
    }
}

/// The child of `position` under its legal move number `index`.
pub open spec fn child<M: Move, S: State<M>>(position: S::V, index: int) -> S::V {
    S::after(position, S::moves(position)[index])
}

/// Whether the evaluator gives `score` to some position within `depth`
/// plies of `position`.
pub open spec fn attained<M: Move, S: State<M>, E: StateEval<M, S>>(
    evaluator: &E,
    position: S::V,
    depth: nat,
    score: Score,
) -> bool {
    exists|path: Seq<int>| #[trigger]
        in_tree::<M, S>(position, depth, path) && evaluator.value(node::<M, S>(position, path))
            == score
}

/// The scores that the evaluator gives within `depth` plies of `position`.
pub open spec fn attainable<M: Move, S: State<M>, E: StateEval<M, S>>(
    evaluator: &E,
    position: S::V,
    depth: nat,
) -> Set<Score> {
    Set::new(|score: Score| attained::<M, S, E>(evaluator, position, depth, score))
}

/// The hashes of the positions within `depth` plies of `position`.
pub open spec fn tree_keys<M: Move, S: State<M>>(position: S::V, depth: nat) -> Set<u64> {
    Set::new(
        |key: u64|
            exists|path: Seq<int>| #[trigger]
                in_tree::<M, S>(position, depth, path) && S::key(node::<M, S>(position, path))
                    == key,
    )
}

/// Whether the tree below `position` has no transposition and no hash
/// collision within `depth` plies: two different paths never lead to
/// positions with the same hash.
pub open spec fn keys_distinct<M: Move, S: State<M>>(position: S::V, depth: nat) -> bool {
    forall|a: Seq<int>, b: Seq<int>|
        #![trigger in_tree::<M, S>(position, depth, a), in_tree::<M, S>(position, depth, b)]
        in_tree::<M, S>(position, depth, a) && in_tree::<M, S>(position, depth, b) && a != b
            ==> S::key(node::<M, S>(position, a)) != S::key(node::<M, S>(position, b))
}

/// A path below a child is, with the child's number in front, a path below
/// the parent, and leads to the same position.
pub proof fn lemma_step_down<M: Move, S: State<M>>(
    position: S::V,
    depth: nat,
    index: int,
    rest: Seq<int>,
)
    requires
        depth > 0,
        0 <= index < S::moves(position).len(),
        in_tree::<M, S>(child::<M, S>(position, index), (depth - 1) as nat, rest),
    ensures
        in_tree::<M, S>(position, depth, seq![index] + rest),
        node::<M, S>(position, seq![index] + rest) == node::<M, S>(
            child::<M, S>(position, index),
            rest,
        ),
{
    let path = seq![index] + rest;
    assert(path[0] == index);
    assert(path.drop_first() =~= rest);
}

/// What the evaluator can give below a child, it can give below the parent.
pub proof fn lemma_attainable_child<M: Move, S: State<M>, E: StateEval<M, S>>(
    evaluator: &E,
    position: S::V,
    depth: nat,
    index: int,
)
    requires
        depth > 0,
        0 <= index < S::moves(position).len(),
    ensures
        attainable::<M, S, E>(evaluator, child::<M, S>(position, index), (depth - 1) as nat)
            .subset_of(attainable::<M, S, E>(evaluator, position, depth)),
{
    let below = child::<M, S>(position, index);
    assert forall|score: Score|
        attained::<M, S, E>(evaluator, below, (depth - 1) as nat, score) implies attained::<
        M,
        S,
        E,
    >(evaluator, position, depth, score) by {
        let rest = choose|rest: Seq<int>| #[trigger]
            in_tree::<M, S>(below, (depth - 1) as nat, rest) && evaluator.value(
                node::<M, S>(below, rest),
            ) == score;
        lemma_step_down::<M, S>(position, depth, index, rest);
    }
}

/// The evaluator's score of a position is attained at the position itself.
pub proof fn lemma_attainable_here<M: Move, S: State<M>, E: StateEval<M, S>>(
    evaluator: &E,
    position: S::V,
    depth: nat,
)
    ensures
        attainable::<M, S, E>(evaluator, position, depth).contains(evaluator.value(position)),
{
    assert(in_tree::<M, S>(position, depth, Seq::<int>::empty()));
    assert(node::<M, S>(position, Seq::<int>::empty()) == position);
}

/// The hash of a position is among the hashes of its tree.
pub proof fn lemma_keys_here<M: Move, S: State<M>>(position: S::V, depth: nat)
    ensures
        tree_keys::<M, S>(position, depth).contains(S::key(position)),
{
    assert(in_tree::<M, S>(position, depth, Seq::<int>::empty()));
    assert(node::<M, S>(position, Seq::<int>::empty()) == position);
}

/// The hashes below a child are hashes below the parent.
pub proof fn lemma_keys_child<M: Move, S: State<M>>(position: S::V, depth: nat, index: int)
    requires
        depth > 0,
        0 <= index < S::moves(position).len(),
    ensures
        tree_keys::<M, S>(child::<M, S>(position, index), (depth - 1) as nat).subset_of(
            tree_keys::<M, S>(position, depth),
        ),
{
    let below = child::<M, S>(position, index);
    assert forall|key: u64|
        tree_keys::<M, S>(below, (depth - 1) as nat).contains(key) implies tree_keys::<M, S>(
        position,
        depth,
    ).contains(key) by {
        let rest = choose|rest: Seq<int>| #[trigger]
            in_tree::<M, S>(below, (depth - 1) as nat, rest) && S::key(node::<M, S>(below, rest))
                == key;
        lemma_step_down::<M, S>(position, depth, index, rest);
    }
}

/// In a tree without transpositions, the trees below the children have
/// none either, share no hash with each other, and none with the parent.
pub proof fn lemma_distinct_children<M: Move, S: State<M>>(position: S::V, depth: nat)
    requires
        depth > 0,
        keys_distinct::<M, S>(position, depth),
    ensures
        forall|i: int|
            0 <= i < S::moves(position).len() ==> #[trigger] keys_distinct::<M, S>(
                child::<M, S>(position, i),
                (depth - 1) as nat,
            ),
        forall|i: int|
            0 <= i < S::moves(position).len() ==> !(#[trigger] tree_keys::<M, S>(
                child::<M, S>(position, i),
                (depth - 1) as nat,
            )).contains(S::key(position)),
        forall|i: int, j: int|
            0 <= i < S::moves(position).len() && 0 <= j < S::moves(position).len() && i != j
                ==> (#[trigger] tree_keys::<M, S>(child::<M, S>(position, i), (depth - 1) as nat))
                .disjoint(
                #[trigger] tree_keys::<M, S>(child::<M, S>(position, j), (depth - 1) as nat),
            ),
{
    let count = S::moves(position).len();
    let shallow = (depth - 1) as nat;
    assert forall|i: int| 0 <= i < count implies #[trigger] keys_distinct::<M, S>(
        child::<M, S>(position, i),
        shallow,
    ) by {
        let below = child::<M, S>(position, i);
        assert forall|a: Seq<int>, b: Seq<int>|
            #![trigger in_tree::<M, S>(below, shallow, a), in_tree::<M, S>(below, shallow, b)]
            in_tree::<M, S>(below, shallow, a) && in_tree::<M, S>(below, shallow, b) && a
                != b implies S::key(node::<M, S>(below, a)) != S::key(node::<M, S>(below, b)) by {
            lemma_step_down::<M, S>(position, depth, i, a);
            lemma_step_down::<M, S>(position, depth, i, b);
            let long_a = seq![i] + a;
            let long_b = seq![i] + b;
            assert(long_a.drop_first() =~= a);
            assert(long_b.drop_first() =~= b);
            assert(long_a != long_b);
        }
    }
    assert forall|i: int| 0 <= i < count implies !(#[trigger] tree_keys::<M, S>(
        child::<M, S>(position, i),
        shallow,
    )).contains(S::key(position)) by {
        let below = child::<M, S>(position, i);
        if tree_keys::<M, S>(below, shallow).contains(S::key(position)) {
            let rest = choose|rest: Seq<int>| #[trigger]
                in_tree::<M, S>(below, shallow, rest) && S::key(node::<M, S>(below, rest))
                    == S::key(position);
            lemma_step_down::<M, S>(position, depth, i, rest);
            let long = seq![i] + rest;
            let none = Seq::<int>::empty();
            assert(in_tree::<M, S>(position, depth, none));
            assert(node::<M, S>(position, none) == position);
            assert(long.len() > 0);
            assert(long != none);
        }
    }
    assert forall|i: int, j: int| 0 <= i < count && 0 <= j < count && i != j implies (
    #[trigger] tree_keys::<M, S>(child::<M, S>(position, i), shallow)).disjoint(
        #[trigger] tree_keys::<M, S>(child::<M, S>(position, j), shallow),
    ) by {
        let left = child::<M, S>(position, i);
        let right = child::<M, S>(position, j);
        assert forall|key: u64|
            !(tree_keys::<M, S>(left, shallow).contains(key) && tree_keys::<M, S>(
                right,
                shallow,
            ).contains(key)) by {
            if tree_keys::<M, S>(left, shallow).contains(key) && tree_keys::<M, S>(
                right,
                shallow,
            ).contains(key) {
                let a = choose|a: Seq<int>| #[trigger]
                    in_tree::<M, S>(left, shallow, a) && S::key(node::<M, S>(left, a)) == key;
                let b = choose|b: Seq<int>| #[trigger]
                    in_tree::<M, S>(right, shallow, b) && S::key(node::<M, S>(right, b)) == key;
                lemma_step_down::<M, S>(position, depth, i, a);
                lemma_step_down::<M, S>(position, depth, j, b);
                let long_a = seq![i] + a;
                let long_b = seq![j] + b;
                assert(long_a[0] == i);
                assert(long_b[0] == j);
                assert(long_a != long_b);
            }
        }
    }
}

/// The best reply is at least as good as every child, and is the value of
/// one of them.
pub proof fn lemma_best_reply<M: Move, S: State<M>, E: StateEval<M, S>>(
    evaluator: &E,
    position: S::V,
    depth: nat,
    maximizing: bool,
    count: nat,
)
    requires
        count >= 1,
    ensures
        forall|i: int|
            0 <= i < count ==> at_least(
                maximizing,
                best_reply::<M, S, E>(evaluator, position, depth, maximizing, count),
                #[trigger] child_value::<M, S, E>(evaluator, position, depth, maximizing, i),
            ),
        exists|i: int|
            0 <= i < count && best_reply::<M, S, E>(evaluator, position, depth, maximizing, count)
                == #[trigger] child_value::<M, S, E>(evaluator, position, depth, maximizing, i),
    decreases count,
{
    if count > 1 {
        lemma_best_reply::<M, S, E>(evaluator, position, depth, maximizing, (count - 1) as nat);
        let before = best_reply::<M, S, E>(
            evaluator,
            position,
            depth,
            maximizing,
            (count - 1) as nat,
        );
        let last = child_value::<M, S, E>(evaluator, position, depth, maximizing, count - 1);
        let witness = choose|i: int|
            0 <= i < count - 1 && before == #[trigger] child_value::<M, S, E>(
                evaluator,
                position,
                depth,
                maximizing,
                i,
            );
        if better(maximizing, before, last) == last {
            assert(0 <= count - 1 < count);
        } else {
            assert(0 <= witness < count);
        }
    } else {
        assert(best_reply::<M, S, E>(evaluator, position, depth, maximizing, count)
            == child_value::<M, S, E>(evaluator, position, depth, maximizing, 0));
    }
}

/// A position without legal moves is worth what the evaluator says, however
/// deep it is searched.
pub proof fn lemma_terminal_value<M: Move, S: State<M>, E: StateEval<M, S>>(
    evaluator: &E,
    position: S::V,
    depth: nat,
    maximizing: bool,
)
    requires
        S::moves(position).len() == 0,
    ensures
        minimax_value::<M, S, E>(evaluator, position, depth, maximizing) == evaluator.value(
            position,
        ),
{
}

/// The minimax value is the evaluator's score of some position within the
/// horizon.
pub proof fn lemma_minimax_attained<M: Move, S: State<M>, E: StateEval<M, S>>(
    evaluator: &E,
    position: S::V,
    depth: nat,
    maximizing: bool,
)
    ensures
        attainable::<M, S, E>(evaluator, position, depth).contains(
            minimax_value::<M, S, E>(evaluator, position, depth, maximizing),
        ),
    decreases depth,
{
    if depth == 0 || S::moves(position).len() == 0 {
        lemma_attainable_here::<M, S, E>(evaluator, position, depth);
    } else {
        let shallow = (depth - 1) as nat;
        let count = S::moves(position).len();
        lemma_best_reply::<M, S, E>(evaluator, position, shallow, maximizing, count);
        let i = choose|i: int|
            0 <= i < count && best_reply::<M, S, E>(evaluator, position, shallow, maximizing, count)
                == #[trigger] child_value::<M, S, E>(evaluator, position, shallow, maximizing, i);
        lemma_minimax_attained::<M, S, E>(
            evaluator,
            child::<M, S>(position, i),
            shallow,
            !maximizing,
        );
        lemma_attainable_child::<M, S, E>(evaluator, position, depth, i);
    }
}

/// An evaluator that gives one score to every position gives the search
/// that score, at every depth.
pub proof fn lemma_constant_evaluator<M: Move, S: State<M>, E: StateEval<M, S>>(
    evaluator: &E,
    position: S::V,
    depth: nat,
    maximizing: bool,
    score: Score,
)
    requires
        forall|any: S::V| #[trigger] evaluator.value(any) == score,
    ensures
        minimax_value::<M, S, E>(evaluator, position, depth, maximizing) == score,
{
    lemma_minimax_attained::<M, S, E>(evaluator, position, depth, maximizing);
}

} // verus!
