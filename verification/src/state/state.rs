//! What a game has to offer to be searched: moves, positions and an
//! evaluator of positions.

use vstd::prelude::*;
use crate::score::Score;

verus! {

/// One transition between two positions. A move is a plain value: two moves
/// are the same move exactly when they are equal.
pub trait Move: Copy {
    /// Whether the move is well formed.
    spec fn valid(self) -> bool;

    fn is_valid(self) -> (ok: bool)
        ensures
            ok == self.valid(),
    ;

    /// Decides equality of moves.
    fn same(self, other: Self) -> (equal: bool)
        ensures
            equal == (self == other),
    ;
}

/// A position of the game. Its view is the position as a mathematical value;
/// the rules of the game are functions of that value alone, so that asking
/// twice gives the same answer.
pub trait State<M: Move>: View + Sized {
    /// Whether `position` can occur in the game.
    spec fn legal(position: Self::V) -> bool;

    /// The text that describes `position`.
    spec fn notation(position: Self::V) -> Seq<char>;

    /// The hash under which results for `position` are cached.
    spec fn key(position: Self::V) -> u64;

    /// The legal moves in `position`, in the order in which they are tried.
    spec fn moves(position: Self::V) -> Seq<M>;

    /// The position that `movement` leads to from `position`.
    spec fn after(position: Self::V, movement: M) -> Self::V;

    fn is_valid(&self) -> (ok: bool)
        ensures
            ok == Self::legal(self@),
    ;

    fn format(&self) -> (text: String)
        ensures
            text@ == Self::notation(self@),
    ;

    fn hash(&self) -> (hash: u64)
        ensures
            hash == Self::key(self@),
    ;

    /// Applies a move and gives the new position; `self` is left as it is.
    fn make_move(&self, movement: M) -> (next: Self)
        ensures
            next@ == Self::after(self@, movement),
    ;

    fn legal_moves(&self) -> (moves: Vec<M>)
        ensures
            moves@ == Self::moves(self@),
    ;
}

/// Scores positions from the maximizing side's point of view.
pub trait StateEval<M: Move, S: State<M>> {
    /// The score of `position`.
    spec fn value(&self, position: S::V) -> Score;

    fn evaluate(&self, state: &S) -> (score: Score)
        ensures
            score == self.value(state@),
    ;
}

} // verus!
