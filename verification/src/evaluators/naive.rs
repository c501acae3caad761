//! Material count.

use vstd::prelude::*;
use crate::score::Score;
use crate::state::board::{man_letter, ChessBoard, ChessMoveWrapper};
use crate::state::fen::letters;
use crate::state::state::StateEval;

verus! {

/// What a piece of kind `piece` is worth: pawn 1, knight 3, bishop 3,
/// rook 5, queen 9, king 10000.
pub open spec fn piece_weight(piece: int) -> int {
    if piece == 0 {
        1
    } else if piece == 1 {
        3
    } else if piece == 2 {
        3
    } else if piece == 3 {
        5
    } else if piece == 4 {
        9
    } else if piece == 5 {
        10000
    } else {
        0
    }
}

/// The summed worth of one side's pieces of the first `kinds` kinds in the
/// position `fen`.
pub open spec fn side_material(fen: Seq<char>, white: bool, kinds: nat) -> int
    decreases kinds,
{
    if kinds == 0 {
        0
    } else {
        side_material(fen, white, (kinds - 1) as nat) + letters(
            fen,
            man_letter(white, (kinds - 1) as usize),
        ) * piece_weight(kinds - 1)
    }
}

/// White's material less Black's.
pub open spec fn material_balance(fen: Seq<char>) -> int {
    side_material(fen, true, 6) - side_material(fen, false, 6)
}

/// Computes [`piece_weight`].
pub fn weight(piece: usize) -> (worth: Score)
    ensures
        worth == piece_weight(piece as int),
        0 <= worth <= 10000,
{
    if piece == 0 {
        1
    } else if piece == 1 {
        3
    } else if piece == 2 {
        3
    } else if piece == 3 {
        5
    } else if piece == 4 {
        9
    } else if piece == 5 {
        10000
    } else {
        0
    }
}

/// Scores a chess position by the material on the board.
#[derive(Clone, Copy, Debug)]
pub struct NaiveEval;

impl NaiveEval {
    /// The summed worth of one side's pieces.
    fn side_total(board: &ChessBoard, white: bool) -> (total: Score)
        ensures
            total == side_material(board@, white, 6),
            0 <= total <= 6 * 640000,
    {
        let mut total: Score = 0;
        let mut piece: usize = 0;
        while piece < 6
            invariant
                piece <= 6,
                total == side_material(board@, white, piece as nat),
                0 <= total <= piece * 640000,
            decreases 6 - piece,
        {
            let count = board.piece_count(white, piece);
            let worth = weight(piece);
            assert(0 <= count * worth <= 640000) by (nonlinear_arith)
                requires
                    0 <= count <= 64,
                    0 <= worth <= 10000,
            ;
            total = total + (count as Score) * worth;
            piece += 1;
        }
        total
    }
}

impl StateEval<ChessMoveWrapper, ChessBoard> for NaiveEval {
    open spec fn value(&self, position: Seq<char>) -> Score {
        material_balance(position) as Score
    }

    fn evaluate(&self, state: &ChessBoard) -> (score: Score) {
        let white = NaiveEval::side_total(state, true);
        let black = NaiveEval::side_total(state, false);
        white - black
    }
}

} // verus!
