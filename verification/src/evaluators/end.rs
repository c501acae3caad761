//! Scores for games that are over.

use vstd::prelude::*;
use crate::score::{Score, SCORE_MAX, SCORE_MIN};
use crate::state::board::{fen_status, ChessBoard, GameStatus};
use crate::state::fen::white_to_move_in;

verus! {

/// What a finished game is worth to White: nothing for a stalemate, the
/// lowest score where White is mated and the highest where Black is. A game
/// that goes on has no such score.
pub open spec fn end_score(status: GameStatus, white_to_move: bool) -> Option<Score> {
    match status {
        GameStatus::Ongoing => None,
        GameStatus::Stalemate => Some(0),
        GameStatus::Checkmate => if white_to_move {
            Some(SCORE_MIN)
        } else {
            Some(SCORE_MAX)
        },
    }
}

/// The score of `board` if the game is over there.
pub fn check_end_pos(board: &ChessBoard) -> (score: Option<Score>)
    ensures
        score == end_score(fen_status(board@), white_to_move_in(board@)),
{
    match board.status() {
        GameStatus::Ongoing => None,
        GameStatus::Stalemate => Some(0),
        GameStatus::Checkmate => {
            if board.white_to_move() {
                Some(SCORE_MIN)
            } else {
                Some(SCORE_MAX)
            }
        },
    }
}

} // verus!
