//! An engine that plays chess.

use vstd::prelude::*;
use crate::engine::cache::{TranspositionCache, TranspositionEntry};
use crate::engine::engine::Engine;
use crate::state::board::{
    chess_position, fen_moves, fen_sane, start_position, ChessBoard, ChessMoveWrapper,
};

verus! {

/// A chess position to search from, and a cache that stays with the
/// engine from one position to the next. The searches keep tables of their
/// own for each session and leave this cache alone; it is the caller's to
/// fill and to read.
#[derive(Debug)]
pub struct ChessEngine {
    pub board: ChessBoard,
    pub cache: TranspositionCache,
}

impl ChessEngine {
    /// An engine at the starting position, which is a legal position with
    /// 20 legal moves, and with an empty cache.
    pub fn new() -> (engine: Self)
        ensures
            engine.board@ == start_position(),
            fen_sane(engine.board@),
            fen_moves(engine.board@).len() == 20,
            engine.cache@ == Map::<u64, TranspositionEntry>::empty(),
    {
        ChessEngine { board: ChessBoard::default(), cache: TranspositionCache::new() }
    }

    /// An engine at the position that `fen` describes, if it describes
    /// one.
    pub fn from_str(fen: String) -> (engine: Option<Self>)
        ensures
            match engine {
                Some(e) => chess_position(fen@) == Some(e.board@) && e.cache@ == Map::<
                    u64,
                    TranspositionEntry,
                >::empty(),
                None => chess_position(fen@) is None,
            },
    {
        match ChessBoard::from_str(fen) {
            Some(board) => Some(ChessEngine { board, cache: TranspositionCache::new() }),
            None => None,
        }
    }

    /// Moves the engine to the position that `fen` describes and says
    /// whether it did: a text that describes none leaves the engine where
    /// it was. The cache stays as it is either way.
    pub fn update_fen(&mut self, fen: String) -> (accepted: bool)
        ensures
            accepted == chess_position(fen@) is Some,
            accepted ==> chess_position(fen@) == Some(final(self).board@),
            !accepted ==> final(self).board@ == old(self).board@,
            final(self).cache@ == old(self).cache@,
    {
        match ChessBoard::from_str(fen) {
            Some(board) => {
                self.board = board;
                true
            },
            None => false,
        }
    }
}

impl Engine<ChessMoveWrapper, ChessBoard> for ChessEngine {
    open spec fn position(&self) -> Seq<char> {
        self.board@
    }

    fn state(&self) -> (state: ChessBoard) {
        self.board.clone()
    }
}

} // verus!
