pub mod state;
pub mod fen;
pub mod board;
