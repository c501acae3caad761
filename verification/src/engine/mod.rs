pub mod cache;
pub mod inflight;
pub mod tree;
pub mod window;
pub mod model;
pub mod soundness;
pub mod tables;
pub mod engine;
pub mod laws;
pub mod session;
pub mod chess_engine;
