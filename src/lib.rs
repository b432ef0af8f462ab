//! A tic-tac-toe engine: a 3x3 board model and a move search for the machine player.
pub mod board;
pub mod evaluator;
pub mod game;
