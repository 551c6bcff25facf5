//! Minesweeper: tiles, the board, its generation and the reveal cascade.

pub mod board;
pub mod game;
pub mod generate;
pub mod grid;
pub mod laws;
pub mod cascade;
pub mod tile;
