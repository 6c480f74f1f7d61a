//! Two-player and single-player Minesweeper: the board model, mine
//! placement, neighbour counting and the flood reveal, with their proofs.

pub mod cell;
pub mod board;
pub mod flood;
pub mod random;
pub mod mines;
pub mod game;
pub mod message;
pub mod classic;
pub mod solo;
pub mod duel;
pub mod remote;
pub mod display;
pub mod client;
