//! A tic-tac-toe engine: an immutable board value, move application,
//! win and draw detection, and the players that choose moves.

pub mod board;
pub mod coordinate;
pub mod player;
pub mod game;
