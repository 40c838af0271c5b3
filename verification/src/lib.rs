//! A falling-block puzzle on a ten-column, thirty-row well: pieces, the
//! board, line clearing and the game's state machine, with the screen
//! layout the terminal front end draws from.

pub mod board;
pub mod game;
pub mod laws;
pub mod layout;
pub mod piece;
pub mod rng;
