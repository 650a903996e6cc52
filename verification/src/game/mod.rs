//! The rules of the game.

pub mod beginnings;
pub mod conduct;
pub mod entities;
pub mod geometry;
pub mod laws;
pub mod map;
pub mod rules;
pub mod spawn;
pub mod state;
pub mod tally;
pub mod ticks;
