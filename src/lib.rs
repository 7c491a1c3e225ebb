//! Rules engine for two-player Durak: cards and deck, the action encoding,
//! the full and per-player game state, and the turn state machine.

pub mod actions;
pub mod cards;
pub mod game;
pub mod gamestate;
pub mod player;
mod rng;
pub mod rules;
pub mod session;
pub mod utils;
