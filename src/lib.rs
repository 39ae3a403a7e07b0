//! A chess rules engine: pseudo-legal move generation, move application,
//! check detection, legal-move filtering, checkmate detection and a turn
//! controller that a user interface drives square by square.

pub mod piece;
pub mod board;
pub mod moves;
pub mod rules;
pub mod game;
pub mod laws;
