//! TOOT-OTTO: a two-symbol connect-style board game with a depth-limited
//! minimax opponent. Every function carries a contract proved by Verus.

pub mod layout;
pub mod board;
pub mod chip;
pub mod grid;
pub mod dummy_grid;
pub mod lines;
pub mod events;
pub mod game;
pub mod evaluate;
pub mod rng;
pub mod search;
pub mod line_facts;
pub mod render;
