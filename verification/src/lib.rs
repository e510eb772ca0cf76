//! Board, piece and placement primitives for a ten-column block-stacking
//! game, with the evaluation features built on top of them.

pub mod bits;
pub mod header;
pub mod data;
pub mod piece;
pub mod rotation;
pub mod board;
pub mod placement;
pub mod spin;
pub mod buffer;
pub mod rule;
pub mod ruleset;
pub mod history;
pub mod rng;
pub mod game;
pub mod eval;
pub mod garbage;
pub mod client;
pub mod render;
pub mod envelope;
pub mod text;
pub mod versus;
