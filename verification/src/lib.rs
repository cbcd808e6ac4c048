//! Rules, evaluation and search engine for a two-player stone-placement
//! game on a square grid: a five-in-a-row variant with flanking captures,
//! a double-free-three placement restriction, capture-aware win detection,
//! a directional pattern evaluator, and minimax / principal-variation
//! search over a reusable game tree.

pub mod color;
pub mod error;
pub mod config;
pub mod players;
pub mod board;
pub mod matching_cases;
pub mod heuristic;
pub mod opening_move;
pub mod algo;
