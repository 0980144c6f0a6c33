//! Decision engine for a falling-block puzzle game.
//!
//! Given the stacked board, the active piece, and a weight strategy, the
//! engine picks the best resting position for the piece and produces the
//! exact sequence of controller actions needed to reach it. The host game
//! loop consumes one decision per tick.

pub mod board;
pub mod engine;
pub mod evaluation;
pub mod pieces;
pub mod search;
