//! Puzzle evaluation engine for a row of two-bit cells.
//!
//! A round of play manipulates a fixed-length row of two-bit cells ([`sen::SenManager`])
//! with operators drawn from a circular queue ([`sen::SenOpManager`]). The five base
//! operators (`Off`, `On`, `Not`, `Or`, `And`) either overwrite cells directly or stage
//! pending-result tokens that must be applied in a second step. [`status::PuzzleStatus`]
//! ties a row, a queue, and a target value into one round with three independent
//! scoring flags.

pub mod laws;
pub mod sen;
pub mod status;
