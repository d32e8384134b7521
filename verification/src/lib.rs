//! Conway's Game of Life on a bounded rectangular board.
//!
//! The board never wraps: cells on an edge or in a corner simply have fewer
//! neighbours. Every generation is computed from a snapshot of the previous
//! one, so the order in which cells are visited never matters.

pub mod board;
pub mod cell;
pub mod driver;
pub mod error;
pub mod grid;
pub mod laws;
pub mod parse;
pub mod pattern;
pub mod random;
pub mod seeding;
