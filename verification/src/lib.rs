//! A Latin-square puzzle engine for square grids of `size * size` rows and
//! columns: the grid model, the row / column / block constraints, legal moves,
//! a naked-single solver, and a generator that fills a grid at random and then
//! takes clues away while the solver can still finish the puzzle.
//!
//! Every executable function carries a contract stated over [`board::Board`],
//! the mathematical model of a [`game::Game`].

pub mod arith;
pub mod board;
pub mod cell;
pub mod counting;
pub mod errors;
pub mod format;
pub mod game;
pub mod generator;
pub mod geometry;
pub mod laws;
pub mod pattern;
pub mod random;
pub mod roundtrip;
pub mod rules;
pub mod save;
pub mod screen;
pub mod solver;
pub mod traits;
