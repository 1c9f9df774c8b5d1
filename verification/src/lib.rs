//! Conway's Game of Life on an unbounded grid.
//!
//! A generation is a sparse set of live cells. The transition rule, the
//! bounded ring of past generations, the pattern loader and the controller
//! that ties them together are all stated over mathematical sets of integer
//! points and proved against those statements.

pub mod cell;
pub mod cell_set;
pub mod game;
pub mod history;
pub mod lexicon;
pub mod life;
pub mod rule;
pub mod settings;
