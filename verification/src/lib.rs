//! Conway's Game of Life on a bounded grid.
//!
//! [`neighbors`] walks the Moore neighbourhood of a cell, clockwise from its
//! top-left corner, and leaves out the positions that would have a negative
//! row or column. [`rules`] states the transition from one generation to the
//! next as mathematics. [`sim`] holds the board, with a scratch board of the
//! same shape beside it, and moves it on by one generation; its contracts
//! speak of [`rules`].
//!
//! The coin that fills a new board comes from the `rand` crate. The private
//! module `coin` says what is taken on trust of it.

mod coin;
pub mod neighbors;
pub mod rules;
pub mod sim;
