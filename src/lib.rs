//! Conway's Game of Life on a toroidal grid of bit-packed cells.
//!
//! `rules` states the rule engine mathematically, `bits` gives the contracts
//! of the bit set that stores the cells, and `universe` holds the grid and the
//! generation-advance algorithm.
pub mod bits;
pub mod rules;
pub mod universe;

pub use universe::{Delta, Universe};
