//! A verified core for Conway's Game of Life on a toroidal grid.
//!
//! A [`Universe`] holds a fixed-size grid of [`Cell`] values in row-major
//! order and advances it one generation at a time under the classic
//! birth/survival rule, with Moore neighborhoods that wrap around the grid
//! edges. The transition relation is stated as a spec-level function of the
//! grid alone, and every operation is proved against it.

pub mod cell;
pub mod rng;
pub mod universe;

pub use cell::Cell;
pub use universe::App;
pub use universe::GridView;
pub use universe::Universe;
pub use universe::UniverseError;
