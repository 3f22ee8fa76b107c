//! A verified guard-patrol simulator over rectangular obstacle grids,
//! together with a handful of small verified puzzle utilities.
//!
//! The core is the patrol simulation: a guard walks a rectangular grid,
//! turning clockwise whenever an obstacle blocks the next step, until it
//! either leaves the grid or revisits a (cell, heading) pair, which proves
//! an infinite loop.  On top of the simulator sits an obstruction search
//! that counts the single-obstacle placements that force such a loop.

pub mod antinodes;
pub mod direction;
pub mod disk;
pub mod equations;
pub mod errors;
pub mod grid;
pub mod muls;
pub mod parse;
pub mod reports;
pub mod scan;
pub mod search;
pub mod sim;
pub mod visited;
