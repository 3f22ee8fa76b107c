//! Error types for grid construction and obstacle placement.

use vstd::prelude::*;

verus! {

/// A grid read from text was malformed and cannot be simulated.
#[derive(Clone, Copy, Debug, PartialEq, Eq, Structural)]
pub enum FormatError {
    /// Two rows of the input have different lengths.
    UnequalRowLengths,
    /// A cell holds a character other than `.`, `#`, `^`, `v`, `<` or `>`.
    InvalidCharacter,
    /// No cell holds a guard marker (`^`, `v`, `<` or `>`).
    MissingGuard,
    /// More than one cell holds a guard marker.
    DuplicateGuard,
    /// The cell count does not fit the machine's address space.
    TooLarge,
}

/// A hypothetical obstacle could not be placed on a grid.
#[derive(Clone, Copy, Debug, PartialEq, Eq, Structural)]
pub enum PlacementError {
    /// The target cell lies outside the grid.
    OutOfBounds,
    /// The target cell already holds an obstacle.
    AlreadyObstacle,
    /// The target cell is the guard's starting cell.
    StartCell,
}

} // verus!
