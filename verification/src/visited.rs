//! Per-cell record of the headings observed at a cell during one run.

use vstd::prelude::*;

use crate::direction::Direction;

verus! {

/// Which of the four headings have been observed at one cell during the
/// current simulation run.  A cell counts as visited once any heading has
/// been recorded at it.
#[derive(Clone, Copy, Debug, PartialEq, Eq, Structural)]
pub struct Visited {
    pub up: bool,
    pub down: bool,
    pub left: bool,
    pub right: bool,
}

impl Visited {
    /// The record with no heading observed.
    pub open spec fn empty() -> Visited {
        Visited { up: false, down: false, left: false, right: false }
    }

    /// Whether heading `d` has been observed at this cell.
    pub open spec fn has(self, d: Direction) -> bool {
        match d {
            Direction::Up => self.up,
            Direction::Down => self.down,
            Direction::Left => self.left,
            Direction::Right => self.right,
        }
    }

    /// The record with heading `d` added.
    pub open spec fn mark(self, d: Direction) -> Visited {
        match d {
            Direction::Up => Visited { up: true, ..self },
            Direction::Down => Visited { down: true, ..self },
            Direction::Left => Visited { left: true, ..self },
            Direction::Right => Visited { right: true, ..self },
        }
    }

    /// Whether any heading at all has been observed at this cell.
    pub open spec fn any(self) -> bool {
        self.up || self.down || self.left || self.right
    }

    /// How many of the four headings have been observed (0 to 4).
    pub open spec fn count(self) -> nat {
        (if self.up { 1nat } else { 0nat }) + (if self.down { 1nat } else { 0nat })
            + (if self.left { 1nat } else { 0nat }) + (if self.right { 1nat } else { 0nat })
    }

    /// A fresh record with no heading observed.
    pub fn new() -> (r: Visited)
        ensures
            r == Visited::empty(),
    {
        Visited { up: false, down: false, left: false, right: false }
    }

    /// Records that the guard stood at this cell with heading `direction`.
    pub fn visit(&mut self, direction: &Direction)
        ensures
            *final(self) == old(self).mark(*direction),
    {
        match direction {
            Direction::Up => self.up = true,
            Direction::Down => self.down = true,
            Direction::Left => self.left = true,
            Direction::Right => self.right = true,
        }
    }

    /// Whether the cell has been visited from any heading.
    pub fn is_visited(&self) -> (r: bool)
        ensures
            r == self.any(),
    {
        self.up || self.down || self.left || self.right
    }

    /// Whether the cell has been visited with exactly heading `direction`.
    pub fn has_direction(&self, direction: &Direction) -> (r: bool)
        ensures
            r == self.has(*direction),
    {
        match direction {
            Direction::Up => self.up,
            Direction::Down => self.down,
            Direction::Left => self.left,
            Direction::Right => self.right,
        }
    }
}

} // verus!
