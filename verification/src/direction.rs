//! The four cardinal headings of the guard and their clockwise rotation.

use vstd::prelude::*;

use crate::errors::FormatError;

verus! {

/// A cardinal heading.  Rotation on obstruction is always 90 degrees
/// clockwise: up, right, down, left, and back to up.
#[derive(Clone, Copy, Debug, PartialEq, Eq, Structural)]
pub enum Direction {
    Up,
    Down,
    Left,
    Right,
}

impl Direction {
    /// The heading one 90-degree clockwise turn away from `self`.
    pub open spec fn rotated(self) -> Direction {
        match self {
            Direction::Up => Direction::Right,
            Direction::Right => Direction::Down,
            Direction::Down => Direction::Left,
            Direction::Left => Direction::Up,
        }
    }

    /// The heading denoted by a guard marker, or `None` for any other
    /// character.
    pub open spec fn of_char(c: char) -> Option<Direction> {
        if c == '^' {
            Some(Direction::Up)
        } else if c == 'v' {
            Some(Direction::Down)
        } else if c == '<' {
            Some(Direction::Left)
        } else if c == '>' {
            Some(Direction::Right)
        } else {
            None
        }
    }

    /// Reads a guard marker: `^`, `v`, `<` or `>`.  Any other character is
    /// rejected as a `FormatError::InvalidCharacter`.
    pub fn from_char(c: char) -> (r: Result<Direction, FormatError>)
        ensures
            r == match Direction::of_char(c) {
                Some(d) => Ok::<Direction, FormatError>(d),
                None => Err::<Direction, FormatError>(FormatError::InvalidCharacter),
            },
    {
        match c {
            '^' => Ok(Direction::Up),
            'v' => Ok(Direction::Down),
            '<' => Ok(Direction::Left),
            '>' => Ok(Direction::Right),
            _ => Err(FormatError::InvalidCharacter),
        }
    }

    /// Turns the heading 90 degrees clockwise in place.
    pub fn rotate(&mut self)
        ensures
            *final(self) == old(self).rotated(),
    {
        *self = match *self {
            Direction::Up => Direction::Right,
            Direction::Right => Direction::Down,
            Direction::Down => Direction::Left,
            Direction::Left => Direction::Up,
        };
    }
}

} // verus!
