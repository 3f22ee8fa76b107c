//! Construction of a [`Grid`] from rows of map symbols.
//!
//! A cell is `.` (open), `#` (obstacle), or one of the guard markers `^`,
//! `v`, `<`, `>`, which name the starting heading; the marked cell is the
//! guard's starting position and is treated as open.  Exactly one marker
//! must appear, and all rows must have the same length.

use vstd::prelude::*;

use crate::direction::Direction;
use crate::errors::FormatError;
use crate::grid::{Grid, GridModel, Guard};

verus! {

/// The character rows a grid is read from, as a mathematical value.
pub open spec fn char_rows(rows: &Vec<Vec<char>>) -> Seq<Seq<char>> {
    Seq::new(rows@.len(), |y: int| rows@[y]@)
}

/// All rows have the length of the first.
pub open spec fn rectangular(rows: Seq<Seq<char>>) -> bool {
    forall|y: int| 0 <= y < rows.len() ==> (#[trigger] rows[y]).len() == rows[0].len()
}

/// A character a grid cell may hold.
pub open spec fn valid_cell_char(c: char) -> bool {
    c == '.' || c == '#' || Direction::of_char(c) is Some
}

/// Every cell holds a valid character.
pub open spec fn chars_valid(rows: Seq<Seq<char>>) -> bool {
    forall|y: int, x: int|
        0 <= y < rows.len() && 0 <= x < rows[y].len() ==> valid_cell_char(#[trigger] rows[y][x])
}

/// How many guard markers the first `xs` cells of a row hold.
pub open spec fn row_guards(row: Seq<char>, xs: int) -> nat
    decreases xs,
{
    if xs <= 0 {
        0
    } else {
        row_guards(row, xs - 1) + (if Direction::of_char(row[xs - 1]) is Some {
            1nat
        } else {
            0nat
        })
    }
}

/// How many guard markers the first `ys` rows hold.
pub open spec fn guard_count_rows(rows: Seq<Seq<char>>, ys: int) -> nat
    decreases ys,
{
    if ys <= 0 {
        0
    } else {
        guard_count_rows(rows, ys - 1) + row_guards(rows[ys - 1], rows[ys - 1].len() as int)
    }
}

/// How many guard markers the whole input holds.
pub open spec fn guard_count(rows: Seq<Seq<char>>) -> nat {
    guard_count_rows(rows, rows.len() as int)
}

/// The grid's cell count fits the machine's address space.
pub open spec fn size_fits(rows: Seq<Seq<char>>) -> bool {
    rows.len() * rows[0].len() <= usize::MAX as int
}

/// The input is well-formed: rectangular, over valid characters, with
/// exactly one guard marker, and of machine-representable size.
pub open spec fn parse_ok(rows: Seq<Seq<char>>) -> bool {
    &&& rectangular(rows)
    &&& chars_valid(rows)
    &&& guard_count(rows) == 1
    &&& size_fits(rows)
}

/// The grid model `m` is the reading of the character rows: same shape,
/// an obstacle exactly where a `#` stands, and the guard posed on a cell
/// holding the marker of its heading.
pub open spec fn represents(m: GridModel, rows: Seq<Seq<char>>) -> bool {
    &&& m.rows.len() == rows.len()
    &&& (forall|y: int| 0 <= y < rows.len() ==> (#[trigger] m.rows[y]).len() == rows[y].len())
    &&& (forall|y: int, x: int|
        0 <= y < rows.len() && 0 <= x < rows[y].len() ==> (#[trigger] m.rows[y][x]) == (rows[y][x]
            == '#'))
    &&& m.in_bounds(m.gx, m.gy)
    &&& Direction::of_char(rows[m.gy][m.gx]) == Some(m.gdir)
}

impl Grid {
    /// Reads a grid from rows of symbols.  The errors are decided in a fixed
    /// order: row lengths first, then character validity, then the guard
    /// marker count, then the grid size.
    #[verifier::loop_isolation(false)]
    pub fn from_rows(rows: &Vec<Vec<char>>) -> (r: Result<Grid, FormatError>)
        ensures
            ({
                let cv = char_rows(rows);
                &&& (r == Err::<Grid, FormatError>(FormatError::UnequalRowLengths) <==> !rectangular(
                    cv,
                ))
                &&& (r == Err::<Grid, FormatError>(FormatError::InvalidCharacter) <==> rectangular(
                    cv,
                ) && !chars_valid(cv))
                &&& (r == Err::<Grid, FormatError>(FormatError::MissingGuard) <==> rectangular(cv)
                    && chars_valid(cv) && guard_count(cv) == 0)
                &&& (r == Err::<Grid, FormatError>(FormatError::DuplicateGuard) <==> rectangular(
                    cv,
                ) && chars_valid(cv) && guard_count(cv) > 1)
                &&& (r == Err::<Grid, FormatError>(FormatError::TooLarge) <==> rectangular(cv)
                    && chars_valid(cv) && guard_count(cv) == 1 && !size_fits(cv))
                &&& (r is Ok <==> parse_ok(cv))
                &&& (r matches Ok(g) ==> represents(g@, cv) && g@.wf())
            }),
    {
        let ghost cv = char_rows(rows);
        let h = rows.len();
        // Row lengths.
        let w = if h == 0 {
            0
        } else {
            rows[0].len()
        };
        let mut y: usize = 0;
        while y < h
            invariant
                y <= h,
                forall|j: int| 0 <= j < y as int ==> (#[trigger] cv[j]).len() == cv[0].len(),
            decreases h - y,
        {
            if rows[y].len() != w {
                proof {
                    assert(cv[y as int].len() != cv[0].len());
                    assert(!rectangular(cv));
                }
                return Err(FormatError::UnequalRowLengths);
            }
            y += 1;
        }
        assert(rectangular(cv));
        // Character validity and the guard markers.
        let mut any_invalid = false;
        let mut guards: usize = 0;
        let mut gx: usize = 0;
        let mut gy: usize = 0;
        let mut gdir = Direction::Up;
        let mut y: usize = 0;
        while y < h
            invariant
                y <= h,
                any_invalid <==> !(forall|yy: int, xx: int|
                    0 <= yy < y as int && 0 <= xx < cv[yy].len() ==> valid_cell_char(
                        #[trigger] cv[yy][xx],
                    )),
                guards == if guard_count_rows(cv, y as int) < 2 {
                    guard_count_rows(cv, y as int)
                } else {
                    2nat
                },
                guards >= 1 ==> gy < y && gx < cv[gy as int].len() && Direction::of_char(
                    cv[gy as int][gx as int],
                ) == Some(gdir),
            decreases h - y,
        {
            let row_len = rows[y].len();
            let mut x: usize = 0;
            while x < row_len
                invariant
                    x <= row_len,
                    row_len == cv[y as int].len(),
                    y < h,
                    any_invalid <==> !((forall|yy: int, xx: int|
                        0 <= yy < y as int && 0 <= xx < cv[yy].len() ==> valid_cell_char(
                            #[trigger] cv[yy][xx],
                        )) && (forall|xx: int|
                        0 <= xx < x as int ==> valid_cell_char(#[trigger] cv[y as int][xx]))),
                    guards == if guard_count_rows(cv, y as int) + row_guards(cv[y as int], x as int)
                        < 2 {
                        guard_count_rows(cv, y as int) + row_guards(cv[y as int], x as int)
                    } else {
                        2nat
                    },
                    guards >= 1 ==> (gy < y || (gy == y && gx < x)) && gx < cv[gy as int].len()
                        && Direction::of_char(cv[gy as int][gx as int]) == Some(gdir),
                decreases row_len - x,
            {
                let c = rows[y][x];
                if c == '.' || c == '#' {
                } else {
                    match Direction::from_char(c) {
                        Ok(dd) => {
                            if guards == 0 {
                                gx = x;
                                gy = y;
                                gdir = dd;
                            }
                            if guards < 2 {
                                guards += 1;
                            }
                        },
                        Err(_) => {
                            any_invalid = true;
                        },
                    }
                }
                x += 1;
            }
            y += 1;
        }
        if any_invalid {
            return Err(FormatError::InvalidCharacter);
        }
        assert(chars_valid(cv));
        if guards == 0 {
            return Err(FormatError::MissingGuard);
        }
        if guards > 1 {
            return Err(FormatError::DuplicateGuard);
        }
        assert(guard_count(cv) == 1);
        // The guard marker implies at least one non-empty row.
        assert(h > 0 && w > 0 && cv[gy as int].len() == w);
        match h.checked_mul(w) {
            None => {
                return Err(FormatError::TooLarge);
            },
            Some(_) => {},
        }
        assert(size_fits(cv));
        // The obstacle layout.
        let mut obstacles: Vec<Vec<bool>> = Vec::new();
        let mut y: usize = 0;
        while y < h
            invariant
                y <= h,
                obstacles@.len() == y as int,
                forall|j: int, i: int|
                    0 <= j < y as int && 0 <= i < w as int ==> (#[trigger] obstacles@[j]@[i]) == (
                    cv[j][i] == '#'),
                forall|j: int| 0 <= j < y as int ==> (#[trigger] obstacles@[j])@.len() == w as int,
            decreases h - y,
        {
            let mut row: Vec<bool> = Vec::new();
            let mut x: usize = 0;
            while x < w
                invariant
                    x <= w,
                    y < h,
                    row@.len() == x as int,
                    forall|i: int| 0 <= i < x as int ==> (#[trigger] row@[i]) == (cv[y as int][i]
                        == '#'),
                decreases w - x,
            {
                proof {
                    assert(cv[y as int].len() == cv[0].len());
                }
                row.push(rows[y][x] == '#');
                x += 1;
            }
            obstacles.push(row);
            y += 1;
        }
        let g = Grid { rows: obstacles, guard: Guard { x: gx, y: gy, direction: gdir } };
        proof {
            assert(represents(g@, cv));
            assert(!g@.obstacle_at(g@.gx, g@.gy));
            assert(g@.wf());
        }
        Ok(g)
    }
}

} // verus!
