//! The obstacle grid, the guard's pose, and the movement engine.

use vstd::prelude::*;

use crate::direction::Direction;
use crate::errors::PlacementError;

verus! {

/// The guard's pose: a position (column `x`, row `y`) and a heading.
#[derive(Clone, Copy, Debug, PartialEq, Eq, Structural)]
pub struct Guard {
    pub x: usize,
    pub y: usize,
    pub direction: Direction,
}

/// The outcome of attempting to advance one step from a pose.
#[derive(Clone, Copy, Debug, PartialEq, Eq, Structural)]
pub enum Movement {
    /// The adjacent cell is in bounds and open; the guard moves there.
    Moved(usize, usize),
    /// The adjacent cell holds an obstacle; the guard must rotate in place.
    HitObstacle,
    /// The adjacent cell lies past the boundary; the patrol ends.
    OutOfMap,
}

/// The mathematical model of a grid: the obstacle layout as a sequence of
/// rows (`true` = obstacle) and the guard's starting pose.
pub struct GridModel {
    pub rows: Seq<Seq<bool>>,
    pub gx: int,
    pub gy: int,
    pub gdir: Direction,
}

/// The cell one unit from `(x, y)` along heading `d`.
pub open spec fn step_target(x: int, y: int, d: Direction) -> (int, int) {
    match d {
        Direction::Up => (x, y - 1),
        Direction::Down => (x, y + 1),
        Direction::Left => (x - 1, y),
        Direction::Right => (x + 1, y),
    }
}

impl GridModel {
    pub open spec fn height(self) -> int {
        self.rows.len() as int
    }

    pub open spec fn width(self) -> int {
        self.rows[0].len() as int
    }

    pub open spec fn in_bounds(self, x: int, y: int) -> bool {
        0 <= x < self.width() && 0 <= y < self.height()
    }

    pub open spec fn obstacle_at(self, x: int, y: int) -> bool {
        self.rows[y][x]
    }

    /// Well-formedness: the grid is a non-empty rectangle whose cell count
    /// fits the machine, and the guard starts in bounds on an open cell.
    pub open spec fn wf(self) -> bool {
        &&& 0 < self.height()
        &&& 0 < self.width()
        &&& (forall|y: int|
            0 <= y < self.height() ==> (#[trigger] self.rows[y]).len() == self.width())
        &&& self.in_bounds(self.gx, self.gy)
        &&& !self.obstacle_at(self.gx, self.gy)
        &&& self.width() * self.height() <= usize::MAX as int
    }

    /// The same grid with one extra obstacle at `(x, y)`.
    pub open spec fn place(self, x: int, y: int) -> GridModel {
        GridModel { rows: self.rows.update(y, self.rows[y].update(x, true)), ..self }
    }
}

/// A rectangular grid of obstacles plus the guard's starting pose,
/// immutable once constructed.
#[derive(Clone, Debug)]
pub struct Grid {
    pub rows: Vec<Vec<bool>>,
    pub guard: Guard,
}

impl View for Grid {
    type V = GridModel;

    open spec fn view(&self) -> GridModel {
        GridModel {
            rows: Seq::new(self.rows@.len(), |y: int| self.rows@[y]@),
            gx: self.guard.x as int,
            gy: self.guard.y as int,
            gdir: self.guard.direction,
        }
    }
}

impl Grid {
    /// The number of rows.
    pub fn height(&self) -> (r: usize)
        ensures
            r == self@.height(),
    {
        self.rows.len()
    }

    /// The number of columns.
    pub fn width(&self) -> (r: usize)
        requires
            self@.wf(),
        ensures
            r == self@.width(),
    {
        self.rows[0].len()
    }

    /// Whether `(x, y)` lies inside the grid.
    pub fn in_bounds(&self, x: usize, y: usize) -> (r: bool)
        requires
            self@.wf(),
        ensures
            r == self@.in_bounds(x as int, y as int),
    {
        x < self.rows[0].len() && y < self.rows.len()
    }

    /// Whether the in-bounds cell `(x, y)` holds an obstacle.
    pub fn is_obstacle(&self, x: usize, y: usize) -> (r: bool)
        requires
            self@.wf(),
            self@.in_bounds(x as int, y as int),
        ensures
            r == self@.obstacle_at(x as int, y as int),
    {
        proof {
            assert(self@.rows[y as int].len() == self@.width());
        }
        self.rows[y][x]
    }

    /// The movement engine: classifies one step from `(x, y)` along
    /// `direction` against this grid.  The guard's own pose is not consulted
    /// and never changes here; on `HitObstacle` the caller rotates the
    /// heading and retries.
    pub fn can_move_from(&self, x: usize, y: usize, direction: Direction) -> (r: Movement)
        requires
            self@.wf(),
            self@.in_bounds(x as int, y as int),
        ensures
            ({
                let t = step_target(x as int, y as int, direction);
                match r {
                    Movement::OutOfMap => !self@.in_bounds(t.0, t.1),
                    Movement::HitObstacle => self@.in_bounds(t.0, t.1) && self@.obstacle_at(
                        t.0,
                        t.1,
                    ),
                    Movement::Moved(nx, ny) => self@.in_bounds(t.0, t.1) && !self@.obstacle_at(
                        t.0,
                        t.1,
                    ) && nx as int == t.0 && ny as int == t.1,
                }
            }),
    {
        match direction {
            Direction::Up => {
                if y == 0 {
                    Movement::OutOfMap
                } else {
                    proof {
                        assert(self@.rows[y as int - 1].len() == self@.width());
                    }
                    if self.rows[y - 1][x] {
                        Movement::HitObstacle
                    } else {
                        Movement::Moved(x, y - 1)
                    }
                }
            },
            Direction::Down => {
                if y == self.rows.len() - 1 {
                    Movement::OutOfMap
                } else {
                    proof {
                        assert(self@.rows[y as int + 1].len() == self@.width());
                    }
                    if self.rows[y + 1][x] {
                        Movement::HitObstacle
                    } else {
                        Movement::Moved(x, y + 1)
                    }
                }
            },
            Direction::Left => {
                if x == 0 {
                    Movement::OutOfMap
                } else {
                    proof {
                        assert(self@.rows[y as int].len() == self@.width());
                    }
                    if self.rows[y][x - 1] {
                        Movement::HitObstacle
                    } else {
                        Movement::Moved(x - 1, y)
                    }
                }
            },
            Direction::Right => {
                if x == self.rows[0].len() - 1 {
                    Movement::OutOfMap
                } else {
                    proof {
                        assert(self@.rows[y as int].len() == self@.width());
                    }
                    if self.rows[y][x + 1] {
                        Movement::HitObstacle
                    } else {
                        Movement::Moved(x + 1, y)
                    }
                }
            },
        }
    }

    /// A derived copy of the grid with one extra obstacle at `(x, y)`.
    /// Fails if the cell is out of bounds, already an obstacle, or the
    /// guard's starting cell; the three conditions are mutually exclusive on
    /// a well-formed grid.
    pub fn with_obstacle(&self, x: usize, y: usize) -> (r: Result<Grid, PlacementError>)
        requires
            self@.wf(),
        ensures
            !self@.in_bounds(x as int, y as int) <==> r == Err::<Grid, PlacementError>(
                PlacementError::OutOfBounds,
            ),
            self@.in_bounds(x as int, y as int) && self@.obstacle_at(x as int, y as int) <==> r
                == Err::<Grid, PlacementError>(PlacementError::AlreadyObstacle),
            self@.in_bounds(x as int, y as int) && !self@.obstacle_at(x as int, y as int) && x
                as int == self@.gx && y as int == self@.gy <==> r == Err::<Grid, PlacementError>(
                PlacementError::StartCell,
            ),
            self@.in_bounds(x as int, y as int) && !self@.obstacle_at(x as int, y as int) && !(x
                as int == self@.gx && y as int == self@.gy) <==> r is Ok,
            r matches Ok(g) ==> g@ == self@.place(x as int, y as int) && g@.wf() && !(x as int
                == self@.gx && y as int == self@.gy),
    {
        if !self.in_bounds(x, y) {
            return Err(PlacementError::OutOfBounds);
        }
        if self.is_obstacle(x, y) {
            return Err(PlacementError::AlreadyObstacle);
        }
        if x == self.guard.x && y == self.guard.y {
            return Err(PlacementError::StartCell);
        }
        let h = self.rows.len();
        let w = self.rows[0].len();
        let mut rows: Vec<Vec<bool>> = Vec::new();
        let mut yy: usize = 0;
        while yy < h
            invariant
                self@.wf(),
                self@.in_bounds(x as int, y as int),
                w == self@.width(),
                h == self@.height(),
                yy <= h,
                rows@.len() == yy as int,
                forall|j: int|
                    0 <= j < yy as int ==> (#[trigger] rows@[j])@ == self@.place(
                        x as int,
                        y as int,
                    ).rows[j],
            decreases h - yy,
        {
            let mut row: Vec<bool> = Vec::new();
            let mut xx: usize = 0;
            while xx < w
                invariant
                    self@.wf(),
                    self@.in_bounds(x as int, y as int),
                    w == self@.width(),
                    h == self@.height(),
                    yy < h,
                    xx <= w,
                    row@.len() == xx as int,
                    forall|i: int|
                        0 <= i < xx as int ==> row@[i] == self@.place(x as int, y as int).rows[yy
                            as int][i],
                decreases w - xx,
            {
                proof {
                    assert(self@.rows[yy as int].len() == self@.width());
                }
                let cell = if xx == x && yy == y {
                    true
                } else {
                    self.rows[yy][xx]
                };
                row.push(cell);
                xx += 1;
            }
            assert(row@ =~= self@.place(x as int, y as int).rows[yy as int]);
            rows.push(row);
            yy += 1;
        }
        let g = Grid { rows, guard: self.guard };
        proof {
            assert(g@.rows =~= self@.place(x as int, y as int).rows);
            assert(g@ == self@.place(x as int, y as int));
        }
        Ok(g)
    }
}

} // verus!
