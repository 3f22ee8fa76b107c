//! The patrol simulator.
//!
//! The behaviour of a whole run is captured by the recursive specification
//! [`run`], a function of the grid model alone.  The executable simulator is
//! proved to return exactly what `run` describes, so a run's terminal state
//! and visited-cell count are mathematical functions of the grid: re-running
//! the simulator on an unmodified grid cannot yield anything new.
//!
//! `run` consumes one unit of fuel per recorded (cell, heading) pair.  Since
//! a grid of `width * height` cells admits only `4 * width * height` such
//! pairs, fuel `4 * width * height` is proved sufficient for every
//! well-formed grid ([`lemma_patrol_terminates`]): the simulator always
//! terminates, within that many transitions.

use vstd::prelude::*;

use crate::direction::Direction;
use crate::errors::FormatError;
use crate::grid::{step_target, Grid, GridModel, Movement};
use crate::parse::{
    char_rows, chars_valid, guard_count, parse_ok, rectangular, represents, size_fits,
};
use crate::visited::Visited;

verus! {

/// How a simulation run ended: the guard left the grid, or re-entered a
/// (cell, heading) pair already recorded, proving an infinite loop.
#[derive(Clone, Copy, Debug, PartialEq, Eq, Structural)]
pub enum Terminal {
    Exited,
    LoopDetected,
}

/// The result of the simulation specification: the terminal state and the
/// final visitation record, or `Overrun` if the given fuel ran out first.
pub enum RunResult {
    Done { state: Terminal, seen: Seq<Visited> },
    Overrun,
}

/// The visitation tracker is a flat sequence of per-cell records, the cell
/// `(x, y)` of a grid of width `w` living at index `y * w + x`.
pub open spec fn pair_seen(t: Seq<Visited>, w: int, x: int, y: int, d: Direction) -> bool {
    t[y * w + x].has(d)
}

/// The tracker with heading `d` recorded at cell `(x, y)`.
pub open spec fn record(t: Seq<Visited>, w: int, x: int, y: int, d: Direction) -> Seq<Visited> {
    t.update(y * w + x, t[y * w + x].mark(d))
}

/// Whether cell `(x, y)` has been visited from any heading.
pub open spec fn cell_visited(t: Seq<Visited>, w: int, x: int, y: int) -> bool {
    t[y * w + x].any()
}

/// The total number of (cell, heading) pairs recorded in the tracker.
pub open spec fn total_marks(t: Seq<Visited>) -> nat
    decreases t.len(),
{
    if t.len() == 0 {
        0
    } else {
        total_marks(t.drop_last()) + t.last().count()
    }
}

/// The number of distinct cells visited from at least one heading.
pub open spec fn visited_cells(t: Seq<Visited>) -> nat
    decreases t.len(),
{
    if t.len() == 0 {
        0
    } else {
        visited_cells(t.drop_last()) + (if t.last().any() {
            1nat
        } else {
            0nat
        })
    }
}

/// The tracker of `n` cells with nothing recorded.
pub open spec fn empty_tracker(n: nat) -> Seq<Visited> {
    Seq::new(n, |i: int| Visited::empty())
}

/// One whole simulation run from pose `(x, y, d)` with tracker `t`, where
/// the current pose is already recorded in `t`.  Each step consults the
/// movement engine: leaving the grid ends the run; an obstacle rotates the
/// heading clockwise in place; otherwise the guard advances.  The pose about
/// to be occupied is checked against the tracker first: if it was already
/// recorded the run ends in `LoopDetected`, else it is recorded and the run
/// goes on, consuming one unit of fuel.
pub open spec fn run(
    m: GridModel,
    x: int,
    y: int,
    d: Direction,
    t: Seq<Visited>,
    fuel: nat,
) -> RunResult
    decreases fuel,
{
    if fuel == 0 {
        RunResult::Overrun
    } else {
        let tg = step_target(x, y, d);
        if !m.in_bounds(tg.0, tg.1) {
            RunResult::Done { state: Terminal::Exited, seen: t }
        } else if m.obstacle_at(tg.0, tg.1) {
            let d2 = d.rotated();
            if pair_seen(t, m.width(), x, y, d2) {
                RunResult::Done { state: Terminal::LoopDetected, seen: t }
            } else {
                run(m, x, y, d2, record(t, m.width(), x, y, d2), (fuel - 1) as nat)
            }
        } else {
            if pair_seen(t, m.width(), tg.0, tg.1, d) {
                RunResult::Done { state: Terminal::LoopDetected, seen: t }
            } else {
                run(m, tg.0, tg.1, d, record(t, m.width(), tg.0, tg.1, d), (fuel - 1) as nat)
            }
        }
    }
}

/// The tracker at the start of a run: only the starting pose is recorded.
pub open spec fn initial_tracker(m: GridModel) -> Seq<Visited> {
    record(empty_tracker((m.width() * m.height()) as nat), m.width(), m.gx, m.gy, m.gdir)
}

/// The fuel that is proved sufficient for any run on a well-formed grid:
/// one unit per possible (cell, heading) pair.
pub open spec fn sim_fuel(m: GridModel) -> nat {
    (4 * m.width() * m.height()) as nat
}

/// The whole simulation of a grid from its guard's starting pose.
pub open spec fn sim(m: GridModel) -> RunResult {
    run(m, m.gx, m.gy, m.gdir, initial_tracker(m), sim_fuel(m))
}

/// Whether the simulation of `m` ends in a detected loop.
pub open spec fn sim_loops(m: GridModel) -> bool {
    sim(m)->state is LoopDetected
}

/// The final visitation record of the simulation of `m`.
pub open spec fn sim_seen(m: GridModel) -> Seq<Visited> {
    sim(m)->seen
}

/// A flat cell index lies within the tracker of a `w` by `h` grid.
proof fn lemma_idx_bounds(w: int, h: int, x: int, y: int)
    by (nonlinear_arith)
    requires
        0 <= x < w,
        0 <= y < h,
    ensures
        0 <= y * w + x < w * h,
{
}

/// Distinct cells of one grid have distinct flat indices.
proof fn lemma_idx_inj(w: int, x1: int, y1: int, x2: int, y2: int)
    by (nonlinear_arith)
    requires
        0 <= x1 < w,
        0 <= x2 < w,
        0 <= y1,
        0 <= y2,
    ensures
        (y1 * w + x1 == y2 * w + x2) <==> (x1 == x2 && y1 == y2),
{
}

proof fn lemma_marks_update(t: Seq<Visited>, i: int, v: Visited)
    requires
        0 <= i < t.len(),
    ensures
        total_marks(t.update(i, v)) + t[i].count() == total_marks(t) + v.count(),
    decreases t.len(),
{
    let u = t.update(i, v);
    if i == t.len() - 1 {
        assert(u.drop_last() =~= t.drop_last());
    } else {
        assert(u.drop_last() =~= t.drop_last().update(i, v));
        lemma_marks_update(t.drop_last(), i, v);
    }
}

proof fn lemma_cells_update(t: Seq<Visited>, i: int, v: Visited)
    requires
        0 <= i < t.len(),
    ensures
        visited_cells(t.update(i, v)) + (if t[i].any() {
            1nat
        } else {
            0nat
        }) == visited_cells(t) + (if v.any() {
            1nat
        } else {
            0nat
        }),
    decreases t.len(),
{
    let u = t.update(i, v);
    if i == t.len() - 1 {
        assert(u.drop_last() =~= t.drop_last());
    } else {
        assert(u.drop_last() =~= t.drop_last().update(i, v));
        lemma_cells_update(t.drop_last(), i, v);
    }
}

/// At most four headings can be recorded per cell.
proof fn lemma_marks_le(t: Seq<Visited>)
    ensures
        total_marks(t) <= 4 * t.len(),
    decreases t.len(),
{
    if t.len() > 0 {
        lemma_marks_le(t.drop_last());
    }
}

proof fn lemma_cells_le(t: Seq<Visited>)
    ensures
        visited_cells(t) <= t.len(),
    decreases t.len(),
{
    if t.len() > 0 {
        lemma_cells_le(t.drop_last());
    }
}

proof fn lemma_cells_pos(t: Seq<Visited>, i: int)
    requires
        0 <= i < t.len(),
        t[i].any(),
    ensures
        visited_cells(t) >= 1,
    decreases t.len(),
{
    if i < t.len() - 1 {
        lemma_cells_pos(t.drop_last(), i);
    }
}

proof fn lemma_empty_tracker(n: nat)
    ensures
        empty_tracker(n).len() == n,
        total_marks(empty_tracker(n)) == 0,
        visited_cells(empty_tracker(n)) == 0,
    decreases n,
{
    if n > 0 {
        assert(empty_tracker(n).drop_last() =~= empty_tracker((n - 1) as nat));
        lemma_empty_tracker((n - 1) as nat);
    }
}

/// What recording one (cell, heading) pair does to the tracker: that pair is
/// now present, nothing else changes, and the mark and cell tallies grow by
/// exactly the expected amount.
proof fn lemma_record_props(t: Seq<Visited>, w: int, h: int, x: int, y: int, d: Direction)
    requires
        t.len() == w * h,
        0 <= x < w,
        0 <= y < h,
    ensures
        record(t, w, x, y, d).len() == t.len(),
        pair_seen(record(t, w, x, y, d), w, x, y, d),
        forall|x2: int, y2: int, d2: Direction|
            0 <= x2 < w && 0 <= y2 < h ==> #[trigger] pair_seen(record(t, w, x, y, d), w, x2, y2, d2)
                == (pair_seen(t, w, x2, y2, d2) || (x2 == x && y2 == y && d2 == d)),
        forall|x2: int, y2: int|
            0 <= x2 < w && 0 <= y2 < h ==> #[trigger] cell_visited(record(t, w, x, y, d), w, x2, y2)
                == (cell_visited(t, w, x2, y2) || (x2 == x && y2 == y)),
        !pair_seen(t, w, x, y, d) ==> total_marks(record(t, w, x, y, d)) == total_marks(t) + 1,
        pair_seen(t, w, x, y, d) ==> total_marks(record(t, w, x, y, d)) == total_marks(t),
        visited_cells(record(t, w, x, y, d)) == visited_cells(t) + (if cell_visited(t, w, x, y) {
            0nat
        } else {
            1nat
        }),
    decreases 0nat,
{
    lemma_idx_bounds(w, h, x, y);
    let i = y * w + x;
    let r = record(t, w, x, y, d);
    assert forall|x2: int, y2: int, d2: Direction| 0 <= x2 < w && 0 <= y2 < h implies #[trigger] pair_seen(
        r,
        w,
        x2,
        y2,
        d2,
    ) == (pair_seen(t, w, x2, y2, d2) || (x2 == x && y2 == y && d2 == d)) by {
        lemma_idx_bounds(w, h, x2, y2);
        lemma_idx_inj(w, x, y, x2, y2);
    }
    assert forall|x2: int, y2: int| 0 <= x2 < w && 0 <= y2 < h implies #[trigger] cell_visited(
        r,
        w,
        x2,
        y2,
    ) == (cell_visited(t, w, x2, y2) || (x2 == x && y2 == y)) by {
        lemma_idx_bounds(w, h, x2, y2);
        lemma_idx_inj(w, x, y, x2, y2);
    }
    lemma_marks_update(t, i, t[i].mark(d));
    lemma_cells_update(t, i, t[i].mark(d));
}

/// Termination: a run whose fuel exceeds the number of (cell, heading)
/// pairs still unrecorded cannot run out of fuel, because every consumed
/// unit records a fresh pair and a `w` by `h` grid holds only `4 * w * h`.
proof fn lemma_run_done(m: GridModel, x: int, y: int, d: Direction, t: Seq<Visited>, fuel: nat)
    requires
        m.wf(),
        t.len() == m.width() * m.height(),
        m.in_bounds(x, y),
        fuel + total_marks(t) > 4 * m.width() * m.height(),
    ensures
        run(m, x, y, d, t, fuel) is Done,
    decreases fuel,
{
    let w = m.width();
    let h = m.height();
    lemma_marks_le(t);
    assert(4 * (w * h) == 4 * w * h) by (nonlinear_arith);
    assert(fuel > 0);
    let tg = step_target(x, y, d);
    if !m.in_bounds(tg.0, tg.1) {
    } else if m.obstacle_at(tg.0, tg.1) {
        let d2 = d.rotated();
        if !pair_seen(t, w, x, y, d2) {
            lemma_record_props(t, w, h, x, y, d2);
            lemma_run_done(m, x, y, d2, record(t, w, x, y, d2), (fuel - 1) as nat);
        }
    } else {
        if !pair_seen(t, w, tg.0, tg.1, d) {
            lemma_record_props(t, w, h, tg.0, tg.1, d);
            lemma_run_done(m, tg.0, tg.1, d, record(t, w, tg.0, tg.1, d), (fuel - 1) as nat);
        }
    }
}

/// A run only adds to the visitation record: every pair recorded at its
/// start is still recorded at its end, and the tracker keeps its length.
proof fn lemma_run_monotone(m: GridModel, x: int, y: int, d: Direction, t: Seq<Visited>, fuel: nat)
    requires
        m.wf(),
        t.len() == m.width() * m.height(),
        m.in_bounds(x, y),
    ensures
        run(m, x, y, d, t, fuel) matches RunResult::Done { seen: fin, .. } ==> fin.len() == t.len()
            && (forall|i: int, d2: Direction|
            0 <= i < t.len() && (#[trigger] t[i].has(d2)) ==> fin[i].has(d2)),
    decreases fuel,
{
    if fuel == 0 {
        return ;
    }
    let w = m.width();
    let h = m.height();
    let tg = step_target(x, y, d);
    if !m.in_bounds(tg.0, tg.1) {
    } else if m.obstacle_at(tg.0, tg.1) {
        let d2 = d.rotated();
        if !pair_seen(t, w, x, y, d2) {
            let t2 = record(t, w, x, y, d2);
            lemma_idx_bounds(w, h, x, y);
            lemma_record_keeps_marks(t, w, x, y, d2);
            lemma_run_monotone(m, x, y, d2, t2, (fuel - 1) as nat);
        }
    } else {
        if !pair_seen(t, w, tg.0, tg.1, d) {
            let t2 = record(t, w, tg.0, tg.1, d);
            lemma_idx_bounds(w, h, tg.0, tg.1);
            lemma_record_keeps_marks(t, w, tg.0, tg.1, d);
            lemma_run_monotone(m, tg.0, tg.1, d, t2, (fuel - 1) as nat);
        }
    }
}

/// Recording one pair never erases another.
proof fn lemma_record_keeps_marks(t: Seq<Visited>, w: int, x: int, y: int, d: Direction)
    requires
        0 <= y * w + x < t.len(),
    ensures
        forall|i: int, d2: Direction|
            0 <= i < t.len() && (#[trigger] t[i].has(d2)) ==> record(t, w, x, y, d)[i].has(d2),
{
    let t2 = record(t, w, x, y, d);
    assert forall|i: int, d2: Direction|
        0 <= i < t.len() && (#[trigger] t[i].has(d2)) implies t2[i].has(d2) by {
        if i == y * w + x {
            assert(t2[i] == t[i].mark(d));
        } else {
            assert(t2[i] == t[i]);
        }
    }
}

/// Law: on any well-formed grid the patrol simulator terminates, within
/// `4 * width * height` transitions — the fuel given to the run
/// specification — because each transition records a (cell, heading) pair
/// that was not recorded before, and only that many pairs exist.
pub proof fn lemma_patrol_terminates(m: GridModel)
    requires
        m.wf(),
    ensures
        sim(m) is Done,
{
    let w = m.width();
    let h = m.height();
    let n = (w * h) as nat;
    lemma_idx_bounds(w, h, m.gx, m.gy);
    lemma_empty_tracker(n);
    lemma_record_props(empty_tracker(n), w, h, m.gx, m.gy, m.gdir);
    lemma_run_done(m, m.gx, m.gy, m.gdir, initial_tracker(m), sim_fuel(m));
}

fn new_tracker(n: usize) -> (t: Vec<Visited>)
    ensures
        t@ == empty_tracker(n as nat),
{
    let mut t: Vec<Visited> = Vec::new();
    while t.len() < n
        invariant
            t@.len() <= n,
            forall|i: int| 0 <= i < t@.len() ==> t@[i] == Visited::empty(),
        decreases n - t.len(),
    {
        t.push(Visited::new());
    }
    proof {
        assert(t@ =~= empty_tracker(n as nat));
    }
    t
}

fn cell_index(w: usize, h: usize, x: usize, y: usize) -> (r: usize)
    requires
        x < w,
        y < h,
        w * h <= usize::MAX,
    ensures
        r == y * w + x,
        r < w * h,
{
    proof {
        lemma_idx_bounds(w as int, h as int, x as int, y as int);
    }
    y * w + x
}

fn record_mark(tracker: &mut Vec<Visited>, i: usize, d: Direction)
    requires
        i < old(tracker)@.len(),
    ensures
        final(tracker)@ == old(tracker)@.update(i as int, old(tracker)@[i as int].mark(d)),
{
    let mut cell = tracker[i];
    cell.visit(&d);
    tracker[i] = cell;
}

impl Grid {
    /// Runs one whole simulation from the grid's starting pose with a fresh
    /// visitation tracker, returning whether a loop was detected, the number
    /// of distinct cells visited, and the final tracker.  The result is
    /// exactly what the run specification describes.
    #[verifier::loop_isolation(false)]
    fn run_sim(&self) -> (res: (bool, u64, Vec<Visited>))
        requires
            self@.wf(),
        ensures
            sim(self@) is Done,
            res.0 == (sim(self@)->state is LoopDetected),
            res.2@ == sim(self@)->seen,
            res.2@.len() == self@.width() * self@.height(),
            res.1 == visited_cells(res.2@),
    {
        let ghost m = self@;
        let w = self.width();
        let h = self.height();
        let n = w * h;
        let ghost fuel0 = sim_fuel(m);
        proof {
            assert(4 * (w as int * h as int) == 4 * w as int * h as int) by (nonlinear_arith);
        }
        let mut tracker = new_tracker(n);
        let mut x = self.guard.x;
        let mut y = self.guard.y;
        let mut d = self.guard.direction;
        let i0 = cell_index(w, h, x, y);
        proof {
            lemma_empty_tracker(n as nat);
            assert(!pair_seen(tracker@, w as int, x as int, y as int, d));
            lemma_record_props(tracker@, w as int, h as int, x as int, y as int, d);
        }
        record_mark(&mut tracker, i0, d);
        proof {
            assert(tracker@ == initial_tracker(m));
        }
        let mut count: u64 = 1;
        let mut looped = false;
        let mut running = true;
        while running
            invariant
                self@ == m,
                m.wf(),
                w == m.width(),
                h == m.height(),
                n == w * h,
                tracker@.len() == n,
                fuel0 == sim_fuel(m),
                1 <= total_marks(tracker@) <= fuel0,
                count == visited_cells(tracker@),
                running ==> !looped,
                running ==> m.in_bounds(x as int, y as int),
                running ==> pair_seen(tracker@, w as int, x as int, y as int, d),
                running ==> sim(m) == run(
                    m,
                    x as int,
                    y as int,
                    d,
                    tracker@,
                    (fuel0 - total_marks(tracker@) + 1) as nat,
                ),
                !running ==> sim(m) is Done,
                !running ==> looped == (sim(m)->state is LoopDetected),
                !running ==> tracker@ == sim(m)->seen,
            decreases (if running {
                1int
            } else {
                0int
            }) + fuel0 - total_marks(tracker@),
        {
            let ghost t0 = tracker@;
            let ghost rem0 = (fuel0 - total_marks(t0) + 1) as nat;
            let ghost d0 = d;
            match self.can_move_from(x, y, d) {
                Movement::OutOfMap => {
                    proof {
                        assert(run(m, x as int, y as int, d, t0, rem0) == RunResult::Done {
                            state: Terminal::Exited,
                            seen: t0,
                        });
                    }
                    running = false;
                },
                Movement::HitObstacle => {
                    d.rotate();
                    let i = cell_index(w, h, x, y);
                    if tracker[i].has_direction(&d) {
                        proof {
                            assert(pair_seen(t0, w as int, x as int, y as int, d));
                            assert(run(m, x as int, y as int, d0, t0, rem0) == RunResult::Done {
                                state: Terminal::LoopDetected,
                                seen: t0,
                            });
                        }
                        looped = true;
                        running = false;
                    } else {
                        proof {
                            lemma_record_props(t0, w as int, h as int, x as int, y as int, d);
                            lemma_marks_le(record(t0, w as int, x as int, y as int, d));
                            assert(cell_visited(t0, w as int, x as int, y as int)) by {
                                assert(t0[y as int * w as int + x as int].has(d0));
                            }
                        }
                        record_mark(&mut tracker, i, d);
                    }
                },
                Movement::Moved(nx, ny) => {
                    let i = cell_index(w, h, nx, ny);
                    if tracker[i].has_direction(&d) {
                        proof {
                            assert(pair_seen(t0, w as int, nx as int, ny as int, d));
                            assert(run(m, x as int, y as int, d, t0, rem0) == RunResult::Done {
                                state: Terminal::LoopDetected,
                                seen: t0,
                            });
                        }
                        looped = true;
                        running = false;
                    } else {
                        let newly = !tracker[i].is_visited();
                        proof {
                            lemma_record_props(t0, w as int, h as int, nx as int, ny as int, d);
                            lemma_marks_le(record(t0, w as int, nx as int, ny as int, d));
                            lemma_cells_le(record(t0, w as int, nx as int, ny as int, d));
                        }
                        record_mark(&mut tracker, i, d);
                        if newly {
                            count = count + 1;
                        }
                        x = nx;
                        y = ny;
                    }
                },
            }
        }
        (looped, count, tracker)
    }

    /// Loop-detection-only mode: runs one full simulation and reports only
    /// whether it ended in a detected loop rather than by leaving the grid.
    pub fn patrol_has_loop(&self) -> (r: bool)
        requires
            self@.wf(),
        ensures
            sim(self@) is Done,
            r == (sim(self@)->state is LoopDetected),
    {
        let res = self.run_sim();
        res.0
    }
}

/// Whether turning cell `(x, y)` into an obstacle would force the guard
/// into a loop: the cell is in bounds, open, not the guard's starting cell,
/// was visited during the baseline run — a cell the unmodified patrol never
/// reaches cannot deflect it — and the simulation of the grid with the extra
/// obstacle ends in `LoopDetected`.
pub open spec fn causes_loop(m: GridModel, x: int, y: int) -> bool {
    &&& m.in_bounds(x, y)
    &&& !m.obstacle_at(x, y)
    &&& !(x == m.gx && y == m.gy)
    &&& cell_visited(sim_seen(m), m.width(), x, y)
    &&& sim_loops(m.place(x, y))
}

/// How many cells `(x, y)` with `x < xs` in row `y` cause a loop.
pub open spec fn loop_count_row(m: GridModel, y: int, xs: int) -> nat
    decreases xs,
{
    if xs <= 0 {
        0
    } else {
        loop_count_row(m, y, xs - 1) + (if causes_loop(m, xs - 1, y) {
            1nat
        } else {
            0nat
        })
    }
}

/// How many cells in the first `ys` rows cause a loop.
pub open spec fn loop_count_rows(m: GridModel, ys: int) -> nat
    decreases ys,
{
    if ys <= 0 {
        0
    } else {
        loop_count_rows(m, ys - 1) + loop_count_row(m, ys - 1, m.width())
    }
}

/// How many single-obstacle placements force the guard into a loop.
pub open spec fn obstruction_count(m: GridModel) -> nat {
    loop_count_rows(m, m.height())
}

proof fn lemma_loop_count_row_le(m: GridModel, y: int, xs: int)
    requires
        xs >= 0,
    ensures
        loop_count_row(m, y, xs) <= xs,
    decreases xs,
{
    if xs > 0 {
        lemma_loop_count_row_le(m, y, xs - 1);
    }
}

proof fn lemma_loop_count_rows_le(m: GridModel, ys: int)
    requires
        ys >= 0,
        m.width() >= 0,
    ensures
        loop_count_rows(m, ys) <= ys * m.width(),
    decreases ys,
{
    if ys > 0 {
        lemma_loop_count_rows_le(m, ys - 1);
        lemma_loop_count_row_le(m, ys - 1, m.width());
        assert((ys - 1) * m.width() + m.width() == ys * m.width()) by (nonlinear_arith);
    }
}

impl Grid {
    /// The full-mode baseline run followed by the obstruction search.
    /// Returns the number of distinct cells the unmodified patrol visits,
    /// and the number of single-obstacle placements — among in-bounds, open,
    /// baseline-visited cells other than the guard's starting cell — whose
    /// grid loops instead of letting the guard exit.  Each placement is
    /// tried on an independent derived copy of the grid, simulated from the
    /// same starting pose as the baseline run; the baseline grid is never
    /// modified.
    #[verifier::loop_isolation(false)]
    pub fn patrol(&self) -> (r: (u64, u64))
        requires
            self@.wf(),
        ensures
            sim(self@) is Done,
            r.0 == visited_cells(sim_seen(self@)),
            1 <= r.0 <= self@.width() * self@.height(),
            r.1 == obstruction_count(self@),
    {
        let ghost m = self@;
        let res = self.run_sim();
        let count = res.1;
        let tracker = res.2;
        proof {
            lemma_visited_count_bounds(m);
        }
        let w = self.width();
        let h = self.height();
        let mut found: u64 = 0;
        let mut y: usize = 0;
        while y < h
            invariant
                y <= h,
                found == loop_count_rows(m, y as int),
            decreases h - y,
        {
            let mut x: usize = 0;
            while x < w
                invariant
                    x <= w,
                    y < h,
                    found == loop_count_rows(m, y as int) + loop_count_row(m, y as int, x as int),
                decreases w - x,
            {
                let i = cell_index(w, h, x, y);
                let mut hit = false;
                if tracker[i].is_visited() && !(x == self.guard.x && y == self.guard.y)
                    && !self.is_obstacle(x, y) {
                    match self.with_obstacle(x, y) {
                        Ok(trial) => {
                            hit = trial.patrol_has_loop();
                        },
                        Err(_) => {
                            proof {
                                assert(false);
                            }
                        },
                    }
                }
                proof {
                    assert(hit == causes_loop(m, x as int, y as int));
                    lemma_loop_count_rows_le(m, y as int);
                    lemma_loop_count_row_le(m, y as int, x as int);
                    lemma_idx_bounds(w as int, h as int, x as int, y as int);
                }
                if hit {
                    found = found + 1;
                }
                x = x + 1;
            }
            y = y + 1;
        }
        (count, found)
    }
}

/// Reads a grid from rows of symbols and runs the full patrol on it,
/// returning the number of distinct cells the guard visits before leaving
/// and the number of single-obstacle placements that force it into a loop.
/// A malformed grid is rejected before any simulation runs.
pub fn calculate_guard_route(rows: &Vec<Vec<char>>) -> (r: Result<(u64, u64), FormatError>)
    ensures
        r is Ok <==> parse_ok(char_rows(rows)),
        r matches Err(e) ==> ({
            let cv = char_rows(rows);
            &&& (e == FormatError::UnequalRowLengths <==> !rectangular(cv))
            &&& (e == FormatError::InvalidCharacter <==> rectangular(cv) && !chars_valid(cv))
            &&& (e == FormatError::MissingGuard <==> rectangular(cv) && chars_valid(cv)
                && guard_count(cv) == 0)
            &&& (e == FormatError::DuplicateGuard <==> rectangular(cv) && chars_valid(cv)
                && guard_count(cv) > 1)
            &&& (e == FormatError::TooLarge <==> rectangular(cv) && chars_valid(cv) && guard_count(
                cv,
            ) == 1 && !size_fits(cv))
        }),
        r matches Ok(p) ==> exists|m: GridModel|
            {
                &&& #[trigger] represents(m, char_rows(rows))
                &&& m.wf()
                &&& sim(m) is Done
                &&& p.0 == visited_cells(sim_seen(m))
                &&& 1 <= p.0 <= m.width() * m.height()
                &&& p.1 == obstruction_count(m)
            },
{
    match Grid::from_rows(rows) {
        Ok(g) => {
            let p = g.patrol();
            proof {
                assert(represents(g@, char_rows(rows)));
            }
            Ok(p)
        },
        Err(e) => Err(e),
    }
}

/// Law: full-mode simulation is idempotent.  Both numbers a full run
/// reports are mathematical functions of the grid alone, so re-running the
/// simulator on an unmodified grid always yields the same visited-cell
/// count, the same obstruction count, and the same terminal state.
pub proof fn lemma_full_run_idempotent(m: GridModel, first: (u64, u64), second: (u64, u64))
    requires
        m.wf(),
        first.0 == visited_cells(sim_seen(m)),
        first.1 == obstruction_count(m),
        second.0 == visited_cells(sim_seen(m)),
        second.1 == obstruction_count(m),
    ensures
        first == second,
{
}

/// The cell one step directly ahead of pose `(x, y, d)`, when it is open
/// and in bounds, has been visited according to tracker `t`.
pub open spec fn ahead_ok(m: GridModel, t: Seq<Visited>, x: int, y: int, d: Direction) -> bool {
    let tg = step_target(x, y, d);
    m.in_bounds(tg.0, tg.1) && !m.obstacle_at(tg.0, tg.1) ==> cell_visited(
        t,
        m.width(),
        tg.0,
        tg.1,
    )
}

proof fn lemma_run_ahead(m: GridModel, x: int, y: int, d: Direction, t: Seq<Visited>, fuel: nat)
    requires
        m.wf(),
        t.len() == m.width() * m.height(),
        m.in_bounds(x, y),
        forall|x2: int, y2: int, d2: Direction|
            m.in_bounds(x2, y2) && #[trigger] pair_seen(t, m.width(), x2, y2, d2) && !(x2 == x && y2
                == y && d2 == d) ==> ahead_ok(m, t, x2, y2, d2),
    ensures
        run(m, x, y, d, t, fuel) matches RunResult::Done { seen: fin, .. } ==> forall|
            x2: int,
            y2: int,
            d2: Direction,
        |
            m.in_bounds(x2, y2) && #[trigger] pair_seen(fin, m.width(), x2, y2, d2) ==> ahead_ok(
                m,
                fin,
                x2,
                y2,
                d2,
            ),
    decreases fuel,
{
    if fuel == 0 {
        return ;
    }
    let w = m.width();
    let h = m.height();
    let tg = step_target(x, y, d);
    if !m.in_bounds(tg.0, tg.1) {
        // The run ends with `fin == t`; the current pose's ahead-cell is out
        // of bounds, every other recorded pose is covered by the premise.
    } else if m.obstacle_at(tg.0, tg.1) {
        let d2 = d.rotated();
        if !pair_seen(t, w, x, y, d2) {
            let t2 = record(t, w, x, y, d2);
            lemma_record_props(t, w, h, x, y, d2);
            assert forall|x3: int, y3: int, d3: Direction|
                m.in_bounds(x3, y3) && #[trigger] pair_seen(t2, w, x3, y3, d3) && !(x3 == x && y3
                    == y && d3 == d2) implies ahead_ok(m, t2, x3, y3, d3) by {
                if pair_seen(t, w, x3, y3, d3) {
                    if x3 == x && y3 == y && d3 == d {
                        // The pose we just rotated away from: its ahead-cell
                        // holds the obstacle that caused the rotation.
                    } else {
                        assert(ahead_ok(m, t, x3, y3, d3));
                        let tg3 = step_target(x3, y3, d3);
                        if m.in_bounds(tg3.0, tg3.1) && !m.obstacle_at(tg3.0, tg3.1) {
                            assert(cell_visited(t2, w, tg3.0, tg3.1));
                        }
                    }
                }
            }
            lemma_run_ahead(m, x, y, d2, t2, (fuel - 1) as nat);
        }
    } else {
        if pair_seen(t, w, tg.0, tg.1, d) {
            // The run ends with `fin == t`; the current pose's ahead-cell is
            // the already-recorded cell `tg`, hence visited.
            assert(cell_visited(t, w, tg.0, tg.1));
        } else {
            let t2 = record(t, w, tg.0, tg.1, d);
            lemma_record_props(t, w, h, tg.0, tg.1, d);
            assert forall|x3: int, y3: int, d3: Direction|
                m.in_bounds(x3, y3) && #[trigger] pair_seen(t2, w, x3, y3, d3) && !(x3 == tg.0 && y3
                    == tg.1 && d3 == d) implies ahead_ok(m, t2, x3, y3, d3) by {
                if pair_seen(t, w, x3, y3, d3) {
                    if x3 == x && y3 == y && d3 == d {
                        // The pose we just advanced from: its ahead-cell `tg`
                        // has just been recorded.
                        assert(cell_visited(t2, w, tg.0, tg.1));
                    } else {
                        assert(ahead_ok(m, t, x3, y3, d3));
                        let tg3 = step_target(x3, y3, d3);
                        if m.in_bounds(tg3.0, tg3.1) && !m.obstacle_at(tg3.0, tg3.1) {
                            assert(cell_visited(t2, w, tg3.0, tg3.1));
                        }
                    }
                }
            }
            lemma_run_ahead(m, tg.0, tg.1, d, t2, (fuel - 1) as nat);
        }
    }
}

/// Law: restricting obstruction candidates to the baseline's visited cells
/// never prunes away the cell directly ahead of the guard.  Whatever pose
/// the baseline patrol records — in particular every pose along a loop it
/// has entered — the open in-bounds cell one step directly ahead of that
/// pose is itself visited by the baseline run, so an obstacle placed exactly
/// there is always among the candidates the search examines.
pub proof fn lemma_ahead_cell_is_candidate(m: GridModel)
    requires
        m.wf(),
    ensures
        sim(m) is Done,
        forall|x: int, y: int, d: Direction|
            m.in_bounds(x, y) && #[trigger] pair_seen(sim_seen(m), m.width(), x, y, d) ==> ahead_ok(
                m,
                sim_seen(m),
                x,
                y,
                d,
            ),
{
    let w = m.width();
    let h = m.height();
    let n = (w * h) as nat;
    lemma_patrol_terminates(m);
    lemma_empty_tracker(n);
    lemma_record_props(empty_tracker(n), w, h, m.gx, m.gy, m.gdir);
    let t0 = initial_tracker(m);
    assert forall|x2: int, y2: int, d2: Direction|
        m.in_bounds(x2, y2) && #[trigger] pair_seen(t0, w, x2, y2, d2) && !(x2 == m.gx && y2 == m.gy
            && d2 == m.gdir) implies ahead_ok(m, t0, x2, y2, d2) by {
        lemma_idx_bounds(w, h, x2, y2);
        assert(!pair_seen(empty_tracker(n), w, x2, y2, d2));
    }
    lemma_run_ahead(m, m.gx, m.gy, m.gdir, t0, sim_fuel(m));
}

/// Law: the obstruction search never counts the guard's own starting cell
/// as a loop-inducing placement, whatever the grid looks like.
pub proof fn lemma_start_cell_never_counted(m: GridModel)
    ensures
        !causes_loop(m, m.gx, m.gy),
{
}

/// Law: the distinct-visited-cell count of a full run is at least 1 — the
/// starting cell is recorded before the first step — and at most
/// `width * height`, the number of cells in the grid.
pub proof fn lemma_visited_count_bounds(m: GridModel)
    requires
        m.wf(),
    ensures
        sim(m) is Done,
        1 <= visited_cells(sim_seen(m)) <= m.width() * m.height(),
{
    let w = m.width();
    let h = m.height();
    let n = (w * h) as nat;
    lemma_patrol_terminates(m);
    lemma_empty_tracker(n);
    lemma_record_props(empty_tracker(n), w, h, m.gx, m.gy, m.gdir);
    lemma_idx_bounds(w, h, m.gx, m.gy);
    lemma_run_monotone(m, m.gx, m.gy, m.gdir, initial_tracker(m), sim_fuel(m));
    let fin = sim_seen(m);
    let i = m.gy * w + m.gx;
    assert(initial_tracker(m)[i].has(m.gdir));
    assert(fin[i].any());
    lemma_cells_pos(fin, i);
    lemma_cells_le(fin);
}

} // verus!
