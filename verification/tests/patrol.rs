use guard_patrol::direction::Direction;
use guard_patrol::errors::{FormatError, PlacementError};
use guard_patrol::grid::{Grid, Movement};
use guard_patrol::sim::calculate_guard_route;

fn rows(lines: &[&str]) -> Vec<Vec<char>> {
    lines.iter().map(|l| l.chars().collect()).collect()
}

/// The canonical worked example: a 10x10 grid, guard heading up, no loop in
/// the baseline.
fn sample() -> Vec<Vec<char>> {
    rows(&[
        "....#.....",
        ".........#",
        "..........",
        "..#.......",
        ".......#..",
        "..........",
        ".#..^.....",
        "........#.",
        "#.........",
        "......#...",
    ])
}

#[test]
fn sample_grid_counts() {
    let result = calculate_guard_route(&sample()).unwrap();
    assert_eq!(result, (41, 6));
    // The distinct-visited-cell count always lies between 1 and the cell
    // count of the grid.
    assert!(1 <= result.0 && result.0 <= 100);
}

#[test]
fn empty_grid_straight_walk_up() {
    // No obstacles at all: the guard walks straight to the nearest edge and
    // the visited count is the inclusive straight-line distance.  The
    // obstruction count is whatever the algorithm computes, not assumed.
    let input = rows(&[".....", ".....", "..^..", ".....", "....."]);
    let result = calculate_guard_route(&input).unwrap();
    assert_eq!(result.0, 3);
    assert_eq!(result.1, 0);
}

#[test]
fn empty_grid_straight_walk_left() {
    let input = rows(&["....", "....", "....", ".<..", "....", "...."]);
    let result = calculate_guard_route(&input).unwrap();
    assert_eq!(result.0, 2);
    assert_eq!(result.1, 0);
}

#[test]
fn unequal_row_lengths_fail_before_simulation() {
    let input = rows(&["..^.", "..."]);
    assert_eq!(
        calculate_guard_route(&input),
        Err(FormatError::UnequalRowLengths)
    );
}

#[test]
fn missing_guard_is_rejected() {
    let input = rows(&["....", ".#.."]);
    assert_eq!(calculate_guard_route(&input), Err(FormatError::MissingGuard));
}

#[test]
fn duplicate_guard_is_rejected() {
    let input = rows(&["..^.", ".v.."]);
    assert_eq!(
        calculate_guard_route(&input),
        Err(FormatError::DuplicateGuard)
    );
}

#[test]
fn invalid_character_is_rejected() {
    let input = rows(&["..^.", ".X.."]);
    assert_eq!(
        calculate_guard_route(&input),
        Err(FormatError::InvalidCharacter)
    );
}

#[test]
fn empty_input_has_no_guard() {
    let input: Vec<Vec<char>> = Vec::new();
    assert_eq!(calculate_guard_route(&input), Err(FormatError::MissingGuard));
}

#[test]
fn full_mode_rerun_is_idempotent() {
    let grid = Grid::from_rows(&sample()).unwrap();
    let first = grid.patrol();
    let second = grid.patrol();
    assert_eq!(first, second);
    assert_eq!(first, (41, 6));
}

#[test]
fn loop_detection_on_modified_sample() {
    // Placing an obstacle just left of the guard's starting position on the
    // sample grid forces a loop, as the obstruction search predicts.
    let grid = Grid::from_rows(&sample()).unwrap();
    assert!(!grid.patrol_has_loop());
    let trial = grid.with_obstacle(3, 6).unwrap();
    assert!(trial.patrol_has_loop());
    // A placement the search does not count leaves the patrol loop-free.
    let trial = grid.with_obstacle(4, 3).unwrap();
    assert!(!trial.patrol_has_loop());
}

#[test]
fn obstacle_on_start_cell_is_an_error() {
    let grid = Grid::from_rows(&sample()).unwrap();
    assert_eq!(
        grid.with_obstacle(4, 6).err(),
        Some(PlacementError::StartCell)
    );
}

#[test]
fn obstacle_on_obstacle_is_an_error() {
    let grid = Grid::from_rows(&sample()).unwrap();
    assert_eq!(
        grid.with_obstacle(4, 0).err(),
        Some(PlacementError::AlreadyObstacle)
    );
}

#[test]
fn obstacle_out_of_bounds_is_an_error() {
    let grid = Grid::from_rows(&sample()).unwrap();
    assert_eq!(
        grid.with_obstacle(10, 0).err(),
        Some(PlacementError::OutOfBounds)
    );
}

#[test]
fn movement_engine_classifies_steps() {
    let grid = Grid::from_rows(&rows(&[".#..", "..^.", "...."])).unwrap();
    assert!(matches!(
        grid.can_move_from(2, 1, Direction::Up),
        Movement::Moved(2, 0)
    ));
    assert!(matches!(
        grid.can_move_from(2, 0, Direction::Left),
        Movement::HitObstacle
    ));
    assert!(matches!(
        grid.can_move_from(2, 0, Direction::Up),
        Movement::OutOfMap
    ));
    assert!(matches!(
        grid.can_move_from(3, 2, Direction::Right),
        Movement::OutOfMap
    ));
    assert!(matches!(
        grid.can_move_from(2, 1, Direction::Down),
        Movement::Moved(2, 2)
    ));
}

#[test]
fn boxed_in_guard_loops_in_place() {
    // The guard is walled in on all four sides: rotating through the four
    // headings revisits a (cell, heading) pair and is reported as a loop.
    let input = rows(&[".#.", "#^#", ".#."]);
    let grid = Grid::from_rows(&input).unwrap();
    assert!(grid.patrol_has_loop());
    let result = grid.patrol();
    assert_eq!(result.0, 1);
}

#[test]
fn direction_markers_parse() {
    assert_eq!(Direction::from_char('^'), Ok(Direction::Up));
    assert_eq!(Direction::from_char('v'), Ok(Direction::Down));
    assert_eq!(Direction::from_char('<'), Ok(Direction::Left));
    assert_eq!(Direction::from_char('>'), Ok(Direction::Right));
    assert_eq!(
        Direction::from_char('x'),
        Err(FormatError::InvalidCharacter)
    );
}

#[test]
fn rotation_cycles_clockwise() {
    let mut d = Direction::Up;
    d.rotate();
    assert_eq!(d, Direction::Right);
    d.rotate();
    assert_eq!(d, Direction::Down);
    d.rotate();
    assert_eq!(d, Direction::Left);
    d.rotate();
    assert_eq!(d, Direction::Up);
}
