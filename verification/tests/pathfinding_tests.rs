use rts_core::geometry::Pos;
use rts_core::grid::Grid;
use rts_core::pathfinding::{find_path, nearest_available_destination, simplify_collinear_path};

fn at(x: i32, z: i32) -> Pos {
    Pos { x: x * 1000, z: z * 1000 }
}

#[test]
fn blocked_destination_uses_nearest_available_cell() {
    let mut grid = Grid::new(32, 32, 32, 32);
    grid.set_dynamic_blocked(10, 10, true);

    let destination = nearest_available_destination(at(7, 10), at(10, 10), &grid);

    assert_eq!(destination, Some((9, 10)));
}

#[test]
fn straight_paths_only_keep_the_destination() {
    let grid = Grid::new(32, 32, 32, 32);
    let path = find_path(at(2, 2), at(10, 2), &grid).unwrap();

    assert_eq!(path, vec![(10, 2)]);
}

#[test]
fn path_keeps_only_actual_turns() {
    let simplified = simplify_collinear_path((0, 0), vec![(1, 0), (2, 0), (2, 1), (2, 2)]);

    assert_eq!(simplified, vec![(2, 0), (2, 2)]);
}

#[test]
fn path_walks_around_a_wall() {
    let mut grid = Grid::new(32, 32, 32, 32);
    for z in 0..10 {
        grid.set_blocked(5, z, true);
    }
    let path = find_path(at(2, 2), at(8, 2), &grid).unwrap();
    assert_eq!(*path.last().unwrap(), (8, 2));
    for cell in &path {
        assert!(!grid.is_blocked(cell.0, cell.1));
    }
    assert!(path.iter().any(|c| c.1 >= 10));
}

#[test]
fn path_to_own_cell_is_empty() {
    let grid = Grid::new(32, 32, 32, 32);
    assert_eq!(find_path(at(4, 4), Pos { x: 4200, z: 3800 }, &grid), Some(vec![]));
}

#[test]
fn path_off_the_map_is_refused() {
    let grid = Grid::new(32, 32, 32, 32);
    assert_eq!(find_path(at(4, 4), at(40, 4), &grid), None);
    assert_eq!(nearest_available_destination(at(4, 4), at(-3, 4), &grid), None);
}

#[test]
fn unreachable_destination_gives_no_path() {
    let mut grid = Grid::new(32, 32, 32, 32);
    for x in 0..32 {
        grid.set_blocked(x, 16, true);
    }
    assert_eq!(find_path(at(4, 4), at(4, 20), &grid), None);
}

#[test]
fn diagonal_steps_do_not_cut_corners() {
    let mut grid = Grid::new(32, 32, 32, 32);
    grid.set_blocked(3, 2, true);
    grid.set_blocked(2, 3, true);
    let path = find_path(at(2, 2), at(3, 3), &grid).unwrap();
    assert_eq!(*path.last().unwrap(), (3, 3));
    assert!(path.len() >= 2);
}

#[test]
fn movement_costs_are_rounded_per_step() {
    assert_eq!(rts_core::pathfinding::step_cost(false, 100), 10);
    assert_eq!(rts_core::pathfinding::step_cost(true, 100), 14);
    assert_eq!(rts_core::pathfinding::step_cost(true, 125), 18);
    assert_eq!(rts_core::pathfinding::step_cost(false, 10), 1);
    assert_eq!(rts_core::pathfinding::heuristic((1, 5), (4, 1)), 7);
}
