use rts_core::formation::{assign_group_move_slots, formation_slots_near_target};
use rts_core::geometry::Pos;
use rts_core::grid::Grid;
use rts_core::group_move::plan_group_move;

fn at(x: i32, z: i32) -> Pos {
    Pos { x: x * 1000, z: z * 1000 }
}

#[test]
fn formation_destinations_have_breathing_room() {
    let grid = Grid::new(64, 64, 64, 64);
    let slots = formation_slots_near_target(at(32, 32), 12, &grid);

    assert_eq!(slots.len(), 12);
    for (index, slot) in slots.iter().enumerate() {
        for other in slots.iter().skip(index + 1) {
            assert!(slot.dist_sq(other) >= 1500 * 1500);
        }
    }
}

#[test]
fn formation_starts_at_the_target_cell() {
    let grid = Grid::new(64, 64, 64, 64);
    let slots = formation_slots_near_target(at(32, 32), 3, &grid);
    assert_eq!(slots[0], at(32, 32));
    for s in &slots {
        assert!(!grid.is_blocked(s.x / 1000, s.z / 1000));
    }
}

#[test]
fn formation_skips_blocked_cells() {
    let mut grid = Grid::new(64, 64, 64, 64);
    grid.set_blocked(32, 32, true);
    let slots = formation_slots_near_target(at(32, 32), 4, &grid);
    assert_eq!(slots.len(), 4);
    assert!(!slots.contains(&at(32, 32)));
}

#[test]
fn formation_off_the_map_is_empty() {
    let grid = Grid::new(8, 8, 8, 8);
    assert!(formation_slots_near_target(at(200, 200), 3, &grid).is_empty());
}

#[test]
fn formation_without_a_count_takes_every_spaced_cell() {
    let grid = Grid::new(8, 8, 8, 8);
    let slots = formation_slots_near_target(at(4, 4), 0, &grid);
    assert!(slots.len() > 4);
    for (index, slot) in slots.iter().enumerate() {
        for other in slots.iter().skip(index + 1) {
            assert!(slot.dist_sq(other) >= 1500 * 1500);
        }
    }
}

#[test]
fn lone_unit_heads_for_the_target() {
    let grid = Grid::new(32, 32, 32, 32);
    let r = assign_group_move_slots(at(10, 10), &vec![(7, at(2, 2))], &grid);
    assert_eq!(r, vec![(7, at(10, 10))]);
}

#[test]
fn group_units_each_get_their_own_slot() {
    let grid = Grid::new(32, 32, 32, 32);
    let group = vec![(1, at(2, 2)), (2, at(3, 2)), (3, at(2, 3))];
    let r = assign_group_move_slots(at(16, 16), &group, &grid);
    assert_eq!(r.len(), 3);
    let slots = formation_slots_near_target(at(16, 16), 3, &grid);
    for (_, p) in &r {
        assert!(slots.contains(p));
    }
    for i in 0..r.len() {
        for j in i + 1..r.len() {
            assert_ne!(r[i].1, r[j].1);
            assert_ne!(r[i].0, r[j].0);
        }
    }
}

#[test]
fn group_move_plans_a_path_per_unit() {
    let mut grid = Grid::new(32, 32, 32, 32);
    let group = vec![(1, at(2, 2)), (2, at(4, 2))];
    let plans = plan_group_move(&mut grid, at(20, 20), &group);
    assert_eq!(plans.len(), 2);
    for (_, path) in &plans {
        let path = path.as_ref().unwrap();
        assert!(!path.is_empty());
    }
    assert!(grid.is_blocked(2, 2));
    assert!(grid.is_blocked(4, 2));
}

#[test]
fn empty_group_changes_nothing() {
    let mut grid = Grid::new(16, 16, 16, 16);
    let plans = plan_group_move(&mut grid, at(5, 5), &vec![]);
    assert!(plans.is_empty());
    assert!(!grid.is_blocked(5, 5));
}
