use rts_core::geometry::{round_milli, Pos};
use rts_core::grid::Grid;
use rts_core::map::{map_to_world, DEFAULT_TERRAIN_ID};
use rts_core::pathfinding::update_dynamic_grid_blocking;
use rts_core::spatial_hash::{rebuild_spatial_hash, SpatialHash, CELL_SIZE};
use rts_core::terrain::{apply_cell_terrain, apply_terrain_to_map_area, terrain_def, TerrainDefinition};

fn terrain(id: &str, passable: bool, cost: u32) -> TerrainDefinition {
    TerrainDefinition { id: id.to_string(), name: id.to_string(), passable, movement_cost: cost, buildable: passable }
}

#[test]
fn spatial_hash_buckets_round_down() {
    let h = SpatialHash::new();
    assert_eq!(h.cell_size, CELL_SIZE);
    assert_eq!(h.cell_coords(0, 0), (0, 0));
    assert_eq!(h.cell_coords(1999, 2000), (0, 1));
    assert_eq!(h.cell_coords(-1, -2000), (-1, -1));
    assert_eq!(h.cell_coords(-2001, 4100), (-2, 2));
}

#[test]
fn spatial_hash_query_finds_neighbours() {
    let mut h = SpatialHash::new();
    h.insert(1, 1000, 1000);
    h.insert(2, 5000, 1000);
    h.insert(3, 1500, 1200);
    h.insert(4, 40000, 40000);
    let found = h.query_radius(1000, 1000, 1000);
    assert!(found.contains(&1));
    assert!(found.contains(&3));
    assert!(!found.contains(&4));
    assert_eq!(found, vec![1, 3]);
    let wide = h.query_radius(3000, 1000, 2500);
    assert!(wide.contains(&1) && wide.contains(&2) && wide.contains(&3));
    h.clear();
    assert!(h.query_radius(1000, 1000, 100000).is_empty());
}

#[test]
fn rebuilt_hash_finds_every_unit_in_radius() {
    let units = vec![
        (10u64, Pos { x: 0, z: 0 }),
        (11, Pos { x: 1900, z: -1900 }),
        (12, Pos { x: -3999, z: 100 }),
        (13, Pos { x: 9000, z: 9000 }),
    ];
    let mut h = SpatialHash::new();
    h.insert(99, 0, 0);
    rebuild_spatial_hash(&mut h, &units);
    let found = h.query_radius(0, 0, 4000);
    for (e, p) in &units {
        let d = (p.x as i64).pow(2) + (p.z as i64).pow(2);
        if d <= 4000 * 4000 {
            assert!(found.contains(e));
        }
    }
    assert!(!found.contains(&99));
    assert!(!found.contains(&13));
}

#[test]
fn negative_radius_finds_nothing_beyond_the_bucket() {
    let mut h = SpatialHash::new();
    h.insert(1, 100, 100);
    assert!(h.query_radius(100, 100, -5000).is_empty());
}

#[test]
fn terrain_lookup_falls_back_to_the_default() {
    let defs = vec![terrain("water", false, 100), terrain(DEFAULT_TERRAIN_ID, true, 100), terrain("mud", true, 250)];
    assert_eq!(terrain_def(&defs, "mud").id, "mud");
    assert_eq!(terrain_def(&defs, "lava").id, DEFAULT_TERRAIN_ID);
    assert!(!terrain_def(&defs, "water").passable);
}

#[test]
fn terrain_covers_exactly_the_map_diamond() {
    let mut grid = Grid::new(8, 8, 4, 4);
    apply_terrain_to_map_area(&mut grid, 4, 4, &terrain("water", false, 300));
    for y in 0..4u32 {
        for x in 0..4u32 {
            let (gx, gz) = map_to_world(4, 4, x, y);
            assert!(grid.is_statically_blocked(gx as i32, gz as i32));
            assert_eq!(grid.movement_cost(gx as i32, gz as i32), Some(300));
        }
    }
    assert_eq!(map_to_world(4, 4, 0, 0), (0, 4));
    assert_eq!(map_to_world(4, 4, 3, 2), (5, 3));
    assert!(!grid.is_blocked(1, 4));
}

#[test]
fn cell_terrain_changes_one_cell() {
    let mut grid = Grid::new(8, 8, 4, 4);
    apply_cell_terrain(&mut grid, 4, 4, 1, 2, &terrain("rock", false, 5));
    let (gx, gz) = map_to_world(4, 4, 1, 2);
    assert!(grid.is_blocked(gx as i32, gz as i32));
    assert_eq!(grid.movement_cost(gx as i32, gz as i32), Some(10));
    let before: Vec<bool> = (0..8).flat_map(|y| (0..8).map(move |x| (x, y))).map(|(x, y)| grid.is_blocked(x, y)).collect();
    apply_cell_terrain(&mut grid, 4, 4, 4, 0, &terrain("rock", false, 5));
    apply_cell_terrain(&mut grid, 4, 4, -1, 0, &terrain("rock", false, 5));
    let after: Vec<bool> = (0..8).flat_map(|y| (0..8).map(move |x| (x, y))).map(|(x, y)| grid.is_blocked(x, y)).collect();
    assert_eq!(before, after);
}

#[test]
fn idle_units_block_their_cells_until_they_move() {
    let mut grid = Grid::new(16, 16, 16, 16);
    grid.set_blocked(1, 1, true);
    update_dynamic_grid_blocking(&mut grid, &vec![Pos { x: 4600, z: 5400 }, Pos { x: 7000, z: 7000 }]);
    assert!(grid.is_blocked(5, 5));
    assert!(grid.is_blocked(7, 7));
    assert!(grid.is_blocked(1, 1));
    assert!(!grid.is_statically_blocked(5, 5));
    update_dynamic_grid_blocking(&mut grid, &vec![]);
    assert!(!grid.is_blocked(5, 5));
    assert!(grid.is_blocked(1, 1));
}

#[test]
fn rounding_is_half_away_from_zero() {
    assert_eq!(round_milli(1500), 2);
    assert_eq!(round_milli(1499), 1);
    assert_eq!(round_milli(-1500), -2);
    assert_eq!(round_milli(-1499), -1);
    assert_eq!(Pos { x: 2500, z: -2500 }.cell(), (3, -3));
}

fn shareable<T: Send + Sync + 'static>() {}

#[test]
fn library_state_can_move_between_threads() {
    shareable::<rts_core::console::ConsoleData>();
    shareable::<rts_core::player::Players>();
    shareable::<Grid>();
    shareable::<rts_core::fog::FogOfWar>();
    shareable::<SpatialHash>();
}
