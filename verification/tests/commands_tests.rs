use rts_core::buildings::{production_tick, BuildingQueue, BuildingQueueEntry, PowerSystem, ProductionQueue, ProductionStep};
use rts_core::commands::{
    change_player_credits, get_player_credits, handle_build_command, handle_cancel_build_command, handle_cancel_unit_command,
    handle_consume_ready_command, handle_place_building_command, handle_sell_building_command, handle_train_unit_command,
    BuildOutcome, PlaceOutcome, TrainOutcome,
};
use rts_core::defs::{BuildingDefinition, BuildingRole, Definitions, FactionDefinition, UnitDefinition, UnitRole};
use rts_core::geometry::Pos;
use rts_core::grid::Grid;
use rts_core::player::{Player, PlayerController, Players};

fn building(id: &str, cost: u32, size: (i32, i32), produced: i32, consumed: i32, requires: Option<Vec<&str>>, role: BuildingRole) -> BuildingDefinition {
    BuildingDefinition {
        id: id.to_string(),
        name: id.to_string(),
        cost,
        size,
        power_produced: produced,
        power_consumed: consumed,
        requires: requires.map(|r| r.iter().map(|s| s.to_string()).collect()),
        role,
        armor: None,
        influence_radius: 5,
        build_time_ms: 2000,
    }
}

fn unit(id: &str, cost: u32, produced_by: &str, requires: Option<Vec<&str>>, role: UnitRole) -> UnitDefinition {
    UnitDefinition {
        id: id.to_string(),
        name: id.to_string(),
        cost,
        produced_by: vec![produced_by.to_string()],
        requires: requires.map(|r| r.iter().map(|s| s.to_string()).collect()),
        role,
        armor: None,
        build_time_ms: 1500,
    }
}

fn definitions() -> Definitions {
    Definitions {
        buildings: vec![
            building("yard", 3000, (3, 3), 0, 0, None, BuildingRole::ConstructionYard),
            building("power_plant", 300, (2, 2), 100, 0, None, BuildingRole::Power),
            building("barracks", 500, (2, 2), 0, 20, Some(vec!["power_plant"]), BuildingRole::Barracks),
        ],
        units: vec![
            unit("rifleman", 100, "barracks", None, UnitRole::Infantry),
            unit("medic", 250, "barracks", Some(vec!["hospital"]), UnitRole::Other),
        ],
        factions: vec![FactionDefinition {
            id: "allies".to_string(),
            name: "Allies".to_string(),
            buildings: vec!["yard".to_string(), "power_plant".to_string(), "barracks".to_string()],
            units: vec!["rifleman".to_string()],
        }],
    }
}

fn players(credits: u32) -> Players {
    let mut p = Players::new();
    p.players.push(Player { id: 0, team_id: 0, faction: "allies".to_string(), controller: PlayerController::LocalHuman, credits });
    p.players.push(Player { id: 1, team_id: 1, faction: "allies".to_string(), controller: PlayerController::AI, credits: 50 });
    p
}

fn names(v: &[&str]) -> Vec<String> {
    v.iter().map(|s| s.to_string()).collect()
}

#[test]
fn credits_change_saturates() {
    let mut p = players(100);
    change_player_credits(0, -250, &mut p);
    assert_eq!(get_player_credits(0, &p), 0);
    change_player_credits(0, i32::MAX, &mut p);
    change_player_credits(0, i32::MAX, &mut p);
    assert_eq!(get_player_credits(0, &p), u32::MAX - 1);
    change_player_credits(0, 5, &mut p);
    assert_eq!(get_player_credits(0, &p), u32::MAX);
    change_player_credits(7, 5, &mut p);
    assert_eq!(get_player_credits(7, &p), 0);
    assert_eq!(get_player_credits(1, &p), 50);
}

#[test]
fn build_orders_are_checked_in_order() {
    let defs = definitions();
    let mut p = players(1000);
    let mut q = BuildingQueue::new();
    assert_eq!(handle_build_command(&mut q, &mut p, &defs, &vec![], 0, "castle"), BuildOutcome::UnknownBuilding);
    assert_eq!(handle_build_command(&mut q, &mut p, &defs, &vec![], 0, "barracks"), BuildOutcome::RequirementsNotMet);
    assert_eq!(handle_build_command(&mut q, &mut p, &defs, &vec![], 0, "yard"), BuildOutcome::NotEnoughCredits);
    assert_eq!(get_player_credits(0, &p), 1000);
    assert_eq!(handle_build_command(&mut q, &mut p, &defs, &vec![], 0, "power_plant"), BuildOutcome::Started);
    assert_eq!(get_player_credits(0, &p), 700);
    let entry = q.current.clone().unwrap();
    assert_eq!(entry.building_id, "power_plant");
    assert_eq!(entry.progress_ms, 0);
    assert_eq!(entry.build_time_ms, 2000);
    assert_eq!(handle_build_command(&mut q, &mut p, &defs, &names(&["power_plant"]), 0, "barracks"), BuildOutcome::Busy);
}

#[test]
fn cancelling_a_build_refunds_it() {
    let defs = definitions();
    let mut p = players(1000);
    let mut q = BuildingQueue::new();
    handle_build_command(&mut q, &mut p, &defs, &vec![], 0, "power_plant");
    assert!(!handle_cancel_build_command(&mut q, &mut p, &defs, 0, "barracks"));
    assert!(handle_cancel_build_command(&mut q, &mut p, &defs, 0, "power_plant"));
    assert_eq!(get_player_credits(0, &p), 1000);
    assert!(q.current.is_none());

    let mut ready = BuildingQueue { current: None, ready: Some("barracks".to_string()) };
    assert!(handle_cancel_build_command(&mut ready, &mut p, &defs, 0, "barracks"));
    assert_eq!(get_player_credits(0, &p), 1500);
    assert!(ready.ready.is_none());
}

#[test]
fn construction_finishes_after_its_build_time() {
    let mut q = BuildingQueue {
        current: Some(BuildingQueueEntry { building_id: "barracks".to_string(), progress_ms: 0, build_time_ms: 2000 }),
        ready: None,
    };
    q.tick(1500);
    assert_eq!(q.current.as_ref().unwrap().progress_ms, 1500);
    assert!(q.ready.is_none());
    q.tick(500);
    assert!(q.current.is_none());
    assert_eq!(q.ready.as_deref(), Some("barracks"));
    handle_consume_ready_command(&mut q, "power_plant");
    assert!(q.ready.is_some());
    handle_consume_ready_command(&mut q, "barracks");
    assert!(q.ready.is_none());
    let mut idle = BuildingQueue::new();
    idle.tick(10_000);
    assert!(idle.current.is_none() && idle.ready.is_none());
}

#[test]
fn placing_a_building_blocks_its_footprint() {
    let defs = definitions();
    let mut grid = Grid::new(32, 32, 32, 32);
    let mut q = BuildingQueue { current: None, ready: Some("power_plant".to_string()) };
    let mut power = PowerSystem::new();
    let centre = Pos { x: 10500, z: 10500 };
    assert_eq!(
        handle_place_building_command(&mut grid, &mut q, &mut power, &defs, &vec![], &vec![], 0, 0, "tower", centre),
        PlaceOutcome::UnknownBuilding
    );
    assert_eq!(
        handle_place_building_command(&mut grid, &mut q, &mut power, &defs, &vec![(10, 11)], &vec![], 0, 0, "power_plant", centre),
        PlaceOutcome::Blocked
    );
    assert_eq!(
        handle_place_building_command(&mut grid, &mut q, &mut power, &defs, &vec![], &vec![], 0, 0, "power_plant", centre),
        PlaceOutcome::Placed
    );
    assert!(q.ready.is_none());
    assert_eq!(power.produced, 100);
    for (x, z) in [(10, 10), (11, 10), (10, 11), (11, 11)] {
        assert!(grid.is_statically_blocked(x, z));
    }
    assert!(!grid.is_blocked(12, 10));
    assert_eq!(
        handle_place_building_command(&mut grid, &mut q, &mut power, &defs, &vec![], &vec![], 0, 0, "power_plant", centre),
        PlaceOutcome::Blocked
    );

    let mut other_power = PowerSystem::new();
    assert_eq!(
        handle_place_building_command(&mut grid, &mut q, &mut other_power, &defs, &vec![], &vec![], 1, 0, "barracks", Pos { x: 20500, z: 20500 }),
        PlaceOutcome::Placed
    );
    assert_eq!(other_power, PowerSystem::new());
}

#[test]
fn selling_refunds_half_and_frees_the_ground() {
    let defs = definitions();
    let mut grid = Grid::new(32, 32, 32, 32);
    let mut q = BuildingQueue::new();
    let mut power = PowerSystem::new();
    let mut p = players(0);
    let centre = Pos { x: 10500, z: 10500 };
    handle_place_building_command(&mut grid, &mut q, &mut power, &defs, &vec![], &vec![], 0, 0, "barracks", centre);
    assert_eq!(power.consumed, 20);
    assert!(!handle_sell_building_command(&mut grid, &mut p, &mut power, &defs, 1, "barracks", centre, 0, 0));
    assert!(grid.is_blocked(10, 10));
    assert!(handle_sell_building_command(&mut grid, &mut p, &mut power, &defs, 0, "barracks", centre, 0, 0));
    assert_eq!(get_player_credits(0, &p), 250);
    assert_eq!(power.consumed, 0);
    assert!(!grid.is_blocked(10, 10));
    assert!(!grid.is_blocked(11, 11));
    assert!(!grid.is_statically_blocked(10, 10));
    assert!(!grid.is_statically_blocked(11, 11));
}

#[test]
fn training_orders_are_checked_in_order() {
    let defs = definitions();
    let mut p = players(120);
    let mut q = ProductionQueue::new();
    let owned = names(&["barracks"]);
    assert_eq!(handle_train_unit_command(&mut q, 0, "barracks", &mut p, &defs, &owned, 0, "tank"), TrainOutcome::UnknownUnit);
    assert_eq!(handle_train_unit_command(&mut q, 1, "barracks", &mut p, &defs, &owned, 0, "rifleman"), TrainOutcome::WrongOwner);
    assert_eq!(handle_train_unit_command(&mut q, 0, "factory", &mut p, &defs, &owned, 0, "rifleman"), TrainOutcome::CannotProduce);
    assert_eq!(handle_train_unit_command(&mut q, 0, "barracks", &mut p, &defs, &owned, 0, "medic"), TrainOutcome::RequirementsNotMet);
    assert_eq!(handle_train_unit_command(&mut q, 0, "barracks", &mut p, &defs, &owned, 0, "rifleman"), TrainOutcome::Queued);
    assert_eq!(get_player_credits(0, &p), 20);
    assert_eq!(handle_train_unit_command(&mut q, 0, "barracks", &mut p, &defs, &owned, 0, "rifleman"), TrainOutcome::NotEnoughCredits);
    assert_eq!(q.queue, vec!["rifleman".to_string()]);
}

#[test]
fn cancelling_a_unit_removes_the_last_one_queued() {
    let defs = definitions();
    let mut p = players(0);
    let mut q = ProductionQueue { queue: names(&["rifleman", "medic", "rifleman", "medic"]), progress_ms: 300 };
    assert!(!handle_cancel_unit_command(&mut q, 1, &mut p, &defs, 0, "rifleman"));
    assert!(!handle_cancel_unit_command(&mut q, 0, &mut p, &defs, 0, "tank"));
    assert!(handle_cancel_unit_command(&mut q, 0, &mut p, &defs, 0, "rifleman"));
    assert_eq!(q.queue, names(&["rifleman", "medic", "medic"]));
    assert_eq!(q.progress_ms, 300);
    assert_eq!(get_player_credits(0, &p), 100);
}

#[test]
fn production_trains_the_head_of_the_queue() {
    let defs = definitions();
    let mut q = ProductionQueue { queue: names(&["ghost", "rifleman", "rifleman"]), progress_ms: 0 };
    assert_eq!(production_tick(&mut q, &defs, 100), ProductionStep::Dropped);
    assert_eq!(q.queue, names(&["rifleman", "rifleman"]));
    assert_eq!(production_tick(&mut q, &defs, 1000), ProductionStep::Training);
    assert_eq!(q.progress_ms, 1000);
    assert_eq!(production_tick(&mut q, &defs, 500), ProductionStep::Completed("rifleman".to_string()));
    assert_eq!(q.progress_ms, 0);
    assert_eq!(q.queue.len(), 1);
    let mut empty = ProductionQueue::new();
    assert_eq!(production_tick(&mut empty, &defs, 100), ProductionStep::Idle);
}

#[test]
fn power_bookkeeping_is_reversible() {
    let mut power = PowerSystem::new();
    power.add_building(100, 20);
    power.add_building(0, 35);
    power.remove_building(0, 35);
    assert_eq!(power, PowerSystem { produced: 100, consumed: 20 });
}
