use rts_core::ai::{economy_decision, EconomyAction, EnemyIntel};
use rts_core::buildings::{BuildingQueue, BuildingQueueEntry};
use rts_core::data::{ArmorType, WarheadTable, WarheadType};
use rts_core::defs::{
    count_name, is_combat_role, requirements_met, BuildingDefinition, BuildingRole, Definitions, FactionDefinition, UnitRole,
};
use rts_core::economy::{harvester_step, relink_harvester_state, sat_sub, Harvester, HarvesterState, OreSite, Spot, HARVEST_INTERVAL_MS};
use rts_core::fog::{initial_fog_alphas, ore_visible, structure_visible, unit_visible, FogOfWar, VisibilityState, VisionSource};
use rts_core::game_state::{
    check_game_over_conditions, ensure_player_slots, game_is_playing, local_human_id, next_faction, toggle_controller, GameResult,
    GAME_CHECK_DELAY_MS, STARTING_CREDITS,
};
use rts_core::geometry::Pos;
use rts_core::grid::Grid;
use rts_core::map::{cell_map_coords, logical_size, single_cell_terrain, Cell, GameMap, MapChunk, MapMetadata};
use rts_core::orders::{right_click_orders, ClickableUnit};
use rts_core::placement::{footprint_min, is_valid_placement, BuildingExtent};
use rts_core::player::{Player, PlayerController, Players};
use rts_core::siting::{find_best_refinery_spot, find_placement_near};

fn spot(x: i32, z: i32) -> Spot {
    Spot { pos: Pos { x, z }, height: 0 }
}

fn one_player(credits: u32) -> Players {
    let mut p = Players::new();
    p.players.push(Player { id: 0, team_id: 0, faction: "allies".to_string(), controller: PlayerController::LocalHuman, credits });
    p
}

#[test]
fn harvester_cycle_from_field_to_refinery() {
    let grid = Grid::new(64, 64, 64, 64);
    let mut players = one_player(0);
    let ores = vec![OreSite { entity: 5, spot: spot(20000, 20000), amount: 30 }, OreSite { entity: 6, spot: spot(40000, 40000), amount: 500 }];
    let refineries = vec![spot(10000, 10000)];
    let mut h = Harvester { state: HarvesterState::SeekingNearestOre, ..Harvester::default() };

    harvester_step(&mut h, spot(18000, 18000), &ores, &refineries, false, Some(0), &mut players, &grid, 16);
    assert_eq!(h.state, HarvesterState::MovingToOre(5));

    let out = harvester_step(&mut h, spot(12000, 12000), &ores, &refineries, false, Some(0), &mut players, &grid, 16);
    assert!(out.searched);
    assert!(out.new_path.is_some());
    assert_eq!(h.path_retry_ms, 0);

    let out = harvester_step(&mut h, spot(19000, 19000), &ores, &refineries, true, Some(0), &mut players, &grid, 16);
    assert!(out.clear_path);
    assert_eq!(h.state, HarvesterState::Harvesting(5));
    assert_eq!(h.timer_ms, HARVEST_INTERVAL_MS);

    let out = harvester_step(&mut h, spot(19000, 19000), &ores, &refineries, true, Some(0), &mut players, &grid, 500);
    assert_eq!(out.ore_left, Some((5, 5)));
    assert_eq!(h.carrying_ore, 25);

    let ores_left = vec![OreSite { entity: 5, spot: spot(20000, 20000), amount: 5 }, ores[1]];
    let out = harvester_step(&mut h, spot(19000, 19000), &ores_left, &refineries, true, Some(0), &mut players, &grid, 500);
    assert_eq!(out.ore_left, Some((5, 0)));
    assert_eq!(h.carrying_ore, 30);
    assert_eq!(h.state, HarvesterState::SeekingNearestOre);

    h.state = HarvesterState::ReturningToRefinery(Some(6));
    let out = harvester_step(&mut h, spot(11000, 11000), &ores, &refineries, true, Some(0), &mut players, &grid, 16);
    assert_eq!(out.deposited, 30);
    assert_eq!(players.players[0].credits, 30);
    assert_eq!(h.carrying_ore, 0);
    assert_eq!(h.state, HarvesterState::MovingToOre(6));
}

#[test]
fn full_harvester_heads_home() {
    let grid = Grid::new(32, 32, 32, 32);
    let mut players = one_player(0);
    let ores = vec![OreSite { entity: 5, spot: spot(20000, 20000), amount: 1000 }];
    let mut h = Harvester { state: HarvesterState::Harvesting(5), carrying_ore: 240, capacity: 250, timer_ms: 10, path_retry_ms: 0 };
    let out = harvester_step(&mut h, spot(20000, 20000), &ores, &vec![], true, Some(0), &mut players, &grid, 100);
    assert_eq!(out.ore_left, Some((5, 975)));
    assert_eq!(h.state, HarvesterState::ReturningToRefinery(Some(5)));
    harvester_step(&mut h, spot(20000, 20000), &ores, &vec![], true, Some(0), &mut players, &grid, 100);
    assert_eq!(h.state, HarvesterState::Idle);
}

#[test]
fn path_searches_are_paced() {
    let grid = Grid::new(32, 32, 32, 32);
    let mut players = one_player(0);
    let ores = vec![OreSite { entity: 5, spot: spot(20000, 20000), amount: 100 }];
    let mut h = Harvester { state: HarvesterState::MovingToOre(5), path_retry_ms: 600, ..Harvester::default() };
    let out = harvester_step(&mut h, spot(1000, 1000), &ores, &vec![], false, None, &mut players, &grid, 500);
    assert!(!out.searched);
    assert_eq!(h.path_retry_ms, 100);
    assert_eq!(sat_sub(i64::MIN, 1), i64::MIN);
    assert_eq!(sat_sub(5, 7), -2);
}

#[test]
fn right_click_on_ore_sends_harvesters() {
    let selected = vec![(1, 0, true), (2, 0, false), (3, 1, true)];
    let ores = vec![(50, spot(10000, 10000))];
    let orders = right_click_orders(spot(10500, 10000), 0, &vec![], &ores, &vec![], &selected, &vec![(9, 0), (8, 1)]);
    assert_eq!(orders.rally_buildings, vec![9]);
    assert_eq!(orders.harvest, Some((vec![1], 50)));
    assert_eq!(orders.movement, Some(vec![2]));
    assert_eq!(orders.attack, None);
}

#[test]
fn right_click_on_an_enemy_attacks_it() {
    let selected = vec![(1, 0, true), (2, 0, false)];
    let units = vec![
        ClickableUnit { entity: 70, spot: spot(5000, 5000), owner: 1, visible: false },
        ClickableUnit { entity: 71, spot: spot(5000, 5000), owner: 1, visible: true },
    ];
    let orders = right_click_orders(spot(5200, 5000), 0, &units, &vec![], &vec![], &selected, &vec![]);
    assert_eq!(orders.attack, Some((vec![1, 2], 71)));
    assert_eq!(orders.movement, None);
    let elsewhere = right_click_orders(spot(30000, 5000), 0, &units, &vec![], &vec![], &selected, &vec![]);
    assert_eq!(elsewhere.movement, Some(vec![1, 2]));
    assert_eq!(elsewhere.attack, None);
}

#[test]
fn right_click_on_own_refinery_returns_harvesters() {
    let selected = vec![(1, 0, true), (2, 0, false)];
    let refineries = vec![(40, spot(8000, 8000), 1), (41, spot(8000, 8000), 0)];
    let orders = right_click_orders(spot(9000, 8000), 0, &vec![], &vec![], &refineries, &selected, &vec![]);
    assert_eq!(orders.return_to_refinery, Some((vec![1], 41)));
    assert_eq!(orders.movement, Some(vec![2]));
}

#[test]
fn match_is_decided_after_the_delay() {
    let mut result = GameResult::Playing;
    let mut elapsed = 0;
    check_game_over_conditions(&mut result, &mut elapsed, GAME_CHECK_DELAY_MS - 1, &vec![1], 0);
    assert_eq!(result, GameResult::Playing);
    check_game_over_conditions(&mut result, &mut elapsed, 1, &vec![1], 0);
    assert_eq!(result, GameResult::Defeat);
    assert!(!game_is_playing(result));
    check_game_over_conditions(&mut result, &mut elapsed, 100, &vec![0], 0);
    assert_eq!(result, GameResult::Defeat);

    let mut won = GameResult::Playing;
    let mut t = GAME_CHECK_DELAY_MS;
    check_game_over_conditions(&mut won, &mut t, 0, &vec![0, 0], 0);
    assert_eq!(won, GameResult::Victory);
    let mut on = GameResult::Playing;
    check_game_over_conditions(&mut on, &mut t, 0, &vec![0, 2], 0);
    assert_eq!(on, GameResult::Playing);
    assert!(game_is_playing(on));
}

fn slot(id: usize, controller: PlayerController) -> Player {
    Player { id, team_id: id, faction: "allies".to_string(), controller, credits: STARTING_CREDITS }
}

#[test]
fn only_one_slot_is_the_local_human() {
    let mut players = Players { players: vec![slot(0, PlayerController::LocalHuman), slot(1, PlayerController::Nobody), slot(2, PlayerController::AI)] };
    toggle_controller(&mut players, 1);
    assert_eq!(players.players[1].controller, PlayerController::LocalHuman);
    assert_eq!(players.players[0].controller, PlayerController::AI);
    assert_eq!(local_human_id(&players), Some(1));
    toggle_controller(&mut players, 1);
    assert_eq!(players.players[1].controller, PlayerController::AI);
    assert_eq!(local_human_id(&players), None);
    toggle_controller(&mut players, 2);
    assert_eq!(players.players[2].controller, PlayerController::Nobody);
    toggle_controller(&mut players, 9);
    assert_eq!(players.players.len(), 3);
}

#[test]
fn factions_cycle_in_name_order() {
    let factions: Vec<String> = vec!["soviet".to_string(), "allies".to_string(), "nod".to_string()];
    assert_eq!(next_faction("allies", &factions), Some("nod".to_string()));
    assert_eq!(next_faction("nod", &factions), Some("soviet".to_string()));
    assert_eq!(next_faction("soviet", &factions), Some("allies".to_string()));
    assert_eq!(next_faction("gdi", &factions), Some("allies".to_string()));
    assert_eq!(next_faction("allies", &vec![]), None);
}

#[test]
fn player_slots_follow_the_map() {
    let mut players = Players::new();
    ensure_player_slots(&mut players, 4, Some("soviet".to_string()), "allies");
    let ids: Vec<usize> = players.players.iter().map(|p| p.id).collect();
    assert_eq!(ids, vec![0, 1, 2, 3]);
    assert_eq!(players.players[0].controller, PlayerController::LocalHuman);
    assert!(players.players[1..].iter().all(|p| p.controller == PlayerController::AI && p.faction == "soviet"));
    ensure_player_slots(&mut players, 2, None, "allies");
    assert_eq!(players.players.len(), 2);
    let mut fresh = Players::new();
    ensure_player_slots(&mut fresh, 2, None, "allies");
    assert_eq!(fresh.players.len(), 2);
    assert!(fresh.players.iter().all(|p| p.faction == "allies"));
    assert_eq!(fresh.players[0].controller, PlayerController::LocalHuman);
    assert_eq!(fresh.players[1].controller, PlayerController::AI);
}

#[test]
fn fog_reveals_what_the_local_player_sees() {
    let mut fog = FogOfWar::new(16, 16, 16, 16);
    assert_eq!(fog.get_state(8, 8), VisibilityState::Unexplored);
    let sources = vec![
        VisionSource { position: Pos { x: 8000, z: 8000 }, range: 2000, owner: 0 },
        VisionSource { position: Pos { x: 2000, z: 2000 }, range: 5000, owner: 1 },
    ];
    fog.update_visibility(&sources, 0);
    assert_eq!(fog.get_state(8, 8), VisibilityState::Visible);
    assert_eq!(fog.get_state(10, 8), VisibilityState::Visible);
    assert_eq!(fog.get_state(10, 10), VisibilityState::Unexplored);
    assert_eq!(fog.get_state(2, 2), VisibilityState::Unexplored);
    fog.update_visibility(&vec![], 0);
    assert_eq!(fog.get_state(8, 8), VisibilityState::Explored);
    fog.set_disabled(true);
    fog.update_visibility(&vec![], 0);
    assert_eq!(fog.get_state(0, 0), VisibilityState::Visible);
    assert!(unit_visible(0, 0, VisibilityState::Unexplored));
    assert!(!unit_visible(1, 0, VisibilityState::Explored));
    assert!(unit_visible(1, 0, VisibilityState::Visible));
    assert!(structure_visible(1, 0, VisibilityState::Explored));
    assert!(!structure_visible(1, 0, VisibilityState::Unexplored));
    assert!(ore_visible(VisibilityState::Explored));
    assert!(!ore_visible(VisibilityState::Unexplored));
}

#[test]
fn fog_texture_starts_opaque_on_the_diamond() {
    let alphas = initial_fog_alphas(8, 8, 4, 4);
    assert_eq!(alphas.len(), 64);
    assert_eq!(alphas[4 * 8 + 4], 255);
    assert_eq!(alphas[0], 0);
    let fog = FogOfWar::new(8, 8, 4, 4);
    assert_eq!(fog.texture_alphas(), alphas);
}

#[test]
fn warheads_hurt_armor_by_the_table() {
    let t = WarheadTable::new();
    assert_eq!(t.get_modifier(WarheadType::SA, ArmorType::NoArmor), 100);
    assert_eq!(t.get_modifier(WarheadType::AP, ArmorType::Heavy), 100);
    assert_eq!(t.get_modifier(WarheadType::HE, ArmorType::Light), 60);
    assert_eq!(t.get_modifier(WarheadType::Fire, ArmorType::Plate), 0);
    assert_eq!(t.get_modifier(WarheadType::Super, ArmorType::Special2), 100);
    assert_eq!(t.get_modifier(WarheadType::SA, ArmorType::Special2), 0);
}

#[test]
fn roles_and_requirements() {
    assert_eq!(BuildingRole::from_name(Some("war_factory")), BuildingRole::WarFactory);
    assert_eq!(BuildingRole::from_name(Some("castle")), BuildingRole::Other);
    assert_eq!(BuildingRole::from_name(None), BuildingRole::Other);
    assert_eq!(UnitRole::from_name(Some("tank")), UnitRole::Tank);
    assert_eq!(UnitRole::from_name(None), UnitRole::Unspecified);
    assert!(is_combat_role(UnitRole::Tank));
    assert!(!is_combat_role(UnitRole::Harvester));
    let owned: Vec<String> = vec!["power".to_string(), "power".to_string()];
    assert_eq!(count_name(&owned, "power"), 2);
    assert!(requirements_met(&None, &vec![]));
    assert!(requirements_met(&Some(vec!["power".to_string()]), &owned));
    assert!(!requirements_met(&Some(vec!["power".to_string(), "radar".to_string()]), &owned));
}

fn map_with(chunks: Vec<MapChunk>, width: u32, height: u32) -> GameMap {
    GameMap {
        metadata: MapMetadata { name: "m".to_string(), author: "a".to_string(), description: "d".to_string(), recommended_players: 2 },
        width,
        height,
        default_terrain: "grass".to_string(),
        chunks,
        starting_positions: vec![],
        resource_nodes: vec![],
    }
}

#[test]
fn map_cells_and_sizes() {
    let chunk = MapChunk { x: 1, y: 2, cells: vec![Cell { x: None, y: None, terrain: "water".to_string() }; 40] };
    assert_eq!(cell_map_coords(&chunk, 33, &chunk.cells[33]), (32 + 1, 64 + 1));
    let placed = Cell { x: Some(5), y: Some(7), terrain: "rock".to_string() };
    assert_eq!(cell_map_coords(&chunk, 0, &placed), (37, 71));
    let single = map_with(vec![MapChunk { x: 0, y: 0, cells: vec![Cell { x: None, y: None, terrain: "sand".to_string() }] }], 10, 6);
    assert_eq!(single_cell_terrain(&single).map(|c| c.terrain.clone()), Some("sand".to_string()));
    assert_eq!(logical_size(&single), 16);
    let multi = map_with(vec![chunk.clone()], 10, 6);
    assert!(single_cell_terrain(&multi).is_none());
}

#[test]
fn placement_respects_footprint_and_influence() {
    let grid = Grid::new(32, 32, 32, 32);
    assert_eq!(footprint_min(Pos { x: 10500, z: 10500 }, (2, 2)), (10, 10));
    assert_eq!(footprint_min(Pos { x: 10000, z: 10000 }, (3, 3)), (9, 9));
    assert!(is_valid_placement(&grid, (10, 10), (2, 2), &vec![], &vec![], &vec![]));
    assert!(!is_valid_placement(&grid, (10, 10), (2, 2), &vec![(11, 11)], &vec![], &vec![]));
    assert!(!is_valid_placement(&grid, (10, 10), (2, 2), &vec![], &vec![(10, 11)], &vec![]));
    let far = BuildingExtent { min: (30, 30), size: (2, 2), influence_radius: 3 };
    assert!(!is_valid_placement(&grid, (10, 10), (2, 2), &vec![], &vec![], &vec![far]));
    let near = BuildingExtent { min: (13, 10), size: (2, 2), influence_radius: 3 };
    assert!(is_valid_placement(&grid, (10, 10), (2, 2), &vec![], &vec![], &vec![near]));
    assert!(!is_valid_placement(&grid, (31, 31), (2, 2), &vec![], &vec![], &vec![]));
}

#[test]
fn computer_players_find_room_to_build() {
    let grid = Grid::new(64, 64, 64, 64);
    let base = Pos { x: 32000, z: 32000 };
    let yard = BuildingExtent { min: (31, 31), size: (3, 3), influence_radius: 8 };
    let spot = find_placement_near(base, (2, 2), &grid, &vec![], &vec![], &vec![yard]).unwrap();
    let min = footprint_min(spot, (2, 2));
    assert!(is_valid_placement(&grid, min, (2, 2), &vec![], &vec![], &vec![yard]));
    let ores = vec![(40, 32), (41, 32)];
    let refinery = find_best_refinery_spot(base, (3, 3), &grid, &vec![], &ores, &vec![yard]);
    if let Some(p) = refinery {
        let m = footprint_min(p, (3, 3));
        assert!(is_valid_placement(&grid, m, (3, 3), &vec![], &ores, &vec![yard]));
    }
}

fn ai_defs() -> Definitions {
    let b = |id: &str, cost: u32, role: BuildingRole| BuildingDefinition {
        id: id.to_string(),
        name: id.to_string(),
        cost,
        size: (2, 2),
        power_produced: 0,
        power_consumed: 0,
        requires: None,
        role,
        armor: None,
        influence_radius: 6,
        build_time_ms: 1000,
    };
    Definitions {
        buildings: vec![b("yard", 3000, BuildingRole::ConstructionYard), b("power", 300, BuildingRole::Power)],
        units: vec![],
        factions: vec![FactionDefinition {
            id: "soviet".to_string(),
            name: "Soviet".to_string(),
            buildings: vec!["yard".to_string(), "power".to_string()],
            units: vec![],
        }],
    }
}

#[test]
fn ai_economy_starts_places_and_waits() {
    let defs = ai_defs();
    let grid = Grid::new(64, 64, 64, 64);
    let player = Player { id: 1, team_id: 1, faction: "soviet".to_string(), controller: PlayerController::AI, credits: 1000 };
    let base = Pos { x: 32000, z: 32000 };
    let yard = BuildingExtent { min: (31, 31), size: (2, 2), influence_radius: 6 };
    let intel = EnemyIntel::new();
    let owned = vec!["yard".to_string()];

    let first = economy_decision(1, &player, &defs, None, &owned, base, &grid, &vec![], &vec![], &vec![yard], &intel);
    assert_eq!(first, EconomyAction::Build { building_id: "power".to_string() });

    let idle = BuildingQueue::new();
    let next = economy_decision(1, &player, &defs, Some(&idle), &owned, base, &grid, &vec![], &vec![], &vec![yard], &intel);
    assert_eq!(next, EconomyAction::Build { building_id: "power".to_string() });

    let mut poor = player.clone();
    poor.credits = 10;
    assert_eq!(economy_decision(1, &poor, &defs, Some(&idle), &owned, base, &grid, &vec![], &vec![], &vec![yard], &intel), EconomyAction::Idle);

    let busy = BuildingQueue { current: Some(BuildingQueueEntry { building_id: "power".to_string(), progress_ms: 0, build_time_ms: 10 }), ready: None };
    assert_eq!(economy_decision(1, &player, &defs, Some(&busy), &owned, base, &grid, &vec![], &vec![], &vec![yard], &intel), EconomyAction::Idle);

    let ready = BuildingQueue { current: None, ready: Some("power".to_string()) };
    match economy_decision(1, &player, &defs, Some(&ready), &owned, base, &grid, &vec![], &vec![], &vec![yard], &intel) {
        EconomyAction::Place { building_id, position } => {
            assert_eq!(building_id, "power");
            let min = footprint_min(position, (2, 2));
            assert!(is_valid_placement(&grid, min, (2, 2), &vec![], &vec![], &vec![yard]));
        }
        other => panic!("expected a placement, got {:?}", other),
    }
}

#[test]
fn a_list_without_a_local_human_hands_player_zero_to_it() {
    let mut players = Players::new();
    players.players.push(Player { id: 1, team_id: 1, faction: "soviet".to_string(), controller: PlayerController::AI, credits: 100 });
    players.players.push(Player { id: 0, team_id: 0, faction: "soviet".to_string(), controller: PlayerController::AI, credits: 100 });
    ensure_player_slots(&mut players, 2, Some("soviet".to_string()), "allies");
    assert_eq!(players.players.len(), 2);
    assert_eq!(players.players[0].controller, PlayerController::AI);
    assert_eq!(players.players[1].id, 0);
    assert_eq!(players.players[1].controller, PlayerController::LocalHuman);
}

#[test]
fn harvester_states_are_relinked_through_the_table() {
    let links = vec![(7u64, 0u64), (9, 1), (7, 5)];
    assert_eq!(relink_harvester_state(HarvesterState::MovingToOre(7), &links), HarvesterState::MovingToOre(0));
    assert_eq!(relink_harvester_state(HarvesterState::Harvesting(9), &links), HarvesterState::Harvesting(1));
    assert_eq!(relink_harvester_state(HarvesterState::Harvesting(3), &links), HarvesterState::SeekingNearestOre);
    assert_eq!(relink_harvester_state(HarvesterState::ReturningToRefinery(Some(3)), &links), HarvesterState::ReturningToRefinery(None));
    assert_eq!(relink_harvester_state(HarvesterState::ReturningToRefinery(Some(9)), &links), HarvesterState::ReturningToRefinery(Some(1)));
    assert_eq!(relink_harvester_state(HarvesterState::Idle, &links), HarvesterState::Idle);
}
