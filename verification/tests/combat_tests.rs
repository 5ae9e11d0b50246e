use rts_core::ai::{scout_step, SCOUT_AREA_MAX, SCOUT_AREA_MIN};
use rts_core::buildings::PowerSystem;
use rts_core::combat::{
    auto_attack_logic, combat_step, join_fight_logic, AttackCandidate, AutoAttack, HeldTarget, IdleUnit, Pursuit, REPATH_COOLDOWN_MS,
};
use rts_core::commands::{handle_place_building_command, remove_destroyed_building};
use rts_core::buildings::BuildingQueue;
use rts_core::defs::{BuildingDefinition, BuildingRole, Definitions};
use rts_core::economy::Spot;
use rts_core::geometry::Pos;
use rts_core::grid::Grid;
use rts_core::player::{Player, PlayerController, Players};

fn spot(x: i32, z: i32) -> Spot {
    Spot { pos: Pos { x, z }, height: 0 }
}

fn teams() -> Players {
    let mut p = Players::new();
    p.players.push(Player { id: 0, team_id: 0, faction: "a".to_string(), controller: PlayerController::LocalHuman, credits: 0 });
    p.players.push(Player { id: 1, team_id: 1, faction: "b".to_string(), controller: PlayerController::AI, credits: 0 });
    p.players.push(Player { id: 2, team_id: 0, faction: "a".to_string(), controller: PlayerController::AI, credits: 0 });
    p
}

fn cand(entity: u64, x: i32, owner: usize, is_unit: bool) -> AttackCandidate {
    AttackCandidate { entity, spot: spot(x, 0), owner, is_unit, is_building: !is_unit, hidden: false }
}

#[test]
fn attackers_prefer_the_nearest_enemy_unit() {
    let players = teams();
    let nearby = vec![cand(10, 3000, 1, false), cand(11, 4000, 1, true), cand(12, 2000, 2, true), cand(13, 3500, 1, true)];
    let r = auto_attack_logic(HeldTarget::Nothing, false, spot(0, 0), 5000, 0, &players, &nearby, &vec![]);
    assert_eq!(r, AutoAttack { drop_target: false, new_target: Some(13) });
}

#[test]
fn without_units_the_nearest_building_is_taken() {
    let players = teams();
    let nearby = vec![cand(10, 3000, 1, false)];
    let buildings = vec![cand(20, 2500, 1, false), cand(21, 1000, 2, false), cand(22, 9000, 1, false)];
    let r = auto_attack_logic(HeldTarget::Nothing, false, spot(0, 0), 5000, 0, &players, &nearby, &buildings);
    assert_eq!(r.new_target, Some(20));
    let none = auto_attack_logic(HeldTarget::Nothing, false, spot(0, 0), 500, 0, &players, &nearby, &buildings);
    assert_eq!(none.new_target, None);
}

#[test]
fn units_under_move_orders_or_in_a_fight_keep_going() {
    let players = teams();
    let nearby = vec![cand(11, 1000, 1, true)];
    let moving = auto_attack_logic(HeldTarget::Nothing, true, spot(0, 0), 5000, 0, &players, &nearby, &vec![]);
    assert_eq!(moving, AutoAttack { drop_target: false, new_target: None });
    let fighting = auto_attack_logic(HeldTarget::Seen(cand(30, 4000, 1, true)), false, spot(0, 0), 5000, 0, &players, &nearby, &vec![]);
    assert_eq!(fighting, AutoAttack { drop_target: false, new_target: None });
}

#[test]
fn a_unit_draws_fire_away_from_a_building_but_buildings_never_swap() {
    let players = teams();
    let held = HeldTarget::Seen(cand(40, 3000, 1, false));
    let with_unit = auto_attack_logic(held, false, spot(0, 0), 5000, 0, &players, &vec![cand(11, 1000, 1, true)], &vec![]);
    assert_eq!(with_unit.new_target, Some(11));
    let only_buildings = auto_attack_logic(held, false, spot(0, 0), 5000, 0, &players, &vec![], &vec![cand(41, 500, 1, false)]);
    assert_eq!(only_buildings.new_target, None);
}

#[test]
fn hidden_targets_are_dropped() {
    let players = teams();
    let mut gone_in_fog = cand(30, 4000, 1, true);
    gone_in_fog.hidden = true;
    let r = auto_attack_logic(HeldTarget::Seen(gone_in_fog), false, spot(0, 0), 5000, 0, &players, &vec![gone_in_fog], &vec![]);
    assert_eq!(r, AutoAttack { drop_target: true, new_target: None });
    let dead = auto_attack_logic(HeldTarget::Gone(30), false, spot(0, 0), 5000, 0, &players, &vec![cand(11, 1000, 1, true)], &vec![]);
    assert_eq!(dead.new_target, Some(11));
}

#[test]
fn armed_allies_who_see_a_fight_join_it() {
    let players = teams();
    let idle = vec![
        IdleUnit { entity: 1, spot: spot(3000, 0), owner: 2, vision_range: 5000, armed: true },
        IdleUnit { entity: 2, spot: spot(3000, 0), owner: 2, vision_range: 5000, armed: false },
        IdleUnit { entity: 3, spot: spot(3000, 0), owner: 1, vision_range: 5000, armed: true },
        IdleUnit { entity: 4, spot: spot(9000, 0), owner: 0, vision_range: 5000, armed: true },
        IdleUnit { entity: 5, spot: spot(0, 5000), owner: 0, vision_range: 5000, armed: true },
    ];
    assert_eq!(join_fight_logic(0, spot(0, 0), &players, &idle), vec![1, 5]);
}

#[test]
fn weapons_fire_when_ready_and_in_range() {
    let grid = Grid::new(32, 32, 32, 32);
    let me = spot(5000, 5000);
    let cooling = combat_step(500, 1000, 100, me, 3000, Some(spot(6000, 5000)), true, None, &grid);
    assert_eq!(cooling.timer_ms, 400);
    assert!(!cooling.fire && cooling.clear_path);
    let ready = combat_step(50, 1000, 100, me, 3000, Some(spot(6000, 5000)), true, Some(Pursuit { last_target: Pos { x: 0, z: 0 }, retry_ms: 0 }), &grid);
    assert!(ready.fire);
    assert_eq!(ready.timer_ms, 1000);
    assert_eq!(ready.pursuit, None);
    let lost = combat_step(50, 1000, 100, me, 3000, None, true, None, &grid);
    assert!(lost.drop_target && !lost.fire);
}

#[test]
fn pursuit_searches_are_paced() {
    let grid = Grid::new(32, 32, 32, 32);
    let me = spot(2000, 2000);
    let target = spot(20000, 20000);
    let first = combat_step(0, 1000, 16, me, 3000, Some(target), false, None, &grid);
    assert!(first.searched);
    assert!(first.new_path.is_some());
    assert!(!first.drop_target);
    assert_eq!(first.pursuit, Some(Pursuit { last_target: target.pos, retry_ms: REPATH_COOLDOWN_MS }));
    let waiting = combat_step(0, 1000, 16, me, 3000, Some(target), false, first.pursuit, &grid);
    assert!(!waiting.searched);
    assert_eq!(waiting.pursuit, Some(Pursuit { last_target: target.pos, retry_ms: REPATH_COOLDOWN_MS - 16 }));
    let moving_on = combat_step(0, 1000, 16, me, 3000, Some(target), true, Some(Pursuit { last_target: target.pos, retry_ms: 0 }), &grid);
    assert!(!moving_on.searched);
    let moved = combat_step(0, 1000, 16, me, 3000, Some(spot(24000, 20000)), true, Some(Pursuit { last_target: target.pos, retry_ms: 0 }), &grid);
    assert!(moved.searched);
}

#[test]
fn unreachable_targets_are_given_up() {
    let mut grid = Grid::new(32, 32, 32, 32);
    for x in 0..32 {
        grid.set_blocked(x, 10, true);
    }
    let r = combat_step(0, 1000, 16, spot(2000, 2000), 3000, Some(spot(2000, 20000)), false, None, &grid);
    assert!(r.searched);
    assert!(r.new_path.is_none());
    assert!(r.drop_target);
}

#[test]
fn scouts_pick_a_new_destination_on_arrival() {
    for _ in 0..20 {
        let t = scout_step(spot(0, 0), None).unwrap();
        assert!(SCOUT_AREA_MIN <= t.pos.x && t.pos.x < SCOUT_AREA_MAX);
        assert!(SCOUT_AREA_MIN <= t.pos.z && t.pos.z < SCOUT_AREA_MAX);
        assert_eq!(t.height, 0);
    }
    assert!(scout_step(spot(50000, 50000), Some(spot(52000, 50000))).is_some());
    assert!(scout_step(spot(50000, 50000), Some(spot(80000, 50000))).is_none());
}

#[test]
fn destroyed_buildings_free_their_ground() {
    let defs = Definitions {
        buildings: vec![BuildingDefinition {
            id: "plant".to_string(),
            name: "Plant".to_string(),
            cost: 300,
            size: (2, 2),
            power_produced: 100,
            power_consumed: 0,
            requires: None,
            role: BuildingRole::Power,
            armor: None,
            influence_radius: 5,
            build_time_ms: 100,
        }],
        units: vec![],
        factions: vec![],
    };
    let mut grid = Grid::new(32, 32, 32, 32);
    let mut power = PowerSystem::new();
    let mut q = BuildingQueue::new();
    let at = Pos { x: 8500, z: 8500 };
    handle_place_building_command(&mut grid, &mut q, &mut power, &defs, &vec![], &vec![], 0, 0, "plant", at);
    assert!(grid.is_blocked(8, 8));
    assert!(!remove_destroyed_building(&mut grid, &mut power, &defs, "ruin", at, 0, 0));
    assert!(grid.is_blocked(8, 8));
    assert!(remove_destroyed_building(&mut grid, &mut power, &defs, "plant", at, 0, 0));
    assert!(!grid.is_blocked(8, 8) && !grid.is_blocked(9, 9));
    assert_eq!(power.produced, 0);
}
