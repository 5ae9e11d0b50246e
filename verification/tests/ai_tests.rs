use rts_core::ai::{building_target_priority, next_building_priority, EnemyIntel, INTEL_TTL_TICKS, UNIT_TARGET_PRIORITY};
use rts_core::army::{
    army_tick, engagements, nearest_enemy, sort_by_distance, split_garrison, ArmyState, ArmyView, CombatUnit, EnemyTarget,
    GARRISON_SIZE,
};
use rts_core::defs::{BuildingDefinition, BuildingRole, Definitions, FactionDefinition, UnitRole};
use rts_core::geometry::Pos;
use rts_core::player::{Player, PlayerController};

fn building(id: &str, cost: u32, requires: Option<Vec<&str>>, role: BuildingRole) -> BuildingDefinition {
    BuildingDefinition {
        id: id.to_string(),
        name: id.to_string(),
        cost,
        size: (2, 2),
        power_produced: 0,
        power_consumed: 0,
        requires: requires.map(|r| r.iter().map(|s| s.to_string()).collect()),
        role,
        armor: None,
        influence_radius: 5,
        build_time_ms: 1000,
    }
}

fn definitions() -> Definitions {
    Definitions {
        buildings: vec![
            building("yard", 3000, None, BuildingRole::ConstructionYard),
            building("power", 300, None, BuildingRole::Power),
            building("refinery", 2000, Some(vec!["power"]), BuildingRole::Refinery),
            building("barracks", 500, Some(vec!["power"]), BuildingRole::Barracks),
            building("factory", 2000, Some(vec!["refinery"]), BuildingRole::WarFactory),
        ],
        units: vec![],
        factions: vec![FactionDefinition {
            id: "soviet".to_string(),
            name: "Soviet".to_string(),
            buildings: ["yard", "power", "refinery", "barracks", "factory"].iter().map(|s| s.to_string()).collect(),
            units: vec![],
        }],
    }
}

fn ai_player(credits: u32) -> Player {
    Player { id: 1, team_id: 1, faction: "soviet".to_string(), controller: PlayerController::AI, credits }
}

fn owned(v: &[&str]) -> Vec<String> {
    v.iter().map(|s| s.to_string()).collect()
}

#[test]
fn enemy_sightings_fade_after_their_time() {
    let mut intel = EnemyIntel::new();
    assert!(!intel.has_infantry && !intel.has_vehicle && !intel.has_air);
    intel.observe(UnitRole::Infantry);
    intel.observe(UnitRole::Tank);
    assert!(intel.has_infantry && intel.has_vehicle && !intel.has_air);
    for _ in 0..INTEL_TTL_TICKS {
        intel.decay();
    }
    assert!(intel.has_infantry && intel.has_vehicle);
    intel.observe(UnitRole::Tank);
    intel.decay();
    assert!(!intel.has_infantry);
    assert!(intel.has_vehicle);
    intel.see_air();
    assert!(intel.has_air);
}

#[test]
fn target_priorities_favour_the_yard() {
    assert_eq!(building_target_priority(BuildingRole::ConstructionYard), 100);
    assert_eq!(building_target_priority(BuildingRole::Turret), 75);
    assert_eq!(building_target_priority(BuildingRole::Defense), 75);
    assert_eq!(building_target_priority(BuildingRole::Power), 50);
    assert_eq!(UNIT_TARGET_PRIORITY, 10);
}

#[test]
fn ai_builds_power_first_then_what_it_unlocks() {
    let defs = definitions();
    let intel = EnemyIntel::new();
    assert_eq!(next_building_priority(1, &owned(&["yard"]), &ai_player(5000), &defs, &intel, true), Some("power".to_string()));
    assert_eq!(
        next_building_priority(1, &owned(&["yard", "power"]), &ai_player(5000), &defs, &intel, true),
        Some("barracks".to_string())
    );
    assert_eq!(
        next_building_priority(1, &owned(&["yard", "power", "barracks"]), &ai_player(5000), &defs, &intel, true),
        Some("refinery".to_string())
    );
    assert_eq!(
        next_building_priority(1, &owned(&["yard", "power", "barracks"]), &ai_player(5000), &defs, &intel, false),
        Some("power".to_string())
    );
    assert_eq!(
        next_building_priority(1, &owned(&["yard", "power", "barracks", "refinery"]), &ai_player(5000), &defs, &intel, true),
        Some("factory".to_string())
    );
    let mut unknown = ai_player(5000);
    unknown.faction = "aliens".to_string();
    assert_eq!(next_building_priority(1, &owned(&[]), &unknown, &defs, &intel, true), None);
    let all = owned(&["yard", "power", "power", "power", "refinery", "refinery", "refinery", "refinery", "barracks", "factory", "factory"]);
    assert_eq!(next_building_priority(1, &all, &ai_player(5000), &defs, &intel, true), None);
}

#[test]
fn maxed_out_base_builds_nothing_even_against_infantry() {
    let defs = definitions();
    let mut intel = EnemyIntel::new();
    intel.see_infantry();
    let have = owned(&["yard", "power", "power", "power", "barracks", "refinery", "refinery", "refinery", "refinery", "factory", "factory"]);
    assert_eq!(next_building_priority(1, &have, &ai_player(5000), &defs, &intel, true), None);
}

fn unit(entity: u64, x: i32, z: i32) -> CombatUnit {
    CombatUnit { entity, pos: Pos { x, z }, target: None, moving: false }
}

fn enemy(entity: u64, x: i32, z: i32) -> EnemyTarget {
    EnemyTarget { entity, pos: Pos { x, z }, priority: 10 }
}

fn view(enemies: Vec<EnemyTarget>, strength: usize, best: Option<u64>) -> ArmyView {
    ArmyView {
        enemies,
        enemy_combat_strength: strength,
        resources_available: true,
        home: Pos { x: 50000, z: 50000 },
        best_target: best,
        regrouped: false,
    }
}

#[test]
fn nearest_enemy_prefers_the_first_of_equals() {
    let enemies = vec![enemy(1, 3000, 0), enemy(2, 0, 3000), enemy(3, 1000, 0)];
    assert_eq!(nearest_enemy(Pos { x: 0, z: 0 }, &enemies, 5000), Some(3));
    assert_eq!(nearest_enemy(Pos { x: 0, z: 0 }, &enemies[..2].to_vec(), 5000), Some(1));
    assert_eq!(nearest_enemy(Pos { x: 0, z: 0 }, &enemies, 1000), None);
}

#[test]
fn garrison_keeps_the_units_closest_to_home() {
    let home = Pos { x: 0, z: 0 };
    let units = vec![unit(1, 9000, 0), unit(2, 1000, 0), unit(3, 5000, 0), unit(4, 1000, 0)];
    let sorted = sort_by_distance(&units, home);
    assert_eq!(sorted.iter().map(|u| u.entity).collect::<Vec<_>>(), vec![2, 4, 3, 1]);
    let (garrison, field) = split_garrison(&units, home);
    assert_eq!(garrison.len(), GARRISON_SIZE);
    assert_eq!(garrison.iter().map(|u| u.entity).collect::<Vec<_>>(), vec![2, 4]);
    assert_eq!(field.iter().map(|u| u.entity).collect::<Vec<_>>(), vec![3, 1]);
}

#[test]
fn idle_units_engage_enemies_in_range() {
    let mut busy = unit(2, 0, 0);
    busy.target = Some(9);
    let units = vec![unit(1, 0, 0), busy, unit(3, 100000, 0)];
    let enemies = vec![enemy(7, 2000, 0)];
    assert_eq!(engagements(&units, &enemies, 16000), vec![(1, 7)]);
}

#[test]
fn massed_army_strikes_when_strong_enough() {
    let field: Vec<CombatUnit> = (0..4).map(|i| unit(10 + i, 40000, 40000)).collect();
    let v = view(vec![enemy(99, 0, 0)], 3, Some(99));
    let orders = army_tick(ArmyState::Massing { patience: 0 }, &vec![], &field, &v);
    assert_eq!(orders.next, ArmyState::Attacking { target: 99, peak_size: 4 });
    assert_eq!(orders.strike, Some((vec![10, 11, 12, 13], 99)));
    assert_eq!(orders.movement, None);
}

#[test]
fn small_army_masses_at_the_staging_point() {
    let field = vec![unit(1, 0, 0), unit(2, 40000, 40000)];
    let v = view(vec![enemy(99, 200000, 200000)], 10, Some(99));
    let orders = army_tick(ArmyState::Massing { patience: 3 }, &vec![], &field, &v);
    assert_eq!(orders.next, ArmyState::Massing { patience: 4 });
    assert_eq!(orders.strike, None);
    assert_eq!(orders.movement, Some((vec![1], Pos { x: 40000, z: 40000 })));
}

#[test]
fn patience_lets_a_small_army_attack() {
    let field = vec![unit(1, 40000, 40000), unit(2, 40000, 40000)];
    let v = view(vec![enemy(99, 200000, 200000)], 10, Some(99));
    let orders = army_tick(ArmyState::Massing { patience: 39 }, &vec![], &field, &v);
    assert_eq!(orders.next, ArmyState::Attacking { target: 99, peak_size: 2 });
}

#[test]
fn heavy_losses_send_the_army_home() {
    let field = vec![unit(1, 100000, 100000)];
    let v = view(vec![enemy(99, 200000, 200000)], 10, Some(99));
    let orders = army_tick(ArmyState::Attacking { target: 99, peak_size: 4 }, &vec![], &field, &v);
    assert_eq!(orders.next, ArmyState::Retreating { rally_point: Pos { x: 50000, z: 50000 } });
    assert_eq!(orders.movement, Some((vec![1], Pos { x: 50000, z: 50000 })));
}

#[test]
fn retreat_ends_once_regrouped() {
    let field = vec![unit(1, 50000, 50000)];
    let mut v = view(vec![], 0, None);
    v.regrouped = true;
    let orders = army_tick(ArmyState::Retreating { rally_point: Pos { x: 50000, z: 50000 } }, &vec![], &field, &v);
    assert_eq!(orders.next, ArmyState::Massing { patience: 0 });
}

#[test]
fn attack_switches_to_the_best_target_when_its_own_is_gone() {
    let field = vec![unit(1, 0, 0), unit(2, 0, 0), unit(3, 0, 0), unit(4, 0, 0)];
    let v = view(vec![enemy(5, 100000, 0)], 4, Some(5));
    let orders = army_tick(ArmyState::Attacking { target: 99, peak_size: 4 }, &vec![], &field, &v);
    assert_eq!(orders.next, ArmyState::Attacking { target: 5, peak_size: 4 });
    assert_eq!(orders.strike, Some((vec![1, 2, 3, 4], 5)));
}

#[test]
fn no_units_means_no_orders() {
    let v = view(vec![enemy(5, 0, 0)], 4, Some(5));
    let orders = army_tick(ArmyState::Massing { patience: 7 }, &vec![], &vec![], &v);
    assert_eq!(orders.next, ArmyState::Massing { patience: 7 });
    assert!(orders.engagements.is_empty() && orders.strike.is_none() && orders.movement.is_none());
}

#[test]
fn garrison_defends_home() {
    let garrison = vec![unit(1, 50000, 50000)];
    let v = view(vec![enemy(8, 52000, 50000)], 1, Some(8));
    let orders = army_tick(ArmyState::Massing { patience: 0 }, &garrison, &vec![], &v);
    assert_eq!(orders.engagements, vec![(1, 8)]);
}

#[test]
fn massing_army_attacks_within_its_patience() {
    let field = vec![unit(1, 40000, 40000), unit(2, 41000, 40000)];
    let v = view(vec![enemy(99, 90000, 90000)], 10, Some(99));
    let mut state = ArmyState::Massing { patience: 0 };
    let mut ticks = 0;
    while let ArmyState::Massing { .. } = state {
        state = army_tick(state, &vec![], &field, &v).next;
        ticks += 1;
        assert!(ticks <= 40);
    }
    assert_eq!(ticks, 40);
    assert_eq!(state, ArmyState::Attacking { target: 99, peak_size: 2 });
}

#[test]
fn decay_ages_each_kind_on_its_own() {
    let mut intel = EnemyIntel::new();
    intel.see_infantry();
    for _ in 0..INTEL_TTL_TICKS {
        intel.decay();
    }
    intel.see_vehicle();
    intel.decay();
    assert!(!intel.has_infantry);
    assert!(intel.has_vehicle);
    assert!(!intel.has_air);
}
