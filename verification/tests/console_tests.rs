use rts_core::console::{
    execute_command, is_blank, parse_i32, parse_spawn_count, parse_spawn_options, parse_usize, spawn_formation_positions,
    is_float_text, split_coordinates, split_words, ConsoleData, ConsoleReply,
};
use rts_core::defs::{Definitions, UnitDefinition, UnitRole};
use rts_core::fog::{FogOfWar, VisibilityState};
use rts_core::geometry::Pos;
use rts_core::player::{Player, PlayerController, Players};

fn opts(words: &[&str]) -> Vec<String> {
    words.iter().map(|w| w.to_string()).collect()
}

fn point(x: &str, y: &str) -> Option<(String, String)> {
    Some((x.to_string(), y.to_string()))
}

#[test]
fn parses_spawn_command_variants() {
    assert_eq!(parse_spawn_options(&opts(&[])), Ok((None, 1)));
    assert_eq!(parse_spawn_options(&opts(&["4"])), Ok((None, 4)));
    let one = parse_spawn_options(&opts(&["12.5,-8"])).unwrap();
    assert_eq!(one, (point("12.5", "-8"), 1));
    let (x, y) = one.0.unwrap();
    assert_eq!(x.parse::<f32>().unwrap(), 12.5);
    assert_eq!(y.parse::<f32>().unwrap(), -8.0);
    assert_eq!(parse_spawn_options(&opts(&["12.5,-8", "4"])), Ok((point("12.5", "-8"), 4)));
}

#[test]
fn rejects_invalid_spawn_options() {
    assert!(parse_spawn_options(&opts(&["0"])).is_err());
    assert!(parse_spawn_options(&opts(&["12", "8"])).is_err());
    assert!(parse_spawn_options(&opts(&["12,8", "many"])).is_err());
}

#[test]
fn multiple_spawns_are_centered_and_separated() {
    let center = Pos { x: 10000, z: 20000 };
    let positions = spawn_formation_positions(center, 4);

    assert_eq!(positions.len(), 4);
    let sum_x: i64 = positions.iter().map(|p| p.x as i64).sum();
    let sum_z: i64 = positions.iter().map(|p| p.z as i64).sum();
    assert_eq!(sum_x, 4 * 10000);
    assert_eq!(sum_z, 4 * 20000);
    for (index, position) in positions.iter().enumerate() {
        for other in positions.iter().skip(index + 1) {
            assert!(position.dist_sq(other) >= 1500 * 1500);
        }
    }
}

#[test]
fn spawn_grid_rows_and_columns() {
    let positions = spawn_formation_positions(Pos { x: 0, z: 0 }, 3);
    assert_eq!(
        positions,
        vec![Pos { x: -750, z: -750 }, Pos { x: 750, z: -750 }, Pos { x: 0, z: 750 }]
    );
    let single = spawn_formation_positions(Pos { x: 5000, z: 6000 }, 1);
    assert_eq!(single, vec![Pos { x: 5000, z: 6000 }]);
    let nine = spawn_formation_positions(Pos { x: 0, z: 0 }, 9);
    assert_eq!(nine[0], Pos { x: -1500, z: -1500 });
    assert_eq!(nine[4], Pos { x: 0, z: 0 });
    assert_eq!(nine[8], Pos { x: 1500, z: 1500 });
}

#[test]
fn spawn_options_edge_cases() {
    assert_eq!(parse_spawn_options(&opts(&["1,2,3"])), Err(()));
    assert_eq!(parse_spawn_options(&opts(&["1,2", "3", "4"])), Err(()));
    assert_eq!(parse_spawn_options(&opts(&["+7"])), Ok((None, 7)));
    assert_eq!(parse_spawn_count("0"), Err(()));
    assert_eq!(parse_spawn_count("12"), Ok(12));
    assert_eq!(parse_spawn_count("-1"), Err(()));
    assert_eq!(split_coordinates("3,4"), Ok(("3".to_string(), "4".to_string())));
    assert_eq!(split_coordinates("34"), Err(()));
    assert_eq!(split_coordinates(",4"), Err(()));
    assert_eq!(split_coordinates("a,4"), Err(()));
    assert_eq!(split_coordinates("1e3,-.5"), Ok(("1e3".to_string(), "-.5".to_string())));
    assert_eq!(parse_spawn_options(&opts(&["x,y"])), Err(()));
    assert_eq!(parse_spawn_options(&opts(&["1,", "2"])), Err(()));
}

#[test]
fn numbers_parse_like_std() {
    assert_eq!(parse_i32("-42"), Some(-42));
    assert_eq!(parse_i32("+42"), Some(42));
    assert_eq!(parse_i32("2147483647"), Some(i32::MAX));
    assert_eq!(parse_i32("-2147483648"), Some(i32::MIN));
    assert_eq!(parse_i32("2147483648"), None);
    assert_eq!(parse_i32(""), None);
    assert_eq!(parse_i32("-"), None);
    assert_eq!(parse_i32("4x"), None);
    assert_eq!(parse_usize("007"), Some(7));
    assert_eq!(parse_usize("-7"), None);
    for s in ["0", "17", "-17", "+3", "99999999999", "a", ""] {
        assert_eq!(parse_i32(s), s.parse::<i32>().ok(), "{}", s);
    }
}

#[test]
fn words_split_on_whitespace() {
    assert_eq!(split_words("  spawn  tank\t3 "), vec!["spawn", "tank", "3"]);
    assert!(split_words("   ").is_empty());
    assert!(is_blank(" \t "));
    assert!(!is_blank(" a "));
}

fn setup() -> (ConsoleData, Players, Definitions, FogOfWar, bool) {
    let mut players = Players::new();
    players.players.push(Player {
        id: 0,
        team_id: 0,
        faction: "allies".to_string(),
        controller: PlayerController::LocalHuman,
        credits: 1000,
    });
    let definitions = Definitions {
        units: vec![UnitDefinition {
            id: "rifleman".to_string(),
            name: "Rifleman".to_string(),
            cost: 100,
            produced_by: vec!["barracks".to_string()],
            requires: None,
            role: UnitRole::Infantry,
            armor: None,
            build_time_ms: 1000,
        }],
        buildings: vec![],
        factions: vec![],
    };
    (ConsoleData::new(), players, definitions, FogOfWar::new(8, 8, 8, 8), false)
}

#[test]
fn console_commands_change_the_game() {
    let (mut console, mut players, defs, mut fog, mut grid) = setup();
    assert_eq!(execute_command("credits 500", &mut console, &mut players, 0, &defs, &mut fog, &mut grid),
        ConsoleReply::CreditsChanged { amount: 500, total: 1500 });
    assert_eq!(players.players[0].credits, 1500);
    assert_eq!(execute_command("credits -5000", &mut console, &mut players, 0, &defs, &mut fog, &mut grid),
        ConsoleReply::CreditsChanged { amount: -5000, total: 0 });
    assert_eq!(execute_command("credits lots", &mut console, &mut players, 0, &defs, &mut fog, &mut grid),
        ConsoleReply::InvalidAmount);
    assert_eq!(execute_command("credits", &mut console, &mut players, 0, &defs, &mut fog, &mut grid),
        ConsoleReply::CreditsUsage);
    assert_eq!(execute_command("credits 5", &mut console, &mut players, 3, &defs, &mut fog, &mut grid),
        ConsoleReply::LocalPlayerMissing);
    assert_eq!(execute_command("ping", &mut console, &mut players, 0, &defs, &mut fog, &mut grid), ConsoleReply::Pong);
    assert_eq!(execute_command("grid", &mut console, &mut players, 0, &defs, &mut fog, &mut grid), ConsoleReply::GridVisible(true));
    assert!(grid);
    assert_eq!(execute_command("fog", &mut console, &mut players, 0, &defs, &mut fog, &mut grid), ConsoleReply::FogDisabled(true));
    assert!(fog.is_disabled());
    assert_eq!(execute_command("explore", &mut console, &mut players, 0, &defs, &mut fog, &mut grid), ConsoleReply::Explored);
    assert_eq!(fog.get_state(3, 3), VisibilityState::Explored);
    assert_eq!(execute_command("   ", &mut console, &mut players, 0, &defs, &mut fog, &mut grid), ConsoleReply::Nothing);
    assert_eq!(execute_command("dance", &mut console, &mut players, 0, &defs, &mut fog, &mut grid),
        ConsoleReply::Unknown("dance".to_string()));
}

#[test]
fn console_spawn_replies() {
    let (mut console, mut players, defs, mut fog, mut grid) = setup();
    assert_eq!(execute_command("spawn rifleman 2,3 4", &mut console, &mut players, 0, &defs, &mut fog, &mut grid),
        ConsoleReply::Spawn { unit_id: "rifleman".to_string(), point: point("2", "3"), count: 4 });
    assert_eq!(execute_command("spawn tank", &mut console, &mut players, 0, &defs, &mut fog, &mut grid),
        ConsoleReply::UnknownUnit("tank".to_string()));
    assert_eq!(execute_command("spawn", &mut console, &mut players, 0, &defs, &mut fog, &mut grid), ConsoleReply::SpawnUsage);
    assert_eq!(execute_command("spawn rifleman 0", &mut console, &mut players, 0, &defs, &mut fog, &mut grid), ConsoleReply::SpawnUsage);
}

#[test]
fn console_history_walks_back_and_forth() {
    let mut console = ConsoleData::new();
    console.type_text("first");
    assert_eq!(console.submit(), Some("first".to_string()));
    console.type_text("second");
    assert_eq!(console.submit(), Some("second".to_string()));
    console.history_up();
    assert_eq!(console.input_buffer, "second");
    console.history_up();
    assert_eq!(console.input_buffer, "first");
    console.history_up();
    assert_eq!(console.input_buffer, "first");
    console.history_down();
    assert_eq!(console.input_buffer, "second");
    console.history_down();
    assert_eq!(console.input_buffer, "");
    console.type_text("ab");
    console.backspace();
    assert_eq!(console.input_buffer, "a");
    console.clear_log();
    assert!(console.log.is_empty());
}

#[test]
fn console_log_keeps_the_last_fifty_lines() {
    let mut console = ConsoleData::new();
    for i in 0..60 {
        console.print(&format!("line {}", i));
    }
    assert_eq!(console.log.len(), 50);
    assert_eq!(console.log[0], "line 10");
    assert_eq!(console.log[49], "line 59");
}

#[test]
fn float_text_matches_what_f32_parses() {
    let samples = [
        "0", "12.5", "-8", "+3", "1e5", "1E-5", "2.5e+3", ".5", "5.", "-.5", "inf", "-Infinity", "NaN", "+inf",
        "", ".", "-", "+", "e5", "1e", "1e+", "1.2.3", "a", "1,2", " 1", "1 ", "infinit", "nana", "0x10", "1_000",
        "--1", "1e5.0", "..5",
    ];
    for s in samples {
        assert_eq!(is_float_text(s), s.parse::<f32>().is_ok(), "{}", s);
    }
}

#[test]
fn console_prints_what_each_reply_stands_for() {
    let (mut console, mut players, defs, mut fog, mut grid) = setup();
    execute_command("credits 500", &mut console, &mut players, 0, &defs, &mut fog, &mut grid);
    assert_eq!(console.log.last().unwrap(), "Added 500 credits. New total: 1500");
    execute_command("CREDITS -5000", &mut console, &mut players, 0, &defs, &mut fog, &mut grid);
    assert_eq!(console.log.last().unwrap(), "Added -5000 credits. New total: 0");
    execute_command("credits", &mut console, &mut players, 0, &defs, &mut fog, &mut grid);
    assert_eq!(console.log.last().unwrap(), "Usage: credits <amount>");
    execute_command("credits x", &mut console, &mut players, 0, &defs, &mut fog, &mut grid);
    assert_eq!(console.log.last().unwrap(), "Invalid amount.");
    execute_command("ping", &mut console, &mut players, 0, &defs, &mut fog, &mut grid);
    assert_eq!(console.log.last().unwrap(), "pong");
    execute_command("fog", &mut console, &mut players, 0, &defs, &mut fog, &mut grid);
    assert_eq!(console.log.last().unwrap(), "Fog of War disabled: true");
    execute_command("grid", &mut console, &mut players, 0, &defs, &mut fog, &mut grid);
    assert_eq!(console.log.last().unwrap(), "Map grid visible: true");
    execute_command("explore", &mut console, &mut players, 0, &defs, &mut fog, &mut grid);
    assert_eq!(console.log.last().unwrap(), "Map fully explored.");
    execute_command("dance", &mut console, &mut players, 0, &defs, &mut fog, &mut grid);
    assert_eq!(console.log.last().unwrap(), "Unknown command: dance");
    execute_command("spawn dragon", &mut console, &mut players, 0, &defs, &mut fog, &mut grid);
    assert_eq!(console.log.last().unwrap(), "Unknown unit id: dragon");
    let before = console.log.len();
    execute_command("help", &mut console, &mut players, 0, &defs, &mut fog, &mut grid);
    assert_eq!(console.log.len(), before + 11);
    assert_eq!(console.log[before], "Available commands:");
    assert_eq!(console.log.last().unwrap(), "  grid - Toggle map grid");
    execute_command("spawn", &mut console, &mut players, 0, &defs, &mut fog, &mut grid);
    assert_eq!(console.log.last().unwrap(), "  spawn <unit_id> <x,y> [count]");
    execute_command("kill", &mut console, &mut players, 0, &defs, &mut fog, &mut grid);
    assert_eq!(console.log.last().unwrap(), "  spawn <unit_id> <x,y> [count]");
    execute_command("clear", &mut console, &mut players, 0, &defs, &mut fog, &mut grid);
    assert!(console.log.is_empty());
}
