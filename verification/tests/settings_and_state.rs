use tf2_demo_player::backstab::SpyBackstabTracker;
use tf2_demo_player::config::{
    coerced_kind, effective_config, normalize_config, read_kind, AlgorithmEntries, DeclaredParam,
    ParameterError, ParameterKind,
};
use tf2_demo_player::demo::{bookmark_write, replay_record_time, sort_events_by_tick, tick_count, BookmarkWrite, Event};
use tf2_demo_player::double_tap::{DoubleTap, DoubleTapParams};
use tf2_demo_player::invalid_equip::PlayerView;
use tf2_demo_player::player::{
    format_class_name, handle_to_entid, player_id, resolve_owner, resolve_player_sid, BuildingClass,
    PlayerClass, PlayerDirectory, PlayerState,
};
use tf2_demo_player::profiles::{
    app_file, join_path, profile_file_name, profile_names, profile_path, profiles_dir, sanitize_name,
    strip_fences, trim_whitespace, ProfileNameError,
};

#[test]
fn numbers_read_back_regardless_of_json_kind() {
    assert_eq!(read_kind(ParameterKind::Int, ParameterKind::Float), Ok(ParameterKind::Float));
    assert_eq!(read_kind(ParameterKind::Float, ParameterKind::Float), Ok(ParameterKind::Float));
    assert_eq!(read_kind(ParameterKind::Float, ParameterKind::Int), Ok(ParameterKind::Int));
    assert_eq!(read_kind(ParameterKind::Int, ParameterKind::Int), Ok(ParameterKind::Int));
    assert_eq!(read_kind(ParameterKind::Bool, ParameterKind::Float), Err(ParameterError::TypeMismatch));
    assert_eq!(read_kind(ParameterKind::Bool, ParameterKind::Int), Err(ParameterError::TypeMismatch));
}

#[test]
fn coercion_follows_the_template_not_the_value() {
    assert_eq!(coerced_kind(ParameterKind::Int, ParameterKind::Float), Some(ParameterKind::Float));
    assert_eq!(coerced_kind(ParameterKind::Float, ParameterKind::Int), Some(ParameterKind::Int));
    assert_eq!(coerced_kind(ParameterKind::Bool, ParameterKind::Bool), Some(ParameterKind::Bool));
    assert_eq!(coerced_kind(ParameterKind::Bool, ParameterKind::Float), None);
    assert_eq!(coerced_kind(ParameterKind::Float, ParameterKind::Bool), None);
}

fn declared(algorithm: &str, name: &str, kind: ParameterKind) -> DeclaredParam {
    DeclaredParam { algorithm: algorithm.to_string(), name: name.to_string(), kind }
}

fn entries(algorithm: &str, params: &[(&str, ParameterKind)]) -> AlgorithmEntries {
    AlgorithmEntries {
        algorithm: algorithm.to_string(),
        params: params.iter().map(|(n, k)| (n.to_string(), *k)).collect(),
    }
}

fn defaults() -> Vec<DeclaredParam> {
    vec![
        declared("firewindow", "tolerance", ParameterKind::Int),
        declared("fidoo/nospread", "min_seed_correlation", ParameterKind::Float),
        declared("fidoo/nospread", "enabled", ParameterKind::Bool),
    ]
}

#[test]
fn normalize_reports_what_it_dropped() {
    let config = vec![
        entries("nope/not_an_algorithm", &[("x", ParameterKind::Int)]),
        entries(
            "fidoo/nospread",
            &[("min_seed_correlation", ParameterKind::Float), ("not_a_parameter", ParameterKind::Int)],
        ),
    ];
    let (normalized, warnings) = normalize_config(&defaults(), &config);
    assert_eq!(normalized.len(), 1);
    assert_eq!(normalized[0].0, 1);
    assert_eq!(normalized[0].1, vec![(0, ParameterKind::Float)]);
    assert_eq!(warnings.len(), 2, "warnings were {warnings:?}");
    assert!(warnings.iter().any(|w| w.contains("not_an_algorithm")));
    assert!(warnings.iter().any(|w| w.contains("not_a_parameter")));
    assert_eq!(warnings[0], "unknown algorithm \"nope/not_an_algorithm\"");
    assert_eq!(warnings[1], "unknown parameter \"fidoo/nospread/not_a_parameter\"");
}

#[test]
fn normalize_reshapes_numbers_and_refuses_mixed_kinds() {
    let config = vec![entries(
        "fidoo/nospread",
        &[("min_seed_correlation", ParameterKind::Int), ("enabled", ParameterKind::Float)],
    )];
    let (normalized, warnings) = normalize_config(&defaults(), &config);
    assert_eq!(normalized, vec![(0, vec![(0, ParameterKind::Float)])]);
    assert_eq!(warnings, vec!["\"fidoo/nospread/enabled\" has the wrong type for this parameter".to_string()]);
}

#[test]
fn effective_config_lays_overrides_on_top() {
    let overrides = vec![entries("fidoo/nospread", &[("min_seed_correlation", ParameterKind::Int)])];
    let effective = effective_config(&defaults(), &overrides);
    assert_eq!(effective.len(), 3);
    assert_eq!(effective[0], None);
    assert_eq!(effective[1], Some((0, 0, ParameterKind::Float)));
    assert_eq!(effective[2], None);
    assert!(effective_config(&defaults(), &vec![]).iter().all(|e| e.is_none()));
}

#[test]
fn backstab_tracker_keeps_a_short_history() {
    let mut t = SpyBackstabTracker::new();
    t.record_attack(10);
    t.record_attack(10);
    assert_eq!(t.recent_attacks, vec![10]);
    t.record_attack(20);
    t.record_attack(50);
    assert_eq!(t.recent_attacks, vec![20, 50]);
    t.update_ready_state(true, 60);
    assert!(t.ready_to_backstab);
    assert_eq!(t.ready_start_tick, Some(60));
    t.update_ready_state(false, 64);
    assert_eq!(t.last_closed_window, Some((60, 64)));
    assert_eq!(t.ready_start_tick, None);
    t.reset();
    assert!(t.recent_attacks.is_empty() && t.last_closed_window.is_none());
}

#[test]
fn replay_times_and_tick_counts() {
    assert_eq!(replay_record_time(2024, 3, 15, 13, 45, 30), (7758, 62893));
    assert_eq!(replay_record_time(2009, 1, 1, 0, 0, 0), (0, 0));
    assert_eq!(tick_count(500, Some(1000)), 1000);
    assert_eq!(tick_count(1500, Some(1000)), 1500);
    assert_eq!(tick_count(42, None), 42);
}

#[test]
fn players_and_paths() {
    assert_eq!(PlayerState::new(1), PlayerState::Dying);
    assert_eq!(PlayerState::new(3), PlayerState::Respawnable);
    assert_eq!(PlayerState::new(7), PlayerState::Alive);
    assert_eq!(format_class_name(PlayerClass::Demoman), "Demoman");
    assert_eq!(format_class_name(PlayerClass::Other), "Unknown");
    assert_eq!(handle_to_entid(0x12345), 0x345);
    assert_ne!(BuildingClass::Sentry, BuildingClass::Dispenser);
    assert_eq!(join_path("/opt/app", "cdconfigs"), "/opt/app/cdconfigs");
    assert_eq!(join_path("/opt/app/", "x"), "/opt/app/x");
    assert_eq!(join_path("", "x"), "x");
    assert_eq!(join_path("/opt/app", "/etc/x"), "/etc/x");
    assert_eq!(app_file("settings.json", true, "/opt/app"), "settings.json");
    assert_eq!(app_file("settings.json", false, "/opt/app"), "/opt/app/settings.json");
    assert_eq!(profiles_dir(false, "/opt/app"), "/opt/app/cdconfigs");
    assert_eq!(profile_path("/opt/app/cdconfigs", "kal"), "/opt/app/cdconfigs/kal.cfg");
}

#[test]
fn profile_listing_keeps_cfg_stems_sorted() {
    let files: Vec<String> = ["kal.cfg", "readme.txt", "default.cfg", ".cfg", "a.b.cfg", "idke.CFG", "midnight.cfg"]
        .iter()
        .map(|s| s.to_string())
        .collect();
    assert_eq!(profile_names(&files), vec!["a.b", "default", "kal", "midnight"]);
    assert!(profile_names(&vec![]).is_empty());
}

#[test]
fn player_directory_records_connections() {
    let mut d = PlayerDirectory::new();
    d.on_player_connect(3, 7, "[U:1:1]");
    assert_eq!(d.userid_of(3), Some(7));
    assert_eq!(d.id64_of(7), Some(76561197960265729));
    d.on_player_connect(4, 8, "BOT");
    assert_eq!(d.userid_of(4), Some(8));
    assert_eq!(d.id64_of(8), None);
    d.on_player_connect(5, 9, "not an id");
    assert_eq!(d.id64_of(9), Some(0));
    d.on_user_info(6, 10, "[U:1:12345678]");
    assert_eq!(d.id64_of(10), Some(76561197972611406));
    d.on_user_info(6, 11, "garbage");
    assert_eq!(d.userid_of(6), Some(11));
    assert_eq!(d.id64_of(11), None);
}

#[test]
fn bookmarks_sort_stably_and_save_only_what_matters() {
    let ev = |tick: u32, title: &str| Event { tick, title: title.to_string(), ev_type: "Bookmark".to_string() };
    let sorted = sort_events_by_tick(&vec![ev(30, "c"), ev(10, "a"), ev(30, "d"), ev(20, "b"), ev(10, "a2")]);
    let order: Vec<(u32, &str)> = sorted.iter().map(|e| (e.tick, e.title.as_str())).collect();
    assert_eq!(order, vec![(10, "a"), (10, "a2"), (20, "b"), (30, "c"), (30, "d")]);
    assert!(matches!(bookmark_write(Some("notes"), false), BookmarkWrite::Write(Some(ref s)) if s == "notes"));
    assert!(matches!(bookmark_write(Some(""), true), BookmarkWrite::Write(None)));
    assert!(matches!(bookmark_write(Some(""), false), BookmarkWrite::Remove));
    assert!(matches!(bookmark_write(None, false), BookmarkWrite::Remove));
}

#[test]
fn raw_player_numbers_resolve_through_entities_and_handles() {
    let mut dir = PlayerDirectory::new();
    dir.on_player_connect(5, 7, "[U:1:100]");
    let players = vec![PlayerView {
        entity: 9,
        user_id: Some(3),
        alive: true,
        class: PlayerClass::Spy,
        in_pvs: true,
        steam_id: Some("[U:1:200]".to_string()),
    }];
    assert_eq!(resolve_player_sid(4, &dir, &players), Some(76561197960265828));
    assert_eq!(resolve_player_sid(5, &dir, &players), Some(76561197960265828));
    assert_eq!(resolve_player_sid(0x1805, &dir, &players), Some(76561197960265828));
    assert_eq!(resolve_player_sid(9, &dir, &players), Some(76561197960265928));
    assert_eq!(resolve_player_sid(100, &dir, &players), None);
}

#[test]
fn profile_names_are_trimmed_and_kept_inside_the_folder() {
    assert_eq!(sanitize_name("  kal  "), Ok("kal".to_string()));
    assert_eq!(sanitize_name(" \t "), Err(ProfileNameError::Empty));
    assert_eq!(sanitize_name("../up"), Err(ProfileNameError::InvalidCharacters));
    assert_eq!(sanitize_name("a/b"), Err(ProfileNameError::InvalidCharacters));
    assert_eq!(sanitize_name("a\\b"), Err(ProfileNameError::InvalidCharacters));
    assert_eq!(sanitize_name("v1.2"), Ok("v1.2".to_string()));
    assert_eq!(profile_file_name("kal"), "kal.cfg");
    assert_eq!(trim_whitespace("\n x y \t"), "x y");
}

#[test]
fn pasted_configs_lose_their_fences() {
    assert_eq!(strip_fences("```json\n{\"a\": 1}\n```"), "{\"a\": 1}");
    assert_eq!(strip_fences("  ```\n{\"a\": {\"b\": 2}}\n```  "), "{\"a\": {\"b\": 2}}");
    assert_eq!(strip_fences("\u{feff}{\"a\": 1}"), "{\"a\": 1}");
    assert_eq!(strip_fences("note {x} end"), "{x}");
    assert_eq!(strip_fences("no braces"), "no braces");
    assert_eq!(strip_fences("} {"), "} {");
}

#[test]
fn detectors_can_be_reconfigured() {
    let mut d = DoubleTap::new(DoubleTapParams::defaults());
    let mut p = d.params();
    p.min_tick_scout = 10;
    d.set_params(p);
    assert_eq!(d.params().min_tick_scout, 10);
    assert_eq!(d.params().min_tick_heavy, 3);
}

#[test]
fn projectile_owners_and_player_ids() {
    let mut dir = PlayerDirectory::new();
    dir.on_player_connect(5, 7, "[U:1:100]");
    assert_eq!(resolve_owner(&dir, &vec![0x1806, 0x2805, 5]), Some(5));
    assert_eq!(resolve_owner(&dir, &vec![6, -1]), None);
    let mut p = PlayerView {
        entity: 5,
        user_id: Some(7),
        alive: true,
        class: PlayerClass::Pyro,
        in_pvs: true,
        steam_id: Some("[U:1:100]".to_string()),
    };
    assert_eq!(player_id(&p), Some(76561197960265828));
    p.steam_id = Some("BOT".to_string());
    assert_eq!(player_id(&p), None);
    p.user_id = None;
    p.steam_id = Some("[U:1:100]".to_string());
    assert_eq!(player_id(&p), None);
}

#[test]
fn effective_config_is_complete_even_with_no_overrides() {
    let effective = effective_config(&defaults(), &vec![]);
    assert_eq!(effective.len(), defaults().len());
    assert!(effective.iter().all(|e| e.is_none()));
}

#[test]
fn int_written_for_a_float_parameter_stays_readable() {
    let overrides = vec![entries("fidoo/nospread", &[("min_seed_correlation", ParameterKind::Int)])];
    let effective = effective_config(&defaults(), &overrides);
    assert_eq!(effective[1], Some((0, 0, ParameterKind::Float)));
    assert_eq!(read_kind(ParameterKind::Float, ParameterKind::Float), Ok(ParameterKind::Float));
}
