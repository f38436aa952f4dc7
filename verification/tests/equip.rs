use tf2_demo_player::equip_regions::{
    check_cosmetic_conflict, cosmetic_info, get_cosmetic_info, is_action_item, is_dummy_or_invalid,
    is_weapon_wearable, region_mask_to_names, CosmeticTable, SchemaEntry,
};
use tf2_demo_player::invalid_equip::{
    EntityUpdate, EquipParams, InvalidEquipRegion, PlayerView, ViolationKind,
};
use tf2_demo_player::player::PlayerClass;

fn entry(id: &str, name: &str, regions: &[&str]) -> SchemaEntry {
    SchemaEntry {
        id: id.to_string(),
        name: name.to_string(),
        equip_regions: Some(regions.iter().map(|r| r.to_string()).collect()),
    }
}

fn schema() -> CosmeticTable {
    CosmeticTable::from_entries(&vec![
        entry("378", "Team Captain", &["hat"]),
        entry("538", "Killer Exclusive", &["hat"]),
        entry("940", "Ghostly Gibus", &["hat"]),
        entry("471", "Proof of Purchase", &["hat"]),
        entry("30000", "Glasses", &["glasses"]),
        entry("30001", "Mask", &["face"]),
        entry("30002", "Scarf", &["shirt"]),
        entry("30003", "Boots", &["feet"]),
        entry("30004", "Medal", &["medal"]),
        entry("30005", "Pin", &["flair"]),
    ])
}

fn wearable(index: u32, owner: i64, item: i64, account: i64) -> EntityUpdate {
    EntityUpdate {
        index,
        class_name: "CTFWearable".to_string(),
        deleted: false,
        entered: true,
        props: vec![
            ("m_hOwnerEntity".to_string(), owner),
            ("m_iItemDefinitionIndex".to_string(), item),
            ("m_iAccountID".to_string(), account),
        ],
    }
}

fn player(entity: u32, class: PlayerClass, steam_id: &str) -> PlayerView {
    PlayerView {
        entity,
        user_id: Some(1),
        alive: true,
        class,
        in_pvs: false,
        steam_id: Some(steam_id.to_string()),
    }
}

fn two_hats(algo: &mut InvalidEquipRegion) {
    algo.on_entities(1, &vec![], &vec![wearable(101, 10, 378, 1), wearable(102, 10, 538, 1)]);
}

#[test]
fn test_valve_servers_only_filter_enabled_community() {
    let mut algo = InvalidEquipRegion::new();
    algo.server_name = "UGC.TF | Trade #11 | FREE ITEMS!".to_string();
    algo.params.valve_servers_only = true;
    let res = algo.on_net_tick(100, &schema(), &vec![]);
    assert!(res.is_empty(), "Community server should be skipped when valve_servers_only is true");
}

#[test]
fn test_valve_servers_only_filter_disabled_community() {
    let mut algo = InvalidEquipRegion::new();
    algo.server_name = "UGC.TF | Trade #11 | FREE ITEMS!".to_string();
    algo.params.valve_servers_only = false;
    algo.params.min_persistence_ticks = 1;
    algo.params.ignore_preset_swap = false;
    two_hats(&mut algo);
    let res = algo.on_net_tick(1, &schema(), &vec![player(10, PlayerClass::Heavy, "[U:1:1]")]);
    assert_eq!(res.len(), 1, "Community server should flag when valve_servers_only is false");
    assert_eq!(res[0].valve_server, false);
    assert_eq!(res[0].server_name, "UGC.TF | Trade #11 | FREE ITEMS!");
}

#[test]
fn test_valve_servers_only_valve_server() {
    let mut algo = InvalidEquipRegion::new();
    algo.server_name = "Valve Matchmaking Server (Stockholm srcds2015-sto1 #69)".to_string();
    algo.params.valve_servers_only = true;
    algo.params.min_persistence_ticks = 1;
    algo.params.ignore_preset_swap = false;
    two_hats(&mut algo);
    let res = algo.on_net_tick(1, &schema(), &vec![player(10, PlayerClass::Heavy, "[U:1:1]")]);
    assert_eq!(res.len(), 1, "Valve server should flag when valve_servers_only is true");
    assert_eq!(res[0].valve_server, true);
    assert_eq!(res[0].server_name, "Valve Matchmaking Server (Stockholm srcds2015-sto1 #69)");
}

#[test]
fn test_account_id_filtering() {
    let mut algo = InvalidEquipRegion::new();
    algo.server_name = "Valve Matchmaking Server (test)".to_string();
    algo.params.min_persistence_ticks = 1;
    let steam_id64 = 76561199232172054u64;
    let player_account_id = (steam_id64 & 0xFFFFFFFF) as i64;
    algo.on_entities(
        1,
        &vec![],
        &vec![wearable(101, 13, 940, player_account_id), wearable(102, 13, 471, 345727541)],
    );
    let res =
        algo.on_net_tick(1, &schema(), &vec![player(13, PlayerClass::Pyro, "[U:1:1271906326]")]);
    assert!(res.is_empty(), "Orphaned wearable with mismatching account_id must be ignored and not cause conflict");
}

#[test]
fn a_hat_conflict_is_reported_with_its_details_once() {
    let mut algo = InvalidEquipRegion::new();
    algo.server_name = "Valve Matchmaking Server (test)".to_string();
    algo.params.min_persistence_ticks = 2;
    algo.params.ignore_preset_swap = false;
    two_hats(&mut algo);
    let players = vec![player(10, PlayerClass::Heavy, "[U:1:1]")];
    assert!(algo.on_net_tick(1, &schema(), &players).is_empty());
    let res = algo.on_net_tick(2, &schema(), &players);
    assert_eq!(res.len(), 1);
    let f = &res[0];
    assert_eq!(f.tick, 2);
    assert_eq!(f.player, 76561197960265729);
    assert_eq!(f.class, PlayerClass::Heavy);
    assert_eq!(f.violation, ViolationKind::Conflict);
    assert_eq!(f.violation.as_str(), "equip_region_conflict");
    assert_eq!(f.conflicting_regions, vec!["hat"]);
    let ids: Vec<u16> = f.cosmetics.iter().map(|(id, _)| *id).collect();
    assert_eq!(ids, vec![378, 538]);
    assert_eq!(f.cosmetics[0].1.name, "Team Captain");
    assert_eq!(f.duration_ticks, 2);
    // The same loadout is not reported again.
    assert!(algo.on_net_tick(3, &schema(), &players).is_empty());
}

#[test]
fn more_than_three_cosmetics_is_an_excess() {
    let mut algo = InvalidEquipRegion::new();
    algo.server_name = "Valve Matchmaking Server (test)".to_string();
    algo.params.min_persistence_ticks = 1;
    algo.on_entities(
        5,
        &vec![],
        &vec![
            wearable(201, 10, 30002, 0),
            wearable(202, 10, 30003, 0),
            wearable(203, 10, 30004, 0),
            wearable(204, 10, 30005, 0),
        ],
    );
    let res = algo.on_net_tick(5, &schema(), &vec![player(10, PlayerClass::Scout, "[U:1:1]")]);
    assert_eq!(res.len(), 1);
    assert_eq!(res[0].violation, ViolationKind::ExcessCount);
    assert!(res[0].conflicting_regions.is_empty());
    assert_eq!(res[0].cosmetics.len(), 4);
}

#[test]
fn a_preset_swap_waits_for_a_respawn_seen_in_view() {
    let mut algo = InvalidEquipRegion::new();
    algo.server_name = "Valve Matchmaking Server (test)".to_string();
    algo.params.min_persistence_ticks = 1;
    two_hats(&mut algo);
    let mut p = player(10, PlayerClass::Heavy, "[U:1:1]");
    p.in_pvs = true;
    // Never witnessed a reset: a two-hat overlap may be a preset swap.
    assert!(algo.on_net_tick(1, &schema(), &vec![p]).is_empty());
}

#[test]
fn dead_players_and_bots_are_not_checked() {
    let mut algo = InvalidEquipRegion::new();
    algo.server_name = "Valve Matchmaking Server (test)".to_string();
    algo.params.min_persistence_ticks = 1;
    algo.params.ignore_preset_swap = false;
    two_hats(&mut algo);
    let mut dead = player(10, PlayerClass::Heavy, "[U:1:1]");
    dead.alive = false;
    assert!(algo.on_net_tick(1, &schema(), &vec![dead]).is_empty());
    let bot = player(10, PlayerClass::Heavy, "BOT");
    assert!(algo.on_net_tick(2, &schema(), &vec![bot]).is_empty());
}

#[test]
fn a_death_moves_old_wearables_out_of_the_loadout() {
    let mut algo = InvalidEquipRegion::new();
    algo.server_name = "Valve Matchmaking Server (test)".to_string();
    algo.params.min_persistence_ticks = 1;
    algo.params.ignore_preset_swap = false;
    two_hats(&mut algo);
    let players = vec![player(10, PlayerClass::Heavy, "[U:1:1]")];
    algo.on_player_death(1, 1, &players);
    assert!(algo.on_net_tick(2, &schema(), &players).is_empty());
}

#[test]
fn server_name_comes_from_the_first_source_trimmed() {
    let mut algo = InvalidEquipRegion::new();
    algo.on_server_info(1, "  Valve Matchmaking Server (x)  ");
    algo.on_set_convars(2, &vec![("hostname".to_string(), "other".to_string())]);
    assert_eq!(algo.server_name, "Valve Matchmaking Server (x)");
    let mut algo = InvalidEquipRegion::new();
    algo.on_set_convars(2, &vec![("hostname".to_string(), " from convar ".to_string())]);
    assert_eq!(algo.server_name, "from convar");
    assert_eq!(algo.algorithm_name(), "fidoo/invalid_equip_region");
    assert_eq!(EquipParams::defaults().min_persistence_ticks, 600);
}

#[test]
fn cosmetic_lookup_skips_placeholders_weapons_and_action_items() {
    let table = schema();
    assert!(get_cosmetic_info(&table, 0).is_none());
    assert!(get_cosmetic_info(&table, 65535).is_none());
    assert!(is_dummy_or_invalid(0) && is_dummy_or_invalid(65535) && !is_dummy_or_invalid(1));
    assert!(is_weapon_wearable(131) && !is_weapon_wearable(378));
    assert!(is_action_item(5869) && !is_action_item(378));
    let info = get_cosmetic_info(&table, 378).unwrap();
    assert_eq!(info.name, "Team Captain");
    assert_eq!(info.regions, vec!["hat".to_string()]);
    assert_eq!(info.region_mask, 1u128 << 22);
    assert!(get_cosmetic_info(&table, 12345).is_none());
}

#[test]
fn schema_reading_skips_bad_ids_and_keeps_the_later_entry() {
    let table = CosmeticTable::from_entries(&vec![
        entry("7", "first", &["hat"]),
        entry("not a number", "skipped", &["hat"]),
        entry("70000", "too large", &["hat"]),
        entry("07", "second", &["beard", "nowhere"]),
        SchemaEntry { id: "8".to_string(), name: "bare".to_string(), equip_regions: None },
    ]);
    let info = get_cosmetic_info(&table, 7).unwrap();
    assert_eq!(info.name, "second");
    assert_eq!(info.region_mask, 1u128 << 4);
    let bare = get_cosmetic_info(&table, 8).unwrap();
    assert!(bare.regions.is_empty());
    assert_eq!(bare.region_mask, 0);
}

#[test]
fn region_names_and_conflicts() {
    assert_eq!(region_mask_to_names((1u128 << 22) | 1), vec!["Back", "hat"]);
    assert!(region_mask_to_names(0).is_empty());
    let hat_a = cosmetic_info("a".to_string(), vec!["hat".to_string()]);
    let hat_b = cosmetic_info("b".to_string(), vec!["hat".to_string(), "beard".to_string()]);
    assert_eq!(check_cosmetic_conflict(&hat_a, &hat_b, true), Some(vec!["hat"]));
    let glasses = cosmetic_info("g".to_string(), vec!["glasses".to_string()]);
    let face = cosmetic_info("f".to_string(), vec!["face".to_string()]);
    assert_eq!(check_cosmetic_conflict(&glasses, &face, true), None);
    assert_eq!(check_cosmetic_conflict(&glasses, &face, false), Some(vec!["glasses"]));
    let whole = cosmetic_info("w".to_string(), vec!["whole_head".to_string()]);
    assert_eq!(check_cosmetic_conflict(&hat_a, &whole, false), Some(vec!["whole_head"]));
    assert_eq!(check_cosmetic_conflict(&whole, &hat_a, false), Some(vec!["whole_head"]));
    assert_eq!(check_cosmetic_conflict(&hat_a, &glasses, false), None);
}

#[test]
fn conflict_names_ascend_and_quickswitch_only_adds() {
    let all: Vec<String> = ["whole_head", "hat", "glasses", "face", "Back", "arms", "zombie_body"]
        .iter()
        .map(|s| s.to_string())
        .collect();
    let a = cosmetic_info("a".to_string(), all.clone());
    let b = cosmetic_info("b".to_string(), all);
    let strict = check_cosmetic_conflict(&a, &b, false).unwrap();
    for w in strict.windows(2) {
        assert!(w[0].as_bytes() < w[1].as_bytes());
    }
    let loose = check_cosmetic_conflict(&a, &b, true).unwrap();
    for n in &loose {
        assert!(strict.contains(n));
    }
    let g = cosmetic_info("g".to_string(), vec!["glasses".to_string()]);
    let w = cosmetic_info("w".to_string(), vec!["whole_head".to_string()]);
    assert_eq!(check_cosmetic_conflict(&g, &w, true), None);
    assert_eq!(check_cosmetic_conflict(&g, &w, false), Some(vec!["glasses", "whole_head"]));
}
