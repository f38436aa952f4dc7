use tf2_demo_player::invalid_equip::PlayerView;
use tf2_demo_player::jankguard::JankGuard;
use tf2_demo_player::player::{PlayerClass, PlayerDirectory};

const ALICE: u64 = 76561197960265828; // [U:1:100]

fn directory() -> PlayerDirectory {
    let mut dir = PlayerDirectory::new();
    dir.on_player_connect(1, 7, "[U:1:100]");
    dir
}

fn view(steam_id: &str, in_pvs: bool, alive: bool) -> PlayerView {
    PlayerView {
        entity: 1,
        user_id: Some(7),
        alive,
        class: PlayerClass::Soldier,
        in_pvs,
        steam_id: Some(steam_id.to_string()),
    }
}

#[test]
fn events_record_spawn_teleport_and_fire_ticks() {
    let dir = directory();
    let mut j = JankGuard::new();
    assert_eq!(j.spawned(ALICE, 40), 40);
    j.on_spawn(&dir, 7, 10);
    j.on_teleported(&dir, 7, 20);
    // Entity handle 0x1801 names entity 1.
    j.on_fire(&dir, 0x1801, 30);
    assert_eq!(j.spawned(ALICE, 40), 30);
    assert_eq!(j.teleported(ALICE, 40), 20);
    assert_eq!(j.fired(ALICE, 40), 10);
}

#[test]
fn unknown_users_and_bad_handles_record_nothing() {
    let dir = directory();
    let mut j = JankGuard::new();
    j.on_spawn(&dir, 8, 10);
    j.on_fire(&dir, -1, 30);
    j.on_fire(&dir, 0x1_0000_0001, 30);
    j.on_fire(&dir, 2, 30);
    assert_eq!(j.spawned(ALICE, 50), 50);
    assert_eq!(j.fired(ALICE, 50), 50);
}

#[test]
fn moving_too_far_in_a_tick_counts_as_a_teleport() {
    let mut j = JankGuard::new();
    j.on_tick(100, &vec![(view("[U:1:100]", true, true), false)]);
    assert_eq!(j.teleported(ALICE, 100), 100);
    j.on_tick(101, &vec![(view("[U:1:100]", true, true), true)]);
    assert_eq!(j.teleported(ALICE, 105), 4);
    // Out of view, dead, or a bot: not followed.
    j.on_tick(
        110,
        &vec![
            (view("[U:1:100]", false, true), true),
            (view("[U:1:100]", true, false), true),
            (view("BOT", true, true), true),
        ],
    );
    assert_eq!(j.teleported(ALICE, 110), 9);
}

#[test]
fn a_followed_player_whose_id_does_not_read_stops_the_tick() {
    let mut j = JankGuard::new();
    let players = vec![(view("[U:1:100]", true, true), true), (view("garbage", true, true), false)];
    assert!(!j.try_on_tick(5, &players));
    assert_eq!(j.teleported(ALICE, 5), 5);
    assert!(j.try_on_tick(6, &vec![(view("[U:1:100]", true, true), true)]));
    assert_eq!(j.teleported(ALICE, 6), 0);
}
