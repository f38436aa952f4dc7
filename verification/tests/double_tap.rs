use tf2_demo_player::double_tap::{DoubleTap, DoubleTapParams, Hurt};
use tf2_demo_player::invalid_equip::PlayerView;
use tf2_demo_player::player::PlayerClass;

fn player(user_id: u32, account: u32, in_pvs: bool) -> PlayerView {
    PlayerView {
        entity: user_id,
        user_id: Some(user_id),
        alive: true,
        class: PlayerClass::Scout,
        in_pvs,
        steam_id: Some(format!("[U:1:{}]", account)),
    }
}

fn lobby() -> Vec<PlayerView> {
    vec![player(2, 100, true), player(3, 200, true), player(4, 300, false)]
}

fn hurt(attacker: u32, victim: u32, weapon_id: u32, damage: u32) -> Hurt {
    Hurt { attacker, victim, weapon_id, damage }
}

#[test]
fn scout_hits_too_close_together_are_reported() {
    let mut d = DoubleTap::new(DoubleTapParams::defaults());
    let players = lobby();
    assert_eq!(d.on_player_hurt(100, hurt(2, 3, 16, 60), &players), None);
    let f = d.on_player_hurt(105, hurt(2, 3, 16, 40), &players).expect("double tap");
    assert_eq!(f.player, 76561197960265828);
    assert_eq!((f.tick_1, f.tick_2, f.tick_diff), (100, 105, 5));
    assert_eq!((f.damage_1, f.damage_2), (60, 40));
    assert_eq!(f.victim, 3);
    assert_eq!(f.class, PlayerClass::Scout);
    // 17 ticks apart is the Scout's own rate.
    assert_eq!(d.on_player_hurt(122, hurt(2, 3, 16, 60), &players), None);
}

#[test]
fn other_victims_weapons_and_same_tick_hits_are_not_reported() {
    let mut d = DoubleTap::new(DoubleTapParams::defaults());
    let players = lobby();
    assert_eq!(d.on_player_hurt(10, hurt(2, 3, 16, 60), &players), None);
    assert_eq!(d.on_player_hurt(10, hurt(2, 3, 16, 60), &players), None);
    assert_eq!(d.on_player_hurt(12, hurt(2, 4, 16, 60), &players), None);
    assert_eq!(d.on_player_hurt(13, hurt(2, 4, 7, 60), &players), None);
    assert_eq!(d.on_player_hurt(14, hurt(2, 4, 7, 60), &players), None);
}

#[test]
fn heavy_minigun_uses_its_own_gap() {
    let mut d = DoubleTap::new(DoubleTapParams::defaults());
    let players = lobby();
    assert_eq!(d.on_player_hurt(50, hurt(3, 2, 18, 9), &players), None);
    assert!(d.on_player_hurt(52, hurt(3, 2, 18, 9), &players).is_some());
    assert_eq!(d.on_player_hurt(55, hurt(3, 2, 18, 9), &players), None);
}

#[test]
fn bleed_hits_are_ignored_and_unseen_attackers_skipped() {
    let mut d = DoubleTap::new(DoubleTapParams::defaults());
    let players = lobby();
    assert_eq!(d.on_player_hurt(100, hurt(2, 3, 16, 60), &players), None);
    // The cleaver's bleed does not count as a shot...
    assert_eq!(d.on_player_hurt(101, hurt(2, 3, 16, 5), &players), None);
    // ...so the next hit still pairs with the one at tick 100.
    assert_eq!(d.on_player_hurt(104, hurt(2, 3, 16, 60), &players).map(|f| f.tick_1), Some(100));
    // Attacker 4 is outside the recording player's view.
    assert_eq!(d.on_player_hurt(110, hurt(4, 3, 16, 60), &players), None);
    assert_eq!(d.on_player_hurt(111, hurt(4, 3, 16, 60), &players), None);
    // Unknown user ids give no SteamID.
    assert_eq!(d.on_player_hurt(112, hurt(9, 3, 16, 60), &players), None);
}
