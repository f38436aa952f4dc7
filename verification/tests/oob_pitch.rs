use tf2_demo_player::invalid_equip::PlayerView;
use tf2_demo_player::oob_pitch::OobPitch;
use tf2_demo_player::player::PlayerClass;

fn view(steam_id: &str, in_pvs: bool) -> PlayerView {
    PlayerView {
        entity: 1,
        user_id: Some(2),
        alive: true,
        class: PlayerClass::Sniper,
        in_pvs,
        steam_id: Some(steam_id.to_string()),
    }
}

#[test]
fn a_run_out_of_bounds_is_reported_once() {
    let mut d = OobPitch::new();
    d.on_server_info("  Valve Matchmaking Server (Virginia)  ");
    d.on_server_info("ignored later name");
    let out = vec![(view("[U:1:100]", true), true)];
    let f = d.on_net_tick(10, &out);
    assert_eq!(f.len(), 1);
    assert_eq!(f[0].tick, 10);
    assert_eq!(f[0].player, 76561197960265828);
    assert!(f[0].valve_server);
    assert!(d.on_net_tick(11, &out).is_empty());
    assert!(d.on_net_tick(12, &vec![(view("[U:1:100]", true), false)]).is_empty());
    assert_eq!(d.on_net_tick(13, &out).len(), 1);
}

#[test]
fn unseen_players_and_bots_are_not_flagged() {
    let mut d = OobPitch::new();
    d.on_server_info("community server");
    let players = vec![(view("[U:1:100]", false), true), (view("BOT", true), true), (view("[U:1:200]", true), true)];
    let f = d.on_net_tick(5, &players);
    assert_eq!(f.len(), 1);
    assert_eq!(f[0].player, 76561197960265928);
    assert_eq!(f[0].index, 2);
    assert!(!f[0].valve_server);
}

#[test]
fn an_unreadable_id_stops_the_tick() {
    let mut d = OobPitch::new();
    assert_eq!(d.try_on_net_tick(5, &vec![(view("garbage", true), true)]), None);
    assert_eq!(d.try_on_net_tick(5, &vec![(view("[U:1:1]", true), true)]).map(|f| f.len()), Some(1));
}
