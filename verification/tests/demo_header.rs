use tf2_demo_player::backstab::tick_player_order;
use tf2_demo_player::demo_header::demo_listing;

fn text(s: &str, size: usize) -> Vec<u8> {
    let mut v = s.as_bytes().to_vec();
    v.resize(size, 0);
    v
}

fn header_bytes(map: &str, duration: f32, ticks: u32) -> Vec<u8> {
    let mut v = text("HL2DEMO", 8);
    v.extend_from_slice(&3u32.to_le_bytes());
    v.extend_from_slice(&24u32.to_le_bytes());
    v.extend_from_slice(&text("Valve Matchmaking Server", 260));
    v.extend_from_slice(&text("player", 260));
    v.extend_from_slice(&text(map, 260));
    v.extend_from_slice(&text("tf", 260));
    v.extend_from_slice(&duration.to_le_bytes());
    v.extend_from_slice(&ticks.to_le_bytes());
    v.extend_from_slice(&(ticks + 5).to_le_bytes());
    v.extend_from_slice(&1234u32.to_le_bytes());
    v
}

#[test]
fn a_demo_is_listed_with_its_header() {
    let mut bytes = header_bytes("cp_badlands", 60.5, 4033);
    assert_eq!(bytes.len(), 1072);
    bytes.extend_from_slice(&[7u8; 100]);
    let h = demo_listing(&bytes).unwrap();
    assert_eq!(h.demo_type, "HL2DEMO");
    assert_eq!(h.version, 3);
    assert_eq!(h.protocol, 24);
    assert_eq!(h.server, "Valve Matchmaking Server");
    assert_eq!(h.nick, "player");
    assert_eq!(h.map, "cp_badlands");
    assert_eq!(h.game, "tf");
    assert_eq!(f32::from_bits(h.duration_bits), 60.5);
    assert_eq!(h.ticks, 4033);
    assert_eq!(h.frames, 4038);
    assert_eq!(h.signon, 1234);
}

#[test]
fn a_file_shorter_than_the_listing_read_is_not_listed() {
    let mut bytes = header_bytes("pl_upward", 10.0, 600);
    bytes.extend_from_slice(&[0u8; 7]);
    assert_eq!(bytes.len(), 1079);
    assert!(demo_listing(&bytes).is_none());
    assert!(demo_listing(&[]).is_none());
    bytes.push(0);
    assert_eq!(demo_listing(&bytes).unwrap().map, "pl_upward");
}

#[test]
fn end_of_demo_detections_come_out_by_tick_then_player() {
    let found = vec![(30u32, 2u64), (10, 9), (30, 1), (10, 3)];
    assert_eq!(tick_player_order(&found), vec![3, 1, 2, 0]);
    assert!(tick_player_order(&vec![]).is_empty());
}
