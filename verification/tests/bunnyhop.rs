use tf2_demo_player::bunnyhop::{hop_gate, BhopInput, BhopParams, BhopTracker, BunnyHop, HopGate};
use tf2_demo_player::invalid_equip::PlayerView;
use tf2_demo_player::player::{PlayerClass, PlayerDirectory};

fn params() -> BhopParams {
    BhopParams { min_streak: 5, min_air_ticks: 6, max_ground_ticks: 1 }
}

fn input(on_ground: bool) -> BhopInput {
    BhopInput { on_ground, bounce_shape: false, fast_enough: true }
}

// One landing tick, then seven air ticks.
fn hop_cycles(cycles: usize) -> Vec<bool> {
    let mut seq = Vec::new();
    for _ in 0..cycles {
        seq.push(true);
        seq.extend(std::iter::repeat(false).take(7));
    }
    seq
}

fn run(t: &mut BhopTracker, seq: &[bool]) -> Vec<u32> {
    let mut reported = Vec::new();
    for &g in seq {
        if t.step(params(), input(g)).report {
            reported.push(t.streak());
        }
    }
    reported
}

#[test]
fn a_tracker_reports_each_longer_streak() {
    let mut t = BhopTracker::new();
    let reported = run(&mut t, &hop_cycles(7));
    assert_eq!(reported, vec![5, 6]);
    assert_eq!(t.hop_ground_ticks(), vec![1, 1, 1, 1, 1, 1]);
}

#[test]
fn walking_breaks_the_streak() {
    let mut t = BhopTracker::new();
    run(&mut t, &hop_cycles(4));
    assert_eq!(t.streak(), 3);
    let out = (0..5).map(|_| t.step(params(), input(true))).last().unwrap();
    assert!(out.streak_cleared);
    assert_eq!(t.streak(), 0);
    assert!(t.hop_ground_ticks().is_empty());
}

#[test]
fn slow_hops_do_not_count() {
    let mut t = BhopTracker::new();
    for g in hop_cycles(8) {
        let out = t.step(params(), BhopInput { on_ground: g, bounce_shape: false, fast_enough: false });
        assert!(!out.hop_recorded && !out.report);
    }
    assert_eq!(t.streak(), 0);
}

#[test]
fn a_ground_bounce_counts_as_a_zero_tick_hop() {
    let mut t = BhopTracker::new();
    for g in hop_cycles(1) {
        t.step(params(), input(g));
    }
    let out = t.step(params(), BhopInput { on_ground: false, bounce_shape: true, fast_enough: true });
    assert!(out.hop_recorded && out.reset_heights);
    assert_eq!(t.hop_ground_ticks(), vec![0]);
}

#[test]
fn the_gate_keeps_water_and_events_out() {
    // In water, and within the grace after leaving it, the player is not followed_ticks.
    assert_eq!(hop_gate(1000, true, None, 500), HopGate::InWater);
    assert_eq!(hop_gate(1000, false, Some(495), 505), HopGate::AfterWater);
    assert_eq!(hop_gate(1000, false, Some(495), 506), HopGate::Track);
    assert_eq!(hop_gate(1000, false, Some(100), 200), HopGate::Track);
    assert_eq!(hop_gate(59, false, None, 200), HopGate::NearEvent);
    assert_eq!(hop_gate(60, false, None, 200), HopGate::Track);
}

const FL_ONGROUND: u32 = 1;
const FL_INWATER: u32 = 1 << 10;
// [U:1:12345678]
const PLAYER: u64 = 76561197972611406;

// One followed player moving about 333 units a second: their speed is known
// from their third followed_ticks tick on. Ticks start at 100, clear of the spawn
// grace. Gives the streaks reported.
fn run_flags(flags_seq: &[u32]) -> Vec<u32> {
    let mut b = BunnyHop::new(BhopParams { min_streak: 5, min_air_ticks: 6, max_ground_ticks: 1 });
    let mut followed_ticks = 0;
    let mut reports = Vec::new();
    for (i, &flags) in flags_seq.iter().enumerate() {
        let input = BhopInput {
            on_ground: flags & FL_ONGROUND != 0,
            bounce_shape: false,
            fast_enough: followed_ticks >= 2,
        };
        let (gate, out) = b.on_player(100 + i as u32, PLAYER, flags & FL_INWATER != 0, input);
        if gate == HopGate::Track {
            followed_ticks += 1;
            if out.map_or(false, |o| o.report) {
                reports.push(b.streak_of(PLAYER));
            }
        } else {
            followed_ticks = 0;
            assert_eq!(b.streak_of(PLAYER), 0);
        }
    }
    reports
}

fn flag_cycles(cycles: usize) -> Vec<u32> {
    let mut seq = Vec::new();
    for _ in 0..cycles {
        seq.push(FL_ONGROUND);
        seq.extend(std::iter::repeat(0).take(7));
    }
    seq
}

#[test]
fn hop_pattern_without_water_is_detected() {
    let detections = run_flags(&flag_cycles(8));
    assert!(!detections.is_empty(), "plain hop streak should still be detected");
}

#[test]
fn water_bobbing_does_not_build_hop_streaks() {
    let mut seq = Vec::new();
    for _ in 0..12 {
        seq.push(FL_INWATER);
        seq.push(FL_ONGROUND);
        seq.extend(std::iter::repeat(0).take(6));
        seq.push(FL_ONGROUND);
        seq.push(0);
        seq.push(0);
    }
    let detections = run_flags(&seq);
    assert!(detections.is_empty(), "hops within the water-exit grace must not count, got {detections:?}");
}

#[test]
fn wading_water_flag_counts_as_water() {
    let mut seq = Vec::new();
    for _ in 0..12 {
        seq.push(FL_INWATER | FL_ONGROUND);
        seq.push(FL_ONGROUND);
        seq.extend(std::iter::repeat(0).take(6));
        seq.push(FL_ONGROUND);
        seq.push(0);
        seq.push(0);
    }
    let detections = run_flags(&seq);
    assert!(
        detections.is_empty(),
        "wading (water + on ground) must be treated like in-water, got {detections:?}"
    );
}

#[test]
fn grace_expires_after_leaving_water() {
    let mut seq = vec![FL_INWATER; 3];
    seq.extend(std::iter::repeat(FL_ONGROUND).take(12));
    seq.extend(flag_cycles(10));
    let detections = run_flags(&seq);
    assert!(!detections.is_empty(), "hops long after water exit should still be detected");
}

#[test]
fn spawning_pauses_tracking_for_sixty_ticks() {
    let mut dir = PlayerDirectory::new();
    dir.on_player_connect(1, 7, "[U:1:12345678]");
    let mut b = BunnyHop::new(BhopParams { min_streak: 5, min_air_ticks: 6, max_ground_ticks: 1 });
    b.on_spawn(&dir, 7, 100);
    let input = BhopInput { on_ground: true, bounce_shape: false, fast_enough: true };
    assert_eq!(b.on_player(159, PLAYER, false, input).0, HopGate::NearEvent);
    assert_eq!(b.on_player(160, PLAYER, false, input).0, HopGate::Track);
}

#[test]
fn a_big_move_in_one_tick_counts_as_a_teleport() {
    let mut b = BunnyHop::new(BhopParams { min_streak: 5, min_air_ticks: 6, max_ground_ticks: 1 });
    let view = PlayerView {
        entity: 1,
        user_id: Some(7),
        alive: true,
        class: PlayerClass::Scout,
        in_pvs: true,
        steam_id: Some("[U:1:12345678]".to_string()),
    };
    let input = BhopInput { on_ground: true, bounce_shape: false, fast_enough: true };
    assert_eq!(b.on_player(200, PLAYER, false, input).0, HopGate::Track);
    assert!(b.on_moves(210, &vec![(view, true)]));
    assert_eq!(b.on_player(269, PLAYER, false, input).0, HopGate::NearEvent);
    assert!(b.hops_of(PLAYER).is_empty());
    assert_eq!(b.on_player(270, PLAYER, false, input).0, HopGate::Track);
}
