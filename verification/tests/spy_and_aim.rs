use tf2_demo_player::backstab::{
    counts_toward_aggregate, enough_stabs, is_backstab_hit, is_fleeting_exploit, is_instant_trigger, BackstabTiming,
    SpyBackstabTracker,
};
use tf2_demo_player::nospread::min_detections_filter;
use tf2_demo_player::silent_aim::{survives_withdrawal, AimGate, AimTracker};

#[test]
fn stab_in_an_open_window_is_timed_from_its_opening() {
    let mut t = SpyBackstabTracker::new();
    t.update_ready_state(true, 100);
    let timing = t.backstab_timing(101, 3);
    assert_eq!(timing.reaction_ticks, Some(1));
    assert_eq!(timing.window_duration_ticks, Some(2));
    assert!(!timing.was_preswinging);
    assert!(is_instant_trigger(&timing, 1, false, true));
    assert!(!is_instant_trigger(&timing, 0, false, true));
    assert!(!is_instant_trigger(&timing, 1, true, true));
    assert!(is_fleeting_exploit(&timing, 3, 2, false, true));
    assert!(counts_toward_aggregate(&timing, false, true));
}

#[test]
fn a_closed_window_counts_once_and_only_briefly() {
    let mut t = SpyBackstabTracker::new();
    t.update_ready_state(true, 50);
    t.update_ready_state(false, 53);
    assert_eq!(t.last_closed_window, Some((50, 53)));
    let timing = t.backstab_timing(55, 3);
    assert_eq!(timing.ready_tick, Some(50));
    assert_eq!(timing.reaction_ticks, Some(5));
    assert_eq!(timing.window_duration_ticks, Some(4));
    assert_eq!(t.last_closed_window, None);
    let again = t.backstab_timing(55, 3);
    assert_eq!(
        again,
        BackstabTiming { ready_tick: None, reaction_ticks: None, window_duration_ticks: None, was_preswinging: false }
    );

    let mut late = SpyBackstabTracker::new();
    late.update_ready_state(true, 50);
    late.update_ready_state(false, 53);
    assert_eq!(late.backstab_timing(56, 3).reaction_ticks, None);
    assert_eq!(late.last_closed_window, None);
}

#[test]
fn test_preswing_exclusion() {
    let mut spy = SpyBackstabTracker::new();
    spy.record_attack(24528);
    spy.update_ready_state(true, 24529);
    assert!(is_backstab_hit(900, true, 7, 150));
    let stab = spy.backstab_timing(24529, 3);
    assert_eq!(stab.reaction_ticks, Some(0));
    assert!(stab.was_preswinging);
    assert!(!is_instant_trigger(&stab, 1, false, true));
    assert!(!is_fleeting_exploit(&stab, 3, 2, false, true));

    let mut t = SpyBackstabTracker::new();
    t.record_attack(98);
    t.update_ready_state(true, 100);
    let timing = t.backstab_timing(101, 3);
    assert!(timing.was_preswinging);
    assert!(!is_instant_trigger(&timing, 1, false, true));
    assert!(!counts_toward_aggregate(&timing, false, true));
    let mut far = SpyBackstabTracker::new();
    far.record_attack(90);
    far.update_ready_state(true, 100);
    assert!(!far.backstab_timing(101, 3).was_preswinging);
    let mut none = SpyBackstabTracker::new();
    none.record_attack(98);
    none.update_ready_state(true, 100);
    assert!(!none.backstab_timing(101, -4).was_preswinging);
}

#[test]
fn aggregate_needs_at_least_one_stab() {
    assert!(enough_stabs(3, 3));
    assert!(!enough_stabs(2, 3));
    assert!(enough_stabs(1, 0));
    assert!(!enough_stabs(0, -5));
}

#[test]
fn silent_aim_gate_waits_for_view_and_immunity() {
    let mut t = AimTracker::new();
    assert_eq!(t.gate(100, true, 10, 3, 2000), AimGate::Immune { withdraw_recent: false });
    assert_eq!(t.gate(101, true, 0, 3, 2000), AimGate::Immune { withdraw_recent: true });
    assert_eq!(t.gate(200, true, 100, 3, 2000), AimGate::WarmingUp);
    assert_eq!(t.pvs_ticks, 1);
    assert_eq!(t.gate(201, true, 101, 3, 2000), AimGate::WarmingUp);
    assert_eq!(t.gate(202, true, 102, 3, 2000), AimGate::Search { restart_history: false });
    assert_eq!(t.gate(203, false, 103, 3, 2000), AimGate::NotTracked);
    assert_eq!(t.pvs_ticks, 0);
}

#[test]
fn test_drift_requires_suspicion_threshold() {
    let mut p = AimTracker::new();
    for tick in 100..106u32 {
        p.gate(tick, true, tick, 3, 2000);
    }
    assert_eq!(p.gate(106, true, 106, 3, 2000), AimGate::Search { restart_history: false });
    let det1 = p.spike(106, false, 2);
    assert!(!det1.flagged);
    for tick in 107..111u32 {
        p.gate(tick, true, tick, 3, 2000);
    }
    assert_eq!(p.gate(111, true, 111, 3, 2000), AimGate::Search { restart_history: false });
    let det2 = p.spike(111, false, 2);
    assert!(det2.flagged);
    assert_eq!(det2.suspicion, 2);

    let mut t = AimTracker::new();
    let first = t.spike(500, false, 2);
    assert!(!first.flagged);
    assert_eq!(first.suspicion, 1);
    let second = t.spike(510, false, 2);
    assert!(second.flagged);
    assert_eq!(second.suspicion, 2);
    assert_eq!(t.suspicion_count, 0);
    let exact = t.spike(520, true, 2);
    assert!(exact.flagged);
    assert_eq!(exact.suspicion, 2);
}

#[test]
fn suspicion_decays_after_clean_ticks() {
    let mut t = AimTracker::new();
    for tick in 1000..1003u32 {
        t.gate(tick, true, 500, 1, 100);
    }
    t.spike(1003, false, 3);
    assert_eq!(t.suspicion_count, 1);
    for tick in 1004..1103u32 {
        t.gate(tick, true, 500, 1, 100);
    }
    assert_eq!(t.suspicion_count, 1);
    t.gate(1103, true, 500, 1, 100);
    assert_eq!(t.suspicion_count, 0);
}

#[test]
fn a_spawn_withdraws_only_the_players_recent_detections() {
    assert!(!survives_withdrawal(7, 950, 7, 1000));
    assert!(survives_withdrawal(7, 900, 7, 1000));
    assert!(survives_withdrawal(8, 999, 7, 1000));
}

#[test]
fn test_min_detections_filtering() {
    let players = vec![11111u64, 11111, 22222, 22222, 22222];
    let kept = min_detections_filter(&players, 3);
    assert_eq!(kept.len(), 3);
    assert!(kept.iter().all(|&i| players[i] == 22222));
}

#[test]
fn test_min_detections_custom_param() {
    let players = vec![11111u64];
    let kept = min_detections_filter(&players, 1);
    assert_eq!(kept.len(), 1);
    assert_eq!(players[kept[0]], 11111);
}

#[test]
fn backstab_hits_are_crit_knife_hits_that_kill() {
    assert!(is_backstab_hit(401, true, 7, 300));
    assert!(!is_backstab_hit(401, false, 7, 300));
    assert!(!is_backstab_hit(401, true, 4, 300));
    assert!(is_backstab_hit(110, true, 7, 20));
    assert!(!is_backstab_hit(109, true, 7, 20));
}

#[test]
fn filter_keeps_a_players_detections_together_in_order() {
    let players = vec![5u64, 9, 5, 7, 9, 5];
    assert_eq!(min_detections_filter(&players, 2), vec![0, 1, 2, 4, 5]);
    assert_eq!(min_detections_filter(&players, 3), vec![0, 2, 5]);
    assert_eq!(min_detections_filter(&players, 0), vec![0, 1, 2, 3, 4, 5]);
}

#[test]
fn test_instant_triggerbot_without_tracking() {
    let mut spy = SpyBackstabTracker::new();
    spy.update_ready_state(true, 24529);
    assert!(is_backstab_hit(900, true, 7, 150));
    let stab = spy.backstab_timing(24530, 3);
    assert_eq!(stab.reaction_ticks, Some(1));
    assert!(!stab.was_preswinging);
    // No snapshots of either player: no prior tracking, and an approach
    // score of 0.2 (no snap only), below 0.3.
    assert!(is_instant_trigger(&stab, 1, false, true));
}

#[test]
fn test_human_reaction_no_instant_detection() {
    let mut spy = SpyBackstabTracker::new();
    spy.update_ready_state(true, 24500);
    assert!(is_backstab_hit(750, true, 7, 125));
    let stab = spy.backstab_timing(24512, 3);
    assert_eq!(stab.reaction_ticks, Some(12));
    assert!(!is_instant_trigger(&stab, 1, false, true));
    assert!(!is_fleeting_exploit(&stab, 3, 2, false, true));
    // One counted stab is short of the three the aggregate needs.
    assert!(counts_toward_aggregate(&stab, false, true));
    assert!(!enough_stabs(1, 3));
}

#[test]
fn test_exact_match_instant_flag() {
    let mut p = AimTracker::new();
    for tick in 100..105u32 {
        p.gate(tick, true, tick, 3, 2000);
    }
    assert_eq!(p.gate(105, true, 105, 3, 2000), AimGate::Search { restart_history: false });
    assert_eq!(p.gate(106, true, 106, 3, 2000), AimGate::Search { restart_history: false });
    let det = p.spike(106, true, 2);
    assert!(det.flagged);
    assert_eq!(p.suspicion_count, 0);
}
