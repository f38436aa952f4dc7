use tf2_demo_player::firewindow::{FireWindow, UserCmd};
use tf2_demo_player::triggerbot::{classify_command, AttackCmd, ConsoleCmd, TriggerBot};

fn recorder_id() -> u64 {
    u64::from(steamid_ng::SteamID::from_steam3("[U:1:12345678]").unwrap())
}

fn names() -> Vec<(u64, String)> {
    vec![(recorder_id(), "Recorder".to_string())]
}

fn cmds(list: &[(u32, &str)]) -> Vec<ConsoleCmd> {
    list.iter()
        .map(|(tick, cmd)| ConsoleCmd { tick: *tick, command: cmd.to_string() })
        .collect()
}

fn usercmds(list: &[(u32, Option<u32>)]) -> Vec<UserCmd> {
    list.iter().map(|(tick, buttons)| UserCmd { tick: *tick, buttons: *buttons }).collect()
}

fn run_trigger(algo: &mut TriggerBot, log: &Vec<ConsoleCmd>) -> Vec<tf2_demo_player::triggerbot::AttackFlag> {
    algo.on_tick(Some("Recorder"), &names(), log)
}

#[test]
fn paired_attacks_never_flag() {
    let mut algo = TriggerBot::new();
    let log = cmds(&[
        (100, "+attack 45"),
        (120, "-attack 46"),
        (200, "+attack 47"),
        (220, "-attack 48"),
        (300, "+attack 49"),
        (320, "-attack 50"),
    ]);
    assert!(run_trigger(&mut algo, &log).is_empty());
}

#[test]
fn double_attack_flags_recorder() {
    let mut algo = TriggerBot::new();
    let log = cmds(&[(100, "+attack 45"), (101, "+jump 4"), (102, "+attack 46")]);
    let detections = run_trigger(&mut algo, &log);
    assert_eq!(detections.len(), 1);
    assert_eq!(detections[0].tick, 102);
    assert_eq!(detections[0].player, recorder_id());
    assert_eq!(detections[0].held, 2);
}

#[test]
fn trailing_number_is_not_part_of_the_command() {
    let mut algo = TriggerBot::new();
    let log = cmds(&[(100, "+attack2 108"), (110, "-attack2 109")]);
    assert!(run_trigger(&mut algo, &log).is_empty());
}

#[test]
fn repeated_ticks_do_not_reprocess_commands() {
    let mut algo = TriggerBot::new();
    let log = cmds(&[(100, "+attack 45"), (101, "+attack 46")]);
    assert_eq!(run_trigger(&mut algo, &log).len(), 1);
    assert_eq!(run_trigger(&mut algo, &log).len(), 0);
    assert!(algo.finish().is_empty());
}

#[test]
fn triggerbot_release_never_goes_negative() {
    let mut algo = TriggerBot::new();
    let log = cmds(&[(1, "-attack"), (2, "-attack"), (3, "+attack"), (4, "+attack 9")]);
    let flags = run_trigger(&mut algo, &log);
    assert_eq!(flags.len(), 1);
    assert_eq!(flags[0].tick, 4);
    assert_eq!(flags[0].command, "+attack 9");
    assert_eq!(algo.attack_depth(), 2);
}

#[test]
fn triggerbot_unknown_recorder_is_player_zero() {
    let mut algo = TriggerBot::new();
    let log = cmds(&[(5, "+attack"), (6, "+attack")]);
    let flags = algo.on_tick(Some("Somebody else"), &names(), &log);
    assert_eq!(flags.len(), 1);
    assert_eq!(flags[0].player, 0);
    assert_eq!(algo.algorithm_name(), "triggerbot");
}

#[test]
fn commands_are_classified_by_first_token() {
    assert_eq!(classify_command("  +attack\t12"), AttackCmd::Press);
    assert_eq!(classify_command("-attack"), AttackCmd::Release);
    assert_eq!(classify_command("+attack2"), AttackCmd::Other);
    assert_eq!(classify_command(""), AttackCmd::Other);
    assert_eq!(classify_command("say +attack"), AttackCmd::Other);
}

fn run_fire(algo: &mut FireWindow, tick: u32, log: &Vec<ConsoleCmd>, users: &Vec<UserCmd>) -> Vec<tf2_demo_player::firewindow::FireFlag> {
    algo.on_tick(tick, Some("Recorder"), &names(), log, users)
}

#[test]
fn button_span_inside_console_window_is_ignored() {
    let mut algo = FireWindow::new();
    let log = cmds(&[(100, "+attack 45"), (200, "-attack 46")]);
    let users = usercmds(&[(100, Some(1)), (200, Some(0))]);
    assert!(run_fire(&mut algo, 100, &log, &users).is_empty());
    assert!(run_fire(&mut algo, 250, &log, &Vec::new()).is_empty());
}

#[test]
fn button_span_without_console_command_flags() {
    let mut algo = FireWindow::new();
    let log = Vec::new();
    let users = usercmds(&[(100, Some(1)), (200, Some(0))]);
    assert!(run_fire(&mut algo, 100, &log, &users).is_empty());
    let detections = run_fire(&mut algo, 250, &log, &Vec::new());
    assert_eq!(detections.len(), 1);
    assert_eq!(detections[0].start, 100);
    assert_eq!(algo.algorithm_name(), "firewindow");
    assert_eq!(detections[0].player, recorder_id());
}

#[test]
fn press_within_tolerance_of_span_still_explains() {
    let mut algo = FireWindow::new();
    let users = usercmds(&[(100, Some(1)), (200, Some(0))]);
    let log = cmds(&[(108, "+attack 45"), (210, "-attack 46")]);
    assert!(run_fire(&mut algo, 250, &log, &users).is_empty());
}

#[test]
fn press_far_after_the_span_flags() {
    let mut algo = FireWindow::new();
    let users = usercmds(&[(100, Some(1)), (200, Some(0))]);
    assert!(run_fire(&mut algo, 205, &Vec::new(), &users).is_empty());
    let log = cmds(&[(300, "+attack 45"), (320, "-attack 46")]);
    assert_eq!(run_fire(&mut algo, 400, &log, &Vec::new()).len(), 1);
}

#[test]
fn still_held_at_demo_end_flags_in_finish() {
    let mut algo = FireWindow::new();
    let users = usercmds(&[(100, Some(1))]);
    assert!(run_fire(&mut algo, 100, &Vec::new(), &users).is_empty());
    let detections = algo.finish();
    assert_eq!(detections.len(), 1);
    assert_eq!(detections[0].start, 100);
    assert_eq!(detections[0].end, u32::MAX);
}

#[test]
fn console_commands_without_button_state_never_flag() {
    let mut algo = FireWindow::new();
    let log = cmds(&[(100, "+attack 45"), (200, "-attack 46")]);
    assert!(run_fire(&mut algo, 250, &log, &Vec::new()).is_empty());
}

#[test]
fn delta_encoded_buttons_keep_the_last_mask() {
    let mut algo = FireWindow::new();
    // The mask is only sent on the first usercmd; the following ones keep it held.
    let users = usercmds(&[(10, Some(3)), (11, None), (12, None), (20, Some(2))]);
    assert!(run_fire(&mut algo, 20, &Vec::new(), &users).is_empty());
    let flags = run_fire(&mut algo, 29, &Vec::new(), &Vec::new());
    assert_eq!(flags.len(), 1);
    assert_eq!((flags[0].start, flags[0].end, flags[0].tolerance), (10, 20, 8));
}

#[test]
fn tolerance_setting_widens_the_window() {
    let mut algo = FireWindow::new();
    algo.set_tolerance(50);
    assert_eq!(algo.tolerance(), 50);
    let users = usercmds(&[(100, Some(1)), (200, Some(0))]);
    let log = cmds(&[(240, "+attack"), (260, "-attack")]);
    assert!(run_fire(&mut algo, 300, &log, &users).is_empty());
}
