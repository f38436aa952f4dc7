use tf2_demo_player::report::{
    clean_key, detail_block, detections_subtitle, full_report, player_report, summary, truncate_chars,
    ReportedDetection, ReportedPlayer,
};

fn pairs(list: &[(&str, &str)]) -> Vec<(String, String)> {
    list.iter().map(|(k, v)| (k.to_string(), v.to_string())).collect()
}

fn detection(tick: u32, algorithm: &str, list: &[(&str, &str)]) -> ReportedDetection {
    ReportedDetection { tick, algorithm: algorithm.to_string(), pairs: pairs(list) }
}

#[test]
fn oob_pitch_shows_its_angle() {
    let block = detail_block(&pairs(&[("pitch", "90"), ("valve_server", "yes")]));
    assert_eq!(block, "pitch: 90\nvalve_server: yes");
}

#[test]
fn angle_repeat_shows_every_delta() {
    let block = detail_block(&pairs(&[
        ("1_2_delta", "0.028"),
        ("1_3_delta", "0"),
        ("angle_1", "12.5"),
        ("angle_2", "12.528"),
        ("angle_3", "12.5"),
        ("ratio", "3.4"),
    ]));
    for needed in ["1_2_delta: 0.028", "1_3_delta: 0", "ratio: 3.4", "angle_2: 12.528"] {
        assert!(block.contains(needed), "{needed:?} missing from:\n{block}");
    }
}

#[test]
fn a_payload_with_no_fields_says_so_instead_of_looking_broken() {
    assert!(detail_block(&vec![]).contains("no extra data"));
    assert_eq!(summary(&vec![]), "no extra data");
}

#[test]
fn the_copied_report_carries_the_numbers_not_just_the_tick() {
    let report = player_report(
        76561198000000000,
        Some("someone"),
        &vec![
            detection(1234, "nocrex_oob_pitch", &[("pitch", "90")]),
            detection(1240, "nocrex_angle_repeat", &[("1_2_delta", "0.028")]),
        ],
    );
    assert!(report.contains("76561198000000000 (someone) - 2 detection(s)"));
    assert!(report.contains("tick 1234  nocrex_oob_pitch"));
    assert!(report.contains("    pitch: 90"));
    assert!(report.contains("tick 1240  nocrex_angle_repeat"));
    assert!(report.contains("    1_2_delta: 0.028"));
}

#[test]
fn copy_all_covers_every_flagged_player() {
    let players = vec![
        ReportedPlayer {
            steamid64: 1,
            name: Some("a".to_string()),
            detections: vec![detection(10, "x", &[("v", "1")])],
        },
        ReportedPlayer { steamid64: 2, name: None, detections: vec![detection(20, "y", &[("v", "2")])] },
    ];
    let report = full_report("demo.dem", &players);
    assert!(report.starts_with("Cheater detection - demo.dem\n2 player(s) flagged"));
    assert!(report.contains("1 (a) - 1 detection(s)"));
    assert!(report.contains("\n2 - 1 detection(s)"));
    assert!(report.contains("v: 1") && report.contains("v: 2"));
}

#[test]
fn the_collapsed_summary_stays_short() {
    let deltas: Vec<String> = (0..200).map(|i| format!("{:.4}", i as f64 / 7.0)).collect();
    let data = pairs(&[("deltas", &format!("[{}]", deltas.join(", ")))]);
    let line = summary(&data);
    assert!(line.chars().count() <= 96, "summary was {} chars", line.chars().count());
    assert!(detail_block(&data).len() > line.len());
}

#[test]
fn ordering_padding_is_stripped_but_ordering_is_kept() {
    let keys = ["angle_attacker", "\u{200b}angle_victim", "\u{200b}\u{200b}angle_diff"];
    let cleaned: Vec<String> = keys.iter().map(|k| clean_key(k)).collect();
    assert_eq!(cleaned, vec!["angle_attacker", "angle_victim", "angle_diff"]);
    let data = vec![
        (cleaned[0].clone(), "179.12".to_string()),
        (cleaned[1].clone(), "154.83".to_string()),
        (cleaned[2].clone(), "24.28".to_string()),
    ];
    let block = detail_block(&data);
    assert!(!block.contains('\u{200b}'), "zero-width space survived into the output");
    assert!(block.contains("angle_diff: 24.28"));
}

#[test]
fn summaries_show_three_pairs_and_mark_the_rest() {
    let line = summary(&pairs(&[("a", "1"), ("b", "2"), ("c", "3"), ("d", "4")]));
    assert_eq!(line, "a 1  \u{b7}  b 2  \u{b7}  c 3  \u{b7}  ...");
    assert_eq!(summary(&pairs(&[("a", "1")])), "a 1");
}

#[test]
fn truncation_marks_the_cut() {
    assert_eq!(truncate_chars("abcdef", 4), "abc\u{2026}");
    assert_eq!(truncate_chars("abc", 4), "abc");
    assert_eq!(truncate_chars("abc", 0), "\u{2026}");
}

#[test]
fn long_rows_say_they_show_only_the_first_detections() {
    assert_eq!(detections_subtitle(3), "3 detection(s)");
    assert_eq!(detections_subtitle(200), "200 detection(s)");
    assert_eq!(
        detections_subtitle(201),
        "201 detection(s) - showing the first 200, use Copy detections for the rest"
    );
}
