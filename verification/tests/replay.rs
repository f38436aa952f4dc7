use tf2_demo_player::text::escape_csv;
use tf2_demo_player::demo::{
    recon_filename, replay_entry, replay_file_name, replay_index, replay_record_time, timestamp_text,
};

#[test]
fn replay_entries_follow_the_replay_browser_format() {
    let (date, time) = replay_record_time(2024, 3, 15, 13, 45, 30);
    assert_eq!(date, 14 + (2 << 5) + (15 << 9));
    assert_eq!(time, 13 + (45 << 5) + (30 << 11));
    let text = replay_entry(1234, "cp_process_final", "Final push", "match.dem", "1800.5", date, time);
    let expected = format!(
        "replay_1234\n{{\n\t\"handle\"\t\"1234\"\n\t\"map\"\t\"cp_process_final\"\n\t\"complete\"\t\"1\"\n\
         \t\"title\"\t\"Final push\"\n\t\"recon_filename\"\t\"match.dem\"\n\t\"spawn_tick\"\t\"-1\"\n\
         \t\"death_tick\"\t\"-1\"\n\t\"status\"\t\"3\"\n\t\"length\"\t\"1800.5\"\n\t\"record_time\"\n\
         \t{{\n\t\t\"date\"\t\"{date}\"\n\t\t\"time\"\t\"{time}\"\n\t}}\n}}\n"
    );
    assert_eq!(text, expected);
}

#[test]
fn replay_files_are_named_by_handle() {
    assert_eq!(replay_file_name(0), "replay_0.dmx");
    assert_eq!(replay_file_name(2147483646), "replay_2147483646.dmx");
    assert_eq!(replay_index(), "\"root\"\n{\n\t\"version\"\t\"0\"\n}");
}

#[test]
fn replay_entries_name_their_demo() {
    let entry = replay_entry(7, "koth_viaduct", "t", "match 2.dem", "12.5", 1, 2);
    assert_eq!(recon_filename(&entry), Some("match 2.dem".to_string()));
    assert_eq!(recon_filename("\"recon_filename\" \t \"x.dem\" trailing"), Some("x.dem".to_string()));
    assert_eq!(recon_filename("recon_filename\"  \"unterminated"), Some("unterminated".to_string()));
    assert_eq!(recon_filename("recon_filename\"\"x.dem\""), None);
    assert_eq!(recon_filename("recon_filename\" \"\" recon_filename\" \"b.dem\""), Some("b.dem".to_string()));
    assert_eq!(recon_filename("no key here"), None);
}

#[test]
fn play_times_show_hours_only_when_there_are_some() {
    assert_eq!(timestamp_text(0, 5, 7), "05:07");
    assert_eq!(timestamp_text(1, 0, 59), "01:00:59");
    assert_eq!(timestamp_text(123, 45, 6), "123:45:06");
}

#[test]
fn csv_fields_are_quoted_with_quotes_doubled() {
    assert_eq!(escape_csv("plain"), "\"plain\"");
    assert_eq!(escape_csv("say \"hi\""), "\"say \"\"hi\"\"\"");
    assert_eq!(escape_csv(""), "\"\"");
}
