use tf2_demo_player::steam_library::library_folders;

#[test]
fn library_paths_are_read_in_order_and_unescaped() {
    let vdf = "\"libraryfolders\"\n{\n\t\"0\"\n\t{\n\t\t\"path\"\t\t\"C:\\\\Program Files (x86)\\\\Steam\"\n\t\t\"label\"\t\t\"\"\n\t}\n\t\"1\"\n\t{\n\t\t\"path\"\t\t\"/home/u/games\"\n\t}\n}\n";
    assert_eq!(
        library_folders(vdf),
        vec!["C:\\Program Files (x86)\\Steam".to_string(), "/home/u/games".to_string()]
    );
}

#[test]
fn a_path_runs_to_the_last_quote_of_its_line() {
    assert_eq!(library_folders("\"path\" \"a\" \"b\"\n\"path\" \"c\""), vec!["a\" \"b", "c"]);
    assert_eq!(library_folders("\"path\"\n\n  \"x\""), vec!["x"]);
}

#[test]
fn malformed_paths_are_skipped() {
    assert!(library_folders("\"path\"\"x\"").is_empty());
    assert!(library_folders("\"path\" \"\"").is_empty());
    assert!(library_folders("\"path\" \"x\nmore\"").is_empty());
    assert!(library_folders("").is_empty());
}
