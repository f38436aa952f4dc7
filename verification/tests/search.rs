use tf2_demo_player::search::{
    aggregate_players, build_name_lookup, matches_search, search_players, steam3_to_id64,
    PlayerAggregate,
};
use tf2_demo_player::steamid::{fits_steamid64, steam3_account_of, steamid_32_to_64};

#[test]
fn steam3_ids_convert_to_steamid64() {
    assert_eq!(steam3_to_id64("[U:1:12345678]"), Some(76561197972611406));
    assert_eq!(steam3_to_id64("[U:1:0]"), Some(76561197960265728));
    assert_eq!(steam3_to_id64("not an id"), None);
    assert_eq!(steamid_32_to_64("[U:1:12345678]"), Some("76561197972611406".to_string()));
}

#[test]
fn index_names_keep_the_first_and_inspection_overrides() {
    let index = vec![
        ("Alice".to_string(), "[U:1:1]".to_string()),
        ("Alias".to_string(), "[U:1:1]".to_string()),
        ("".to_string(), "[U:1:2]".to_string()),
        ("Bob".to_string(), "[U:1:3]".to_string()),
        ("Nobody".to_string(), "garbage".to_string()),
    ];
    let inspection = vec![
        (Some("[U:1:3]".to_string()), Some("Robert".to_string())),
        (Some("[U:1:4]".to_string()), Some("".to_string())),
        (None, Some("Ghost".to_string())),
        (Some("[U:1:5]".to_string()), Some("Eve".to_string())),
    ];
    let lookup = build_name_lookup(&index, &inspection);
    assert_eq!(lookup.len(), 3);
    assert_eq!(lookup.get(&76561197960265729).map(|s| s.as_str()), Some("Alice"));
    assert_eq!(lookup.get(&76561197960265730), None);
    assert_eq!(lookup.get(&76561197960265731).map(|s| s.as_str()), Some("Robert"));
    assert_eq!(lookup.get(&76561197960265732), None);
    assert_eq!(lookup.get(&76561197960265733).map(|s| s.as_str()), Some("Eve"));
}

fn aggregate() -> PlayerAggregate {
    PlayerAggregate {
        steamid: "[U:1:12345678]".to_string(),
        steamid64: Some("76561197972611406".to_string()),
        names: vec!["CoolGuy".to_string(), "xX_Sniper_Xx".to_string()],
        demos: vec!["a.dem".to_string()],
    }
}

#[test]
fn search_matches_names_ignoring_case() {
    assert!(matches_search(&aggregate(), "coolguy"));
    assert!(matches_search(&aggregate(), "SNIPER"));
    assert!(!matches_search(&aggregate(), "pyro"));
}

#[test]
fn search_matches_ids_and_empty_text() {
    assert!(matches_search(&aggregate(), ""));
    assert!(matches_search(&aggregate(), "u:1:1234"));
    assert!(matches_search(&aggregate(), "7656119797261"));
    let mut no64 = aggregate();
    no64.steamid64 = None;
    assert!(!matches_search(&no64, "7656119797261"));
}

fn demo(file: &str, players: &[(&str, &str)]) -> (String, Vec<(String, String)>) {
    (
        file.to_string(),
        players.iter().map(|(n, s)| (n.to_string(), s.to_string())).collect(),
    )
}

fn strings(v: &[&str]) -> Vec<String> {
    v.iter().map(|s| s.to_string()).collect()
}

#[test]
fn players_are_aggregated_across_demos() {
    let demos = vec![
        demo("b.dem", &[("Zed", "[U:1:1]"), ("Amy", "[U:1:2]")]),
        demo("a.dem", &[("Zed", "[U:1:1]"), ("Ace", "[U:1:1]"), ("Bob", "[U:1:3]")]),
        demo("c.dem", &[("Zed", "[U:1:1]"), ("Amy", "[U:1:2]"), ("Amy", "[U:1:2]")]),
    ];
    let aggs = aggregate_players(&demos);
    assert_eq!(aggs.len(), 3);
    assert_eq!(aggs[0].steamid, "[U:1:1]");
    assert_eq!(aggs[0].steamid64.as_deref(), Some("76561197960265729"));
    assert_eq!(aggs[0].names, strings(&["Ace", "Zed"]));
    assert_eq!(aggs[0].demos, strings(&["a.dem", "b.dem", "c.dem"]));
    assert_eq!(aggs[1].steamid, "[U:1:2]");
    assert_eq!(aggs[1].names, strings(&["Amy"]));
    assert_eq!(aggs[1].demos, strings(&["b.dem", "c.dem"]));
    assert_eq!(aggs[2].steamid, "[U:1:3]");
    assert_eq!(aggs[2].demos, strings(&["a.dem"]));
}

#[test]
fn aggregating_nothing_gives_nothing() {
    assert!(aggregate_players(&Vec::new()).is_empty());
    assert!(aggregate_players(&vec![demo("x.dem", &[])]).is_empty());
}

#[test]
fn a_search_counts_all_matches_and_lists_at_most_two_hundred() {
    let mut aggs = Vec::new();
    for i in 0..250 {
        aggs.push(PlayerAggregate {
            steamid: format!("[U:1:{}]", i),
            steamid64: None,
            names: vec![if i % 2 == 0 { "even".to_string() } else { "odd".to_string() }],
            demos: vec![],
        });
    }
    let (count, shown) = search_players(&aggs, "EVEN");
    assert_eq!(count, 125);
    assert_eq!(shown.len(), 125);
    assert_eq!(shown[1], 2);
    let (all, shown_all) = search_players(&aggs, "");
    assert_eq!(all, 250);
    assert_eq!(shown_all.len(), 200);
    assert_eq!(shown_all[199], 199);
    assert_eq!(search_players(&aggs, "nobody"), (0, vec![]));
}

#[test]
fn only_accounts_that_fit_convert() {
    assert!(fits_steamid64("[U:1:12345678]"));
    assert!(fits_steamid64("not an id"));
    assert!(fits_steamid64("[U:1:18370182875749285887]"));
    assert!(!fits_steamid64("[U:1:18370182875749285888]"));
    assert_eq!(steam3_account_of("[U:1:12345678]]"), Some(12345678));
    assert_eq!(steam3_account_of("[U:1]"), None);
    assert_eq!(steam3_account_of("[U:1:x]"), None);
}
