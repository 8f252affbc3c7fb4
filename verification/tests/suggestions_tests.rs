use bedwars_bot::stat_config::StatConfig;
use bedwars_bot::suggestions::{
    autocomplete_any_stat, autocomplete_configured_stat, discord_stat_names, select_suggestions,
    MAX_SUGGESTIONS,
};

fn strings(items: &[&str]) -> Vec<String> {
    items.iter().map(|s| s.to_string()).collect()
}

#[test]
fn short_query_gets_no_suggestions() {
    let known = strings(&["wins_bedwars"]);
    assert!(autocomplete_any_stat(&known, "w").is_empty());
    assert!(autocomplete_any_stat(&known, "").is_empty());
}

#[test]
fn two_byte_single_character_query_is_long_enough() {
    // "é" is one character but two bytes, so it is searched for.
    let known = strings(&["café_visits", "wins_bedwars"]);
    assert_eq!(autocomplete_any_stat(&known, "é"), strings(&["café_visits"]));
}

#[test]
fn any_stat_matches_case_insensitively_sorted_without_repeats() {
    let known = strings(&["wins_bedwars", "Kills_Bedwars", "wins_bedwars", "beds_broken_bedwars", "coins"]);
    let got = autocomplete_any_stat(&known, "BED");
    // Sorted by character value: uppercase before lowercase.
    assert_eq!(got, strings(&["Kills_Bedwars", "beds_broken_bedwars", "wins_bedwars"]));
}

#[test]
fn any_stat_offers_discord_stat_names() {
    let known = strings(&["wins_bedwars"]);
    assert_eq!(autocomplete_any_stat(&known, "_se"), strings(&["messages_sent"]));
    assert_eq!(
        autocomplete_any_stat(&known, "ed"),
        strings(&["commands_used", "reactions_added", "wins_bedwars"])
    );
}

#[test]
fn any_stat_caps_at_twenty_five() {
    let known: Vec<String> = (0..30).rev().map(|i| format!("stat_{:02}", i)).collect();
    let got = autocomplete_any_stat(&known, "stat");
    assert_eq!(got.len(), MAX_SUGGESTIONS);
    let expected: Vec<String> = (0..25).map(|i| format!("stat_{:02}", i)).collect();
    assert_eq!(got, expected);
}

#[test]
fn discord_stat_names_in_order() {
    assert_eq!(discord_stat_names(), strings(&["messages_sent", "reactions_added", "commands_used"]));
}

#[test]
fn select_uses_the_lowercase_column() {
    let candidates = strings(&["Beta", "alpha", "Gamma", "alpha"]);
    let lowered = strings(&["beta", "alpha", "gamma", "alpha"]);
    assert_eq!(select_suggestions(&candidates, &lowered, "a"), strings(&["Beta", "Gamma", "alpha"]));
    assert_eq!(select_suggestions(&candidates, &lowered, "mm"), strings(&["Gamma"]));
    assert!(select_suggestions(&candidates, &lowered, "z").is_empty());
}

#[test]
fn configured_stat_suggestions() {
    let config = StatConfig::from_entries(&vec![
        ("wins_bedwars".to_string(), 1),
        ("final_kills_bedwars".to_string(), 2),
        ("messages_sent".to_string(), 3),
    ]);
    assert_eq!(
        autocomplete_configured_stat(&config, "BEDWARS"),
        strings(&["final_kills_bedwars", "wins_bedwars"])
    );
    assert!(autocomplete_configured_stat(&config, "x").is_empty());
    assert!(autocomplete_configured_stat(&config, "coins").is_empty());
}
