use bedwars_bot::stat_config::{AddOutcome, StatConfig};

fn rate(x: f64) -> u64 {
    x.to_bits()
}

#[test]
fn add_new_stat_then_refuse_duplicate() {
    let mut config = StatConfig::new();
    assert!(config.is_empty());
    assert_eq!(config.add_stat("wins_bedwars".to_string(), rate(2.5)), AddOutcome::Added);
    assert_eq!(config.rate_of("wins_bedwars"), Some(rate(2.5)));
    assert_eq!(
        config.add_stat("wins_bedwars".to_string(), rate(9.0)),
        AddOutcome::AlreadyConfigured { xp_per_unit: rate(2.5) }
    );
    assert_eq!(config.rate_of("wins_bedwars"), Some(rate(2.5)));
    assert!(!config.is_empty());
}

#[test]
fn edit_only_configured_stats() {
    let mut config = StatConfig::new();
    assert_eq!(config.edit_stat("kills_bedwars".to_string(), rate(1.0)), None);
    assert!(!config.contains_stat("kills_bedwars"));
    config.add_stat("kills_bedwars".to_string(), rate(1.0));
    assert_eq!(config.edit_stat("kills_bedwars".to_string(), rate(3.0)), Some(rate(1.0)));
    assert_eq!(config.rate_of("kills_bedwars"), Some(rate(3.0)));
    assert_eq!(config.stat_names(), vec!["kills_bedwars".to_string()]);
}

#[test]
fn remove_reports_previous_rate() {
    let mut config = StatConfig::new();
    config.add_stat("a".to_string(), rate(1.0));
    config.add_stat("b".to_string(), rate(2.0));
    assert_eq!(config.remove_stat("a"), Some(rate(1.0)));
    assert_eq!(config.remove_stat("a"), None);
    assert!(!config.contains_stat("a"));
    assert_eq!(config.rate_of("b"), Some(rate(2.0)));
}

#[test]
fn add_then_remove_restores() {
    let mut config = StatConfig::from_entries(&vec![("x".to_string(), 7)]);
    config.add_stat("y".to_string(), 8);
    config.remove_stat("y");
    assert_eq!(config.stat_rates(), vec![("x".to_string(), 7)]);
}

#[test]
fn from_entries_later_rate_wins() {
    let config = StatConfig::from_entries(&vec![
        ("a".to_string(), 1),
        ("b".to_string(), 2),
        ("a".to_string(), 3),
    ]);
    let mut pairs = config.stat_rates();
    pairs.sort();
    assert_eq!(pairs, vec![("a".to_string(), 3), ("b".to_string(), 2)]);
    let mut names = config.stat_names();
    names.sort();
    assert_eq!(names, vec!["a".to_string(), "b".to_string()]);
}

#[test]
fn names_compare_exactly() {
    let mut config = StatConfig::new();
    config.add_stat("Wins".to_string(), 1);
    assert!(!config.contains_stat("wins"));
    assert!(!config.contains_stat("Win"));
    assert!(config.contains_stat("Wins"));
}
