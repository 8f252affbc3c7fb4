use bedwars_bot::guild_commands::{
    admin_command_gate, guild_only_message, is_admin, listing_description, listing_title,
    stat_line, CommandGate, StatReply, LISTING_COLOUR,
};

#[test]
fn admin_membership() {
    let admins = vec![10u64, 20, 30];
    assert!(is_admin(&admins, 20));
    assert!(!is_admin(&admins, 21));
    assert!(!is_admin(&Vec::new(), 10));
}

#[test]
fn gate_checks_admin_before_guild() {
    let admins = vec![1u64];
    assert_eq!(admin_command_gate(&admins, 2, None), CommandGate::Denied);
    assert_eq!(admin_command_gate(&admins, 2, Some(5)), CommandGate::Denied);
    assert_eq!(admin_command_gate(&admins, 1, None), CommandGate::NotInGuild);
    assert_eq!(
        admin_command_gate(&admins, 1, Some(123456789012345678)),
        CommandGate::Proceed { guild_key: 123456789012345678 }
    );
    assert_eq!(admin_command_gate(&admins, 1, Some(u64::MAX)), CommandGate::Proceed { guild_key: -1 });
}

#[test]
fn guild_only_error() {
    assert_eq!(guild_only_message(), "This command can only be used in a server");
}

#[test]
fn reply_texts() {
    let s = |x: &str| x.to_string();
    assert_eq!(StatReply::NoPermission.text(), "You do not have permission to use this command.");
    assert_eq!(
        StatReply::AlreadyConfigured { stat: s("wins"), current: s("2.5") }.text(),
        "Stat `wins` is already configured (2.5 XP/unit). Use `/edit-stats edit` to change it."
    );
    assert_eq!(StatReply::Added { stat: s("wins"), rate: s("3") }.text(), "Added stat `wins` — **3 XP** per unit.");
    assert_eq!(
        StatReply::NotConfiguredForEdit { stat: s("wins") }.text(),
        "Stat `wins` is not configured. Use `/edit-stats add` to add it."
    );
    assert_eq!(
        StatReply::Updated { stat: s("wins"), previous: s("1"), rate: s("0.5") }.text(),
        "Updated `wins`: 1 XP/unit → **0.5 XP/unit**."
    );
    assert_eq!(StatReply::NotConfigured { stat: s("wins") }.text(), "Stat `wins` is not configured.");
    assert_eq!(
        StatReply::Removed { stat: s("wins") }.text(),
        "Removed `wins` from XP configuration. Existing snapshots are preserved."
    );
    assert_eq!(
        StatReply::NothingConfigured.text(),
        "No stats are currently configured for XP. Use `/edit-stats add` to add one."
    );
}

#[test]
fn listing_lines_are_sorted_as_text() {
    assert_eq!(stat_line("wins", "2.5"), "wins: 2.5 XP/unit");
    let lines = vec![stat_line("b", "1"), stat_line("a b", "2"), stat_line("a", "3")];
    // ' ' sorts before ':', so "a b: .." comes before "a: ..".
    assert_eq!(listing_description(&lines), "```\na b: 2 XP/unit\na: 3 XP/unit\nb: 1 XP/unit\n```");
    assert_eq!(listing_description(&Vec::new()), "```\n\n```");
    assert_eq!(listing_title(), "Configured XP Stats");
    assert_eq!(LISTING_COLOUR, 0x00BFFF);
}

#[test]
fn listing_keeps_equal_lines() {
    let lines = vec!["b".to_string(), "a".to_string(), "b".to_string()];
    assert_eq!(listing_description(&lines), "```\na\nb\nb\n```");
}
