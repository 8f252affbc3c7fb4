use bedwars_bot::stats_card::{
    fetch_failure_card, not_registered_message, stats_card, FAILURE_COLOUR, STATS_COLOUR,
};
use bedwars_bot::text::{
    chars_of, contains_chars, decimal_string, join_with_newlines, lex_less, same_text, sort_lines,
};

#[test]
fn not_registered() {
    assert_eq!(
        not_registered_message("alice"),
        "alice is not registered. Use `/register` to link a Minecraft account."
    );
}

#[test]
fn stats_card_fields() {
    let card = stats_card("alice", "uuid-1", 0, 12345, u64::MAX, "17");
    assert_eq!(card.title, "Bedwars Stats — alice");
    assert_eq!(card.colour, STATS_COLOUR);
    assert_eq!(card.colour, 0x00BFFF);
    assert!(card.description.is_none());
    let fields: Vec<(String, String, bool)> =
        card.fields.iter().map(|f| (f.name.clone(), f.value.clone(), f.inline)).collect();
    assert_eq!(
        fields,
        vec![
            ("Wins".to_string(), "0".to_string(), true),
            ("Kills".to_string(), "12345".to_string(), true),
            ("Beds Broken".to_string(), "18446744073709551615".to_string(), true),
            ("Points".to_string(), "17".to_string(), false),
        ]
    );
    assert_eq!(card.footer, "UUID: uuid-1");
}

#[test]
fn failure_card() {
    let card = fetch_failure_card("bob", "uuid-2", "timed out", "3");
    assert_eq!(card.title, "Stats — bob");
    assert_eq!(card.colour, FAILURE_COLOUR);
    assert_eq!(card.colour, 0xFF4444);
    assert_eq!(card.description.as_deref(), Some("Could not fetch Hypixel stats: timed out\n\n**Points:** 3"));
    assert!(card.fields.is_empty());
    assert_eq!(card.footer, "UUID: uuid-2");
}

#[test]
fn decimal_rendering() {
    for n in [0u64, 7, 10, 99, 100, 1_000_000, u64::MAX] {
        assert_eq!(decimal_string(n), n.to_string());
    }
}

#[test]
fn text_order_and_search() {
    assert!(lex_less("a", "b"));
    assert!(lex_less("ab", "abc"));
    assert!(!lex_less("abc", "ab"));
    assert!(!lex_less("a", "a"));
    assert!(lex_less("Z", "a"));
    assert!(lex_less("z", "é"));
    assert!(same_text("héllo", "héllo"));
    assert!(!same_text("hello", "hellO"));
    let hay = chars_of("beds_broken");
    assert!(contains_chars(&hay, &chars_of("broke")));
    assert!(contains_chars(&hay, &chars_of("")));
    assert!(!contains_chars(&hay, &chars_of("bed_")));
    assert!(!contains_chars(&chars_of("ab"), &chars_of("abc")));
}

#[test]
fn sorting_and_joining() {
    let lines: Vec<String> = ["pear", "Apple", "pea", "apple", "pea"].iter().map(|s| s.to_string()).collect();
    let sorted = sort_lines(&lines);
    let mut expected = lines.clone();
    expected.sort();
    assert_eq!(sorted, expected);
    assert_eq!(join_with_newlines(&sorted), "Apple\napple\npea\npea\npear");
    assert_eq!(join_with_newlines(&Vec::new()), "");
}
