use vstd::prelude::*;
use vstd::string::*;

use crate::text::{decimal, decimal_string};

verus! {

/// The embed colour of a stats card.
pub const STATS_COLOUR: u32 = 0x00BFFF;

/// The embed colour of the card shown when the stats could not be fetched.
pub const FAILURE_COLOUR: u32 = 0xFF4444;

/// One field of an embed.
#[derive(Debug, Clone)]
pub struct CardField {
    pub name: String,
    pub value: String,
    pub inline: bool,
}

/// The content of a `/stats` embed.
#[derive(Debug, Clone)]
pub struct StatsCard {
    pub title: String,
    pub colour: u32,
    pub description: Option<String>,
    pub fields: Vec<CardField>,
    pub footer: String,
}

/// A field with this name, value and placement.
pub open spec fn field_is(f: CardField, name: Seq<char>, value: Seq<char>, inline: bool) -> bool {
    f.name@ == name && f.value@ == value && f.inline == inline
}

fn field(name: &str, value: String, inline: bool) -> (f: CardField)
    ensures
        field_is(f, name@, value@, inline),
{
    CardField { name: String::from_str(name), value, inline }
}

/// What `/stats` answers for a user who has not linked a Minecraft account.
pub fn not_registered_message(user_name: &str) -> (message: String)
    ensures
        message@ == user_name@ + " is not registered. Use `/register` to link a Minecraft account."@,
{
    let mut message = String::from_str(user_name);
    message.append(" is not registered. Use `/register` to link a Minecraft account.");
    message
}

fn uuid_footer(minecraft_uuid: &str) -> (footer: String)
    ensures
        footer@ == "UUID: "@ + minecraft_uuid@,
{
    let mut footer = String::from_str("UUID: ");
    footer.append(minecraft_uuid);
    footer
}

/// The `/stats` card: the user's Bedwars wins, kills and beds broken side by
/// side, the points (as displayed) below, and the Minecraft UUID in the footer.
pub fn stats_card(
    user_name: &str,
    minecraft_uuid: &str,
    wins: u64,
    kills: u64,
    beds_broken: u64,
    points: &str,
) -> (card: StatsCard)
    ensures
        card.title@ == "Bedwars Stats — "@ + user_name@,
        card.colour == STATS_COLOUR,
        card.description is None,
        card.fields@.len() == 4,
        field_is(card.fields@[0], "Wins"@, decimal(wins as nat), true),
        field_is(card.fields@[1], "Kills"@, decimal(kills as nat), true),
        field_is(card.fields@[2], "Beds Broken"@, decimal(beds_broken as nat), true),
        field_is(card.fields@[3], "Points"@, points@, false),
        card.footer@ == "UUID: "@ + minecraft_uuid@,
{
    let mut title = String::from_str("Bedwars Stats — ");
    title.append(user_name);
    let mut fields: Vec<CardField> = Vec::new();
    fields.push(field("Wins", decimal_string(wins), true));
    fields.push(field("Kills", decimal_string(kills), true));
    fields.push(field("Beds Broken", decimal_string(beds_broken), true));
    fields.push(field("Points", String::from_str(points), false));
    StatsCard {
        title,
        colour: STATS_COLOUR,
        description: None,
        fields,
        footer: uuid_footer(minecraft_uuid),
    }
}

/// The card `/stats` shows when the Hypixel lookup failed: the error and
/// the points (as displayed) in the description, the Minecraft UUID in the footer.
pub fn fetch_failure_card(user_name: &str, minecraft_uuid: &str, error: &str, points: &str) -> (card:
    StatsCard)
    ensures
        card.title@ == "Stats — "@ + user_name@,
        card.colour == FAILURE_COLOUR,
        card.description matches Some(d) && d@ == "Could not fetch Hypixel stats: "@ + error@
            + "\n\n**Points:** "@ + points@,
        card.fields@.len() == 0,
        card.footer@ == "UUID: "@ + minecraft_uuid@,
{
    let mut title = String::from_str("Stats — ");
    title.append(user_name);
    let mut description = String::from_str("Could not fetch Hypixel stats: ");
    description.append(error);
    description.append("\n\n**Points:** ");
    description.append(points);
    StatsCard {
        title,
        colour: FAILURE_COLOUR,
        description: Some(description),
        fields: Vec::new(),
        footer: uuid_footer(minecraft_uuid),
    }
}

} // verus!
