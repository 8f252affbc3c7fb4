use vstd::prelude::*;
use vstd::string::*;

use crate::text::{contains_infix, join_lines, join_with_newlines, sort_lines, sorted_lines, views};

verus! {

/// Whether `user_id` is one of the configured bot administrators.
pub fn is_admin(admin_user_ids: &Vec<u64>, user_id: u64) -> (admin: bool)
    ensures
        admin <==> admin_user_ids@.contains(user_id),
{
    let mut i: usize = 0;
    while i < admin_user_ids.len()
        invariant
            0 <= i <= admin_user_ids.len(),
            forall|j: int| 0 <= j < i ==> admin_user_ids@[j] != user_id,
        decreases admin_user_ids.len() - i,
    {
        if admin_user_ids[i] == user_id {
            return true;
        }
        i = i + 1;
    }
    false
}

/// How an `/edit-stats` subcommand starts.
#[derive(Debug, Clone, Copy, PartialEq, Eq, Structural)]
pub enum CommandGate {
    /// The invoker is no administrator: answer `StatReply::NoPermission` and stop.
    Denied,
    /// The command was not used in a server: fail with `guild_only_message()`.
    NotInGuild,
    /// Go on with the guild's configuration, stored under this key.
    Proceed { guild_key: i64 },
}

/// The checks every `/edit-stats` subcommand makes first: the invoker must
/// be an administrator, then the command must come from a server, whose id
/// is the key (the id's bits read as `i64`) under which its row is stored.
pub fn admin_command_gate(admin_user_ids: &Vec<u64>, invoker: u64, guild_id: Option<u64>) -> (gate:
    CommandGate)
    ensures
        !admin_user_ids@.contains(invoker) ==> gate == CommandGate::Denied,
        admin_user_ids@.contains(invoker) && guild_id is None ==> gate == CommandGate::NotInGuild,
        admin_user_ids@.contains(invoker) && guild_id is Some ==> gate == (CommandGate::Proceed {
            guild_key: guild_id->0 as i64,
        }),
{
    if !is_admin(admin_user_ids, invoker) {
        return CommandGate::Denied;
    }
    match guild_id {
        Some(id) => CommandGate::Proceed { guild_key: id as i64 },
        None => CommandGate::NotInGuild,
    }
}

/// The error with which a guild-only command fails outside a server.
pub fn guild_only_message() -> (message: String)
    ensures
        message@ == "This command can only be used in a server"@,
{
    String::from_str("This command can only be used in a server")
}

/// What an `/edit-stats` subcommand answers. Rates are given as the text
/// that `Display` writes for the rate.
#[derive(Debug, Clone)]
pub enum StatReply {
    NoPermission,
    AlreadyConfigured { stat: String, current: String },
    Added { stat: String, rate: String },
    NotConfiguredForEdit { stat: String },
    Updated { stat: String, previous: String, rate: String },
    NotConfigured { stat: String },
    Removed { stat: String },
    NothingConfigured,
}

/// The text of each reply.
pub open spec fn reply_text(reply: StatReply) -> Seq<char> {
    match reply {
        StatReply::NoPermission => "You do not have permission to use this command."@,
        StatReply::AlreadyConfigured { stat, current } => "Stat `"@ + stat@
            + "` is already configured ("@ + current@
            + " XP/unit). Use `/edit-stats edit` to change it."@,
        StatReply::Added { stat, rate } => "Added stat `"@ + stat@ + "` — **"@ + rate@
            + " XP** per unit."@,
        StatReply::NotConfiguredForEdit { stat } => "Stat `"@ + stat@
            + "` is not configured. Use `/edit-stats add` to add it."@,
        StatReply::Updated { stat, previous, rate } => "Updated `"@ + stat@ + "`: "@ + previous@
            + " XP/unit → **"@ + rate@ + " XP/unit**."@,
        StatReply::NotConfigured { stat } => "Stat `"@ + stat@ + "` is not configured."@,
        StatReply::Removed { stat } => "Removed `"@ + stat@
            + "` from XP configuration. Existing snapshots are preserved."@,
        StatReply::NothingConfigured => "No stats are currently configured for XP. Use `/edit-stats add` to add one."@,
    }
}

/// In the reply to an edit the old rate stands before the arrow and the new
/// rate at the end, whatever the two are.
pub proof fn lemma_updated_reply_order(stat: String, previous: String, rate: String)
    ensures
        ({
            let text = reply_text(StatReply::Updated { stat, previous, rate });
            let head = "Updated `"@ + stat@ + "`: "@ + previous@;
            let tail = rate@ + " XP/unit**."@;
            &&& text.len() >= head.len() + tail.len()
            &&& text.subrange(0, head.len() as int) == head
            &&& text.subrange(text.len() - tail.len(), text.len() as int) == tail
        }),
{
    let text = reply_text(StatReply::Updated { stat, previous, rate });
    let head = "Updated `"@ + stat@ + "`: "@ + previous@;
    let mid = " XP/unit → **"@;
    let tail = rate@ + " XP/unit**."@;
    assert(text =~= head + mid + tail);
    assert(text.subrange(0, head.len() as int) =~= head);
    assert(text.subrange(text.len() - tail.len(), text.len() as int) =~= tail);
}

/// In the reply to adding a stat that exists, the stat's name comes before
/// its current rate.
pub proof fn lemma_already_configured_reply_order(stat: String, current: String)
    ensures
        ({
            let text = reply_text(StatReply::AlreadyConfigured { stat, current });
            let head = "Stat `"@ + stat@ + "` is already configured ("@ + current@;
            &&& text.len() >= head.len()
            &&& text.subrange(0, head.len() as int) == head
        }),
{
    let text = reply_text(StatReply::AlreadyConfigured { stat, current });
    let head = "Stat `"@ + stat@ + "` is already configured ("@ + current@;
    assert(text =~= head + " XP/unit). Use `/edit-stats edit` to change it."@);
    assert(text.subrange(0, head.len() as int) =~= head);
}

/// Every reply about one stat names it between backquotes.
pub proof fn lemma_reply_names_stat(reply: StatReply)
    ensures
        ({
            let text = reply_text(reply);
            match reply {
                StatReply::AlreadyConfigured { stat, .. } | StatReply::Added { stat, .. }
                | StatReply::NotConfiguredForEdit { stat } | StatReply::Updated { stat, .. }
                | StatReply::NotConfigured { stat } | StatReply::Removed { stat } => contains_infix(
                    text,
                    "`"@ + stat@ + "`"@,
                ),
                _ => true,
            }
        }),
{
    reveal_strlit("`");
    reveal_strlit("Stat `");
    reveal_strlit("Added stat `");
    reveal_strlit("Updated `");
    reveal_strlit("Removed `");
    reveal_strlit("` is already configured (");
    reveal_strlit("` — **");
    reveal_strlit("` is not configured. Use `/edit-stats add` to add it.");
    reveal_strlit("`: ");
    reveal_strlit("` is not configured.");
    reveal_strlit("` from XP configuration. Existing snapshots are preserved.");
    let text = reply_text(reply);
    match reply {
        StatReply::AlreadyConfigured { stat, .. } | StatReply::NotConfiguredForEdit { stat }
        | StatReply::NotConfigured { stat } => {
            let needle = "`"@ + stat@ + "`"@;
            assert(text.subrange(5, 5 + needle.len() as int) =~= needle);
        },
        StatReply::Added { stat, .. } => {
            let needle = "`"@ + stat@ + "`"@;
            assert(text.subrange(11, 11 + needle.len() as int) =~= needle);
        },
        StatReply::Updated { stat, .. } | StatReply::Removed { stat } => {
            let needle = "`"@ + stat@ + "`"@;
            assert(text.subrange(8, 8 + needle.len() as int) =~= needle);
        },
        _ => {},
    }
}

impl StatReply {
    /// The message sent back to the invoker.
    pub fn text(&self) -> (text: String)
        ensures
            text@ == reply_text(*self),
    {
        match self {
            StatReply::NoPermission => String::from_str(
                "You do not have permission to use this command.",
            ),
            StatReply::AlreadyConfigured { stat, current } => {
                let mut t = String::from_str("Stat `");
                t.append(stat.as_str());
                t.append("` is already configured (");
                t.append(current.as_str());
                t.append(" XP/unit). Use `/edit-stats edit` to change it.");
                t
            },
            StatReply::Added { stat, rate } => {
                let mut t = String::from_str("Added stat `");
                t.append(stat.as_str());
                t.append("` — **");
                t.append(rate.as_str());
                t.append(" XP** per unit.");
                t
            },
            StatReply::NotConfiguredForEdit { stat } => {
                let mut t = String::from_str("Stat `");
                t.append(stat.as_str());
                t.append("` is not configured. Use `/edit-stats add` to add it.");
                t
            },
            StatReply::Updated { stat, previous, rate } => {
                let mut t = String::from_str("Updated `");
                t.append(stat.as_str());
                t.append("`: ");
                t.append(previous.as_str());
                t.append(" XP/unit → **");
                t.append(rate.as_str());
                t.append(" XP/unit**.");
                t
            },
            StatReply::NotConfigured { stat } => {
                let mut t = String::from_str("Stat `");
                t.append(stat.as_str());
                t.append("` is not configured.");
                t
            },
            StatReply::Removed { stat } => {
                let mut t = String::from_str("Removed `");
                t.append(stat.as_str());
                t.append("` from XP configuration. Existing snapshots are preserved.");
                t
            },
            StatReply::NothingConfigured => String::from_str(
                "No stats are currently configured for XP. Use `/edit-stats add` to add one.",
            ),
        }
    }
}

/// One line of the stat listing: `"{name}: {rate} XP/unit"`.
pub fn stat_line(stat: &str, rate: &str) -> (line: String)
    ensures
        line@ == stat@ + ": "@ + rate@ + " XP/unit"@,
{
    let mut line = String::from_str(stat);
    line.append(": ");
    line.append(rate);
    line.append(" XP/unit");
    line
}

/// The title of the stat listing.
pub fn listing_title() -> (title: String)
    ensures
        title@ == "Configured XP Stats"@,
{
    String::from_str("Configured XP Stats")
}

/// The embed colour of the stat listing.
pub const LISTING_COLOUR: u32 = 0x00BFFF;

/// The body of the stat listing: the lines sorted, one per row, in a code block.
pub fn listing_description(lines: &Vec<String>) -> (description: String)
    ensures
        description@ == "```\n"@ + join_lines(sorted_lines(views(lines@))) + "\n```"@,
{
    let sorted = sort_lines(lines);
    let body = join_with_newlines(&sorted);
    let mut description = String::from_str("```\n");
    description.append(body.as_str());
    description.append("\n```");
    description
}

} // verus!
