use vstd::prelude::*;

pub mod guild_commands;
pub mod hypixel;
pub mod keyed;
pub mod stat_config;
pub mod stats_card;
pub mod suggestions;
pub mod text;
pub mod timed_cache;

verus! {
} // verus!
