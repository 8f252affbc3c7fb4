use vstd::prelude::*;
use vstd::string::*;

use crate::timed_cache::{cache_lookup, TimedCache};

verus! {

/// How long a player lookup stays cached: 30 seconds, in milliseconds.
pub const CACHE_TTL_MS: u64 = 30_000;

/// How many Hypixel API requests may be in flight at once.
pub const MAX_CONCURRENT_REQUESTS: usize = 2;

/// The HTTP status with which the Mojang API answers an unknown username.
pub const HTTP_NOT_FOUND: u16 = 404;

/// The Mojang API address that resolves `username` to a profile.
pub fn mojang_profile_url(username: &str) -> (url: String)
    ensures
        url@ == "https://api.mojang.com/users/profiles/minecraft/"@ + username@,
{
    let mut url = String::from_str("https://api.mojang.com/users/profiles/minecraft/");
    url.append(username);
    url
}

/// The Hypixel API address of the player with `uuid`.
pub fn hypixel_player_url(uuid: &str) -> (url: String)
    ensures
        url@ == "https://api.hypixel.net/v2/player?uuid="@ + uuid@,
{
    let mut url = String::from_str("https://api.hypixel.net/v2/player?uuid=");
    url.append(uuid);
    url
}

/// The request header that carries the Hypixel API key.
pub fn api_key_header() -> (name: &'static str)
    ensures
        name@ == "API-Key"@,
{
    "API-Key"
}

/// The error a username lookup ends with for a Mojang reply status:
/// `404` means there is no such user; any other status goes on to reading
/// the reply.
pub fn mojang_lookup_error(status: u16, username: &str) -> (error: Option<String>)
    ensures
        status == HTTP_NOT_FOUND ==> (error matches Some(e) && e@ == "Minecraft user '"@
            + username@ + "' not found"@),
        status != HTTP_NOT_FOUND ==> error is None,
{
    if status == HTTP_NOT_FOUND {
        let mut e = String::from_str("Minecraft user '");
        e.append(username);
        e.append("' not found");
        Some(e)
    } else {
        None
    }
}

/// What a player lookup does next.
pub enum PlayerLookup<'a, V> {
    /// A fresh cached result: answer with it, without asking the API.
    Cached(&'a V),
    /// Nothing fresh is cached: fetch from this address, then cache the result.
    Fetch(String),
}

/// The first step of a player lookup: a result cached less than the cache's
/// time-to-live ago is answered from the cache; otherwise the player is
/// fetched from the Hypixel API.
pub fn plan_player_lookup<'a, V>(cache: &'a TimedCache<V>, uuid: &str, now_ms: u64) -> (step:
    PlayerLookup<'a, V>)
    ensures
        cache_lookup(cache.stored(), cache.ttl(), uuid@, now_ms) matches Some(v) ==> step
            == PlayerLookup::Cached(&v),
        cache_lookup(cache.stored(), cache.ttl(), uuid@, now_ms) is None ==> (step matches PlayerLookup::Fetch(
            url,
        ) && url@ == "https://api.hypixel.net/v2/player?uuid="@ + uuid@),
{
    match cache.get(uuid, now_ms) {
        Some(v) => PlayerLookup::Cached(v),
        None => PlayerLookup::Fetch(hypixel_player_url(uuid)),
    }
}

} // verus!
