use bedwars_bot::hypixel::{
    api_key_header, hypixel_player_url, mojang_lookup_error, mojang_profile_url, plan_player_lookup,
    PlayerLookup, CACHE_TTL_MS, MAX_CONCURRENT_REQUESTS,
};
use bedwars_bot::timed_cache::TimedCache;

#[test]
fn api_addresses() {
    assert_eq!(mojang_profile_url("Notch"), "https://api.mojang.com/users/profiles/minecraft/Notch");
    assert_eq!(
        hypixel_player_url("069a79f444e94726a5befca90e38aaf5"),
        "https://api.hypixel.net/v2/player?uuid=069a79f444e94726a5befca90e38aaf5"
    );
    assert_eq!(api_key_header(), "API-Key");
    assert_eq!(MAX_CONCURRENT_REQUESTS, 2);
    assert_eq!(CACHE_TTL_MS, 30_000);
}

#[test]
fn mojang_not_found_is_an_error() {
    assert_eq!(mojang_lookup_error(404, "ghost").as_deref(), Some("Minecraft user 'ghost' not found"));
    assert_eq!(mojang_lookup_error(200, "Notch"), None);
    assert_eq!(mojang_lookup_error(500, "Notch"), None);
}

#[test]
fn cache_read_after_write_within_ttl() {
    let mut cache: TimedCache<u32> = TimedCache::new(CACHE_TTL_MS);
    assert_eq!(cache.get("u1", 0), None);
    cache.insert("u1".to_string(), 7, 1_000);
    assert_eq!(cache.get("u1", 1_000), Some(&7));
    assert_eq!(cache.get("u1", 30_999), Some(&7));
    assert_eq!(cache.get("u1", 31_000), None);
    assert_eq!(cache.get("u1", 500), Some(&7));
    assert_eq!(cache.get("u2", 1_000), None);
}

#[test]
fn cache_insert_replaces_and_restarts_ttl() {
    let mut cache: TimedCache<String> = TimedCache::new(100);
    cache.insert("k".to_string(), "old".to_string(), 0);
    cache.insert("k".to_string(), "new".to_string(), 90);
    assert_eq!(cache.get("k", 150).map(|s| s.as_str()), Some("new"));
    assert_eq!(cache.get("k", 190), None);
}

#[test]
fn zero_ttl_never_hits() {
    let mut cache: TimedCache<u8> = TimedCache::new(0);
    cache.insert("k".to_string(), 1, 5);
    assert_eq!(cache.get("k", 5), None);
}

#[test]
fn player_lookup_uses_fresh_cache() {
    let mut cache: TimedCache<u64> = TimedCache::new(CACHE_TTL_MS);
    match plan_player_lookup(&cache, "abc", 0) {
        PlayerLookup::Fetch(url) => assert_eq!(url, "https://api.hypixel.net/v2/player?uuid=abc"),
        PlayerLookup::Cached(_) => panic!("nothing was cached"),
    }
    cache.insert("abc".to_string(), 42, 0);
    match plan_player_lookup(&cache, "abc", 29_999) {
        PlayerLookup::Cached(v) => assert_eq!(*v, 42),
        PlayerLookup::Fetch(_) => panic!("the entry is fresh"),
    }
    assert!(matches!(plan_player_lookup(&cache, "abc", 30_000), PlayerLookup::Fetch(_)));
}
