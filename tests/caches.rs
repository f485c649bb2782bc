use steam_query_cacher::challenge_cache::{ChallengeCache, CHALLENGE_TTL_MS};
use steam_query_cacher::query_cache::{QueryCache, QueryCacheManager, INFO_TTL_MS, PLAYER_TTL_MS, RULES_TTL_MS};
use steam_query_cacher::timed_map::TimedHashMap;
use steam_query_cacher::info::A2SInfoReply;
use steam_query_cacher::{Config, QueryHeader, ServerConfig};

fn reply(players: u8) -> A2SInfoReply {
    A2SInfoReply {
        header: QueryHeader::A2SInfoReply,
        protocol: 17,
        name: "srv".to_string(),
        map: "map".to_string(),
        folder: "tf".to_string(),
        game: "tf".to_string(),
        id: 440,
        players,
        max_players: 24,
        bots: 0,
        server_type: b'd',
        environment: b'l',
        visibility: 0,
        vac: 1,
        version: "1".to_string(),
        edf: 0,
        port: None,
        steam_id: None,
        source_tv_port: None,
        source_tv_name: None,
        keywords: None,
        game_id: None,
    }
}

const A: (u128, u16) = (1, 1000);
const B: (u128, u16) = (2, 1000);

#[test]
fn info_ttl() {
    let mut caches = QueryCacheManager::new();
    assert_eq!(caches.a2s_info.refresh_interval(), 10_000);
    assert!(caches.a2s_info.lookup(0).is_none());
    caches.a2s_info.store(reply(7), 0);
    // three seconds later the first fetch is still served
    assert_eq!(caches.a2s_info.lookup(3_000), Some(&reply(7)));
    // twelve seconds later a new fetch is needed
    assert_eq!(caches.a2s_info.lookup(12_000), None);
}

#[test]
fn per_kind_ttls() {
    assert_eq!(INFO_TTL_MS, 10_000);
    assert_eq!(PLAYER_TTL_MS, 5_000);
    assert_eq!(RULES_TTL_MS, 60_000);
    let m = QueryCacheManager::new();
    assert_eq!(m.a2s_player.refresh_interval(), 5_000);
    assert_eq!(m.a2s_rules.refresh_interval(), 60_000);
}

#[test]
fn query_cache_boundary_and_default() {
    let mut c: QueryCache<i32> = QueryCache::new(None);
    assert_eq!(c.refresh_interval(), 5_000);
    c.store(1, 100);
    assert_eq!(c.lookup(5_099), Some(&1));
    assert_eq!(c.lookup(5_100), None);
    c.store(2, 5_100);
    assert_eq!(c.lookup(5_100), Some(&2));
    c.store(3, u64::MAX - 1);
    assert_eq!(c.lookup(u64::MAX - 1), Some(&3));
}

#[test]
fn timed_map_expiry() {
    let mut m = TimedHashMap::new(false, None);
    assert_eq!(m.cleanup_interval(), 60_000);
    m.insert(A, 5, 1_000, 0);
    assert_eq!(m.get(A, 999), Some(5));
    assert_eq!(m.len(), 1);
    assert_eq!(m.get(A, 1_000), None);
    assert_eq!(m.len(), 0);
    assert_eq!(m.get(B, 0), None);
}

#[test]
fn timed_map_insert_replaces() {
    let mut m = TimedHashMap::new(false, Some(10));
    assert_eq!(m.cleanup_interval(), 10);
    m.insert(A, 5, 1_000, 0);
    m.insert(A, 6, 1_000, 500);
    assert_eq!(m.get(A, 1_200), Some(6));
    assert_eq!(m.len(), 1);
}

#[test]
fn timed_map_refresh_on_access() {
    let mut m = TimedHashMap::new(true, None);
    m.insert(A, 5, 1_000, 0);
    assert_eq!(m.get(A, 900), Some(5));
    assert_eq!(m.get(A, 1_800), Some(5));
    assert_eq!(m.get(A, 2_801), None);
}

#[test]
fn janitor_leaves_no_expired_entry() {
    let mut m = TimedHashMap::new(false, None);
    m.insert(A, 1, 100, 0);
    m.insert(B, 2, 10_000, 0);
    m.cleanup(120_000);
    assert_eq!(m.len(), 0);
    m.insert(A, 1, 100, 0);
    m.insert(B, 2, 10_000, 0);
    m.cleanup(5_000);
    assert_eq!(m.len(), 1);
    assert_eq!(m.get(B, 5_000), Some(2));
}

#[test]
fn challenge_cache_reserved_draw() {
    let mut c = ChallengeCache::new();
    assert_eq!(c.get_challenge_with(A, 0, -1), i32::MAX);
    assert_eq!(c.get_challenge_with(A, 1, 5), i32::MAX);
}

#[test]
fn challenge_cache_ttl_and_isolation() {
    let mut c = ChallengeCache::new();
    assert_eq!(CHALLENGE_TTL_MS, 30_000);
    assert_eq!(c.get_challenge_with(A, 0, 10), 10);
    assert_eq!(c.get_challenge_with(B, 0, 20), 20);
    assert_eq!(c.get_challenge_with(A, 29_999, 11), 10);
    assert_eq!(c.get_challenge_with(A, 30_000, 12), 12);
    assert_eq!(c.get_challenge_with(B, 1, 21), 20);
    c.cleanup(60_000);
    assert_eq!(c.get_challenge_with(B, 60_000, 22), 22);
    assert_eq!(c.cleanup_interval(), 60_000);
}

#[test]
fn random_challenge_is_not_the_sentinel() {
    let mut c = ChallengeCache::new();
    let t = c.get_challenge(A, 0);
    assert_ne!(t, -1);
    assert_eq!(c.get_challenge(A, 10), t);
}

#[test]
fn config_log_level_default() {
    let mut cfg = Config {
        servers: vec![ServerConfig {
            name: "one".to_string(),
            host: "127.0.0.1:27015".to_string(),
            bind: "0.0.0.0:27016".to_string(),
        }],
        log_level: None,
    };
    assert_eq!(cfg.log_level_or_default(), "info");
    cfg.log_level = Some("debug".to_string());
    assert_eq!(cfg.log_level_or_default(), "debug");
}
