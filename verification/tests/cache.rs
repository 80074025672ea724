use dota_coach::cache::{CacheKey, NoCache, CACHE_KEY_VERSION};

#[test]
fn a_key_carries_its_namespace_version_player_and_fingerprint() {
    let key = CacheKey::new("coach-evidence", 0, "carry", "abc123");
    assert_eq!(
        key.as_str(),
        "coach-evidence:v1:00000000-0000-0000-0000-000000000000:carry:abc123"
    );
    assert_eq!(CACHE_KEY_VERSION, 1);
}

#[test]
fn two_roles_never_share_a_key() {
    assert_ne!(
        CacheKey::new("coach-evidence", 0, "carry", "abc"),
        CacheKey::new("coach-evidence", 0, "hard_support", "abc"),
    );
}

#[test]
fn two_players_never_share_a_key() {
    assert_ne!(
        CacheKey::new("coach-evidence", 1, "carry", "abc"),
        CacheKey::new("coach-evidence", 2, "carry", "abc"),
    );
}

#[test]
fn a_moved_fingerprint_is_a_different_key() {
    assert_ne!(
        CacheKey::new("coach-evidence", 0, "carry", "before"),
        CacheKey::new("coach-evidence", 0, "carry", "after"),
    );
}

#[test]
fn the_player_id_is_written_as_a_hyphenated_uuid() {
    let key = CacheKey::new("n", 0x0123_4567_89ab_cdef_0123_4567_89ab_cdef, "d", "f");
    assert_eq!(key.as_str(), "n:v1:01234567-89ab-cdef-0123-456789abcdef:d:f");
}

#[test]
fn the_disabled_cache_always_misses_and_never_stores() {
    let cache = NoCache;
    let key = CacheKey::new("coach-evidence", 0, "carry", "abc");

    assert!(!cache.is_enabled());
    assert!(cache.get(&key).is_none());
    cache.put(&key, 0, "{\"a\":1}");
    assert!(cache.get(&key).is_none());
}
