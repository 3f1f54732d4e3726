use search_mcp::cache::{cache_key, expiry_cutoff, now_secs, Cache};
use search_mcp::types::{SearchResponse, SearchResult};

fn response(query: &str) -> SearchResponse {
    SearchResponse {
        results: vec![SearchResult {
            title: "Rust".into(),
            url: "https://rust-lang.org".into(),
            snippet: "A language".into(),
            source: "brave".into(),
            score: 1_000_000,
            published_date: None,
        }],
        query: query.into(),
        backends_used: vec!["brave".into()],
        cached: false,
        total_time_ms: 12,
    }
}

#[test]
fn cache_key_is_hex_sha256_of_normalized_query() {
    let expected = "2cf24dba5fb0a30e26e83b2ac5b9e29e1b161e5c1fa7425e73043362938b9824";
    assert_eq!(cache_key("hello"), expected);
    assert_eq!(cache_key("  HeLLo \n"), expected);
    assert_eq!(cache_key("hello").len(), 64);
    assert_ne!(cache_key("hello"), cache_key("hello world"));
}

#[test]
fn read_after_write_while_fresh() {
    let mut cache = Cache::new(3600);
    cache.set_at("Rust", &response("Rust"), 1000);
    let got = cache.get_at("  rust ", 1500).expect("fresh entry");
    assert!(got.cached);
    assert_eq!(got.query, "Rust");
    assert_eq!(got.results.len(), 1);
    assert_eq!(got.total_time_ms, 12);
    assert_eq!(cache.stats(0, 0, 0).memory_entries, 1);
}

#[test]
fn expired_entry_is_dropped() {
    let mut cache = Cache::new(3600);
    cache.set_at("q", &response("q"), 1000);
    assert!(cache.get_at("q", 4599).is_some());
    assert!(cache.get_at("q", 4600).is_none());
    assert_eq!(cache.stats(0, 0, 0).memory_entries, 0);
    assert!(cache.get_at("q", 1001).is_none());
}

#[test]
fn entry_from_the_future_counts_as_expired() {
    let mut cache = Cache::new(3600);
    cache.set_at("q", &response("q"), 5000);
    assert!(cache.get_at("q", 4000).is_none());
}

#[test]
fn zero_ttl_caches_nothing() {
    let mut cache = Cache::new(0);
    cache.set_at("q", &response("q"), 10);
    assert!(cache.get_at("q", 10).is_none());
}

#[test]
fn promote_serves_and_stores() {
    let mut cache = Cache::new(60);
    let served = cache.promote("from disk", response("from disk"), 100);
    assert!(served.cached);
    let again = cache.get_at("from disk", 120).unwrap();
    assert!(again.cached);
    assert_eq!(again.query, "from disk");
}

#[test]
fn promoted_entry_keeps_its_stored_age() {
    let mut cache = Cache::new(100);
    // stored at 0, promoted at 50: it expires at 100, not at 150
    let _ = cache.promote("old", response("old"), 0);
    assert!(cache.get_at("old", 99).is_some());
    assert!(cache.get_at("old", 120).is_none());
}

#[test]
fn read_after_write_across_other_operations() {
    let mut cache = Cache::new(60);
    cache.set_at("Rust  ", &response("rust"), 0);
    cache.set_at("other", &response("other"), 5);
    assert!(cache.get_at("other", 6).is_some());
    assert!(cache.get_at("third", 7).is_none());
    let hit = cache.get_at("  RUST", 59).unwrap();
    assert!(hit.cached);
    assert_eq!(hit.query, "rust");
    assert!(cache.get_at("rust", 60).is_none());
}

#[test]
fn other_keys_are_untouched() {
    let mut cache = Cache::new(60);
    cache.set_at("a", &response("a"), 0);
    cache.set_at("b", &response("b"), 0);
    assert_eq!(cache.get_at("a", 1).unwrap().query, "a");
    assert_eq!(cache.get_at("b", 1).unwrap().query, "b");
    assert_eq!(cache.stats(3, 9, 4).memory_entries, 2);
}

#[test]
fn stats_pass_database_counts() {
    let cache = Cache::new(60);
    let s = cache.stats(3, 10, 4);
    assert_eq!((s.memory_entries, s.db_entries, s.total_queries, s.cache_hits), (0, 3, 10, 4));
}

#[test]
fn expiry_cutoff_saturates() {
    assert_eq!(expiry_cutoff(5000, 3600), 1400);
    assert_eq!(expiry_cutoff(100, 3600), 0);
}

#[test]
fn log_row_joins_backends() {
    let row = Cache::new(1).log_query("q", &vec!["brave".into(), "exa".into()], true, 3, 42, 1700000000);
    assert_eq!(row.query, "q");
    assert_eq!(row.backends, "brave,exa");
    assert_eq!(row.cached, 1);
    assert_eq!(row.results_count, 3);
    assert_eq!(row.latency_ms, 42);
    assert_eq!(row.created_at, 1700000000);
    let row = Cache::new(1).log_query("q", &vec![], false, 0, 0, 0);
    assert_eq!(row.backends, "");
    assert_eq!(row.cached, 0);
}

#[test]
fn clock_is_after_2020() {
    assert!(now_secs() > 1_577_836_800);
}

#[test]
fn get_and_set_use_the_clock() {
    let mut cache = Cache::new(3600);
    cache.set("clock", &response("clock"));
    assert!(cache.get("clock").is_some());
    assert_eq!(cache.ttl_secs(), 3600);
}
