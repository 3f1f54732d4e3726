use search_mcp::fusion::{fuse, merge_scores, normalize_url, AGREEMENT_BONUS};
use search_mcp::types::SearchResult;

fn result(title: &str, url: &str, source: &str, score: i64) -> SearchResult {
    SearchResult {
        title: title.into(),
        url: url.into(),
        snippet: format!("snippet for {}", title),
        source: source.into(),
        score,
        published_date: None,
    }
}

#[test]
fn test_dedup_by_url() {
    let results = vec![
        result("Rust Lang", "https://www.rust-lang.org/", "brave", 900_000),
        result("Rust Programming", "https://rust-lang.org", "exa", 800_000),
        result("Cargo Book", "https://doc.rust-lang.org/cargo/", "brave", 700_000),
    ];

    let fused = fuse(results, 10);
    assert_eq!(fused.len(), 2); // Deduped rust-lang.org
    assert!(fused[0].score > 900_000); // Agreement bonus
}

#[test]
fn test_max_results() {
    let results: Vec<SearchResult> = (0..20)
        .map(|i| {
            result(
                &format!("Result {}", i),
                &format!("https://example.com/{}", i),
                "brave",
                1_000_000 - i as i64 * 50_000,
            )
        })
        .collect();

    let fused = fuse(results, 5);
    assert_eq!(fused.len(), 5);
}

#[test]
fn test_score_ordering() {
    let results = vec![
        result("Low", "https://low.com", "brave", 300_000),
        result("High", "https://high.com", "exa", 900_000),
        result("Mid", "https://mid.com", "tavily", 600_000),
    ];

    let fused = fuse(results, 10);
    assert_eq!(fused[0].title, "High");
    assert_eq!(fused[1].title, "Mid");
    assert_eq!(fused[2].title, "Low");
}

#[test]
fn normalize_url_strips_protocol_www_and_slashes() {
    assert_eq!(normalize_url("  HTTPS://WWW.Rust-Lang.org//  "), "rust-lang.org");
    assert_eq!(normalize_url("http://example.com/a/"), "example.com/a");
    assert_eq!(normalize_url("example.com"), "example.com");
    assert_eq!(normalize_url(""), "");
}

#[test]
fn normalize_url_replaces_every_occurrence() {
    assert_eq!(normalize_url("https://a.com/?u=https://www.b.com/"), "a.com/?u=b.com");
}

#[test]
fn merged_score_boosts_agreement() {
    assert_eq!(AGREEMENT_BONUS, 100_000);
    assert_eq!(merge_scores(900_000, 800_000), 950_000);
    assert_eq!(merge_scores(800_000, 900_000), 950_000);
    // the mean plus the bonus would be 0.6: one step above the better score
    assert_eq!(merge_scores(900_000, 100_000), 900_001);
    assert_eq!(merge_scores(100_000, 900_000), 900_001);
    // capped at 1.0
    assert_eq!(merge_scores(1_000_000, 1_000_000), 1_000_000);
    assert_eq!(merge_scores(950_000, 990_000), 1_000_000);
    assert_eq!(merge_scores(990_000, 50_000), 990_001);
    assert_eq!(merge_scores(999_999, 0), 1_000_000);
    // a score already above 1.0 is kept
    assert_eq!(merge_scores(2_000_000, 500_000), 2_000_000);
    assert_eq!(merge_scores(0, 0), 100_000);
    assert_eq!(merge_scores(0, 1), 100_000);
    assert_eq!(merge_scores(-1, 0), 99_999);
    assert_eq!(merge_scores(i64::MAX, i64::MAX), i64::MAX);
    assert_eq!(merge_scores(i64::MIN, i64::MIN), i64::MIN + 100_000);
}

#[test]
fn agreement_keeps_first_title_and_longer_snippet() {
    let mut a = result("First", "https://x.org", "brave", 500_000);
    a.snippet = "short".into();
    let mut b = result("Second", "http://x.org/", "exa", 700_000);
    b.snippet = "a longer snippet".into();
    let fused = fuse(vec![a, b], 10);
    assert_eq!(fused.len(), 1);
    assert_eq!(fused[0].title, "First");
    assert_eq!(fused[0].source, "brave");
    assert_eq!(fused[0].snippet, "a longer snippet");
    assert_eq!(fused[0].score, 700_001);
}

#[test]
fn snippet_tie_keeps_existing() {
    let mut a = result("A", "https://y.org", "brave", 0);
    a.snippet = "abc".into();
    let mut b = result("B", "https://y.org", "exa", 0);
    b.snippet = "xyz".into();
    let fused = fuse(vec![a, b], 10);
    assert_eq!(fused[0].snippet, "abc");
}

#[test]
fn equal_scores_keep_their_order() {
    let results = vec![
        result("one", "https://1.com", "brave", 500_000),
        result("two", "https://2.com", "brave", 500_000),
        result("three", "https://3.com", "brave", 900_000),
        result("four", "https://4.com", "brave", 500_000),
    ];
    let fused = fuse(results, 10);
    let titles: Vec<&str> = fused.iter().map(|r| r.title.as_str()).collect();
    assert_eq!(titles, vec!["three", "one", "two", "four"]);
}

#[test]
fn agreement_never_lowers_and_stays_normalized() {
    let results = vec![
        result("a", "https://a.com", "brave", 900_000),
        result("b", "https://www.a.com/", "exa", 100_000),
        result("c", "https://c.com", "tavily", 1_000_000),
        result("d", "http://c.com", "searxng", 1_000_000),
    ];
    let fused = fuse(results, 10);
    assert_eq!(fused.len(), 2);
    assert_eq!(fused[0].url, "https://c.com");
    assert_eq!(fused[0].score, 1_000_000);
    assert_eq!(fused[1].url, "https://a.com");
    assert_eq!(fused[1].score, 900_001);
    assert!(fused[1].score > 900_000 && fused[1].score > 100_000);
    for r in &fused {
        assert!(0 <= r.score && r.score <= 1_000_000);
    }
}

#[test]
fn normal_urls_come_back_from_their_decorated_forms() {
    let plain = "example.com/a-b/c.html";
    assert_eq!(normalize_url(plain), plain);
    assert_eq!(normalize_url(&format!("https://{}", plain)), plain);
    assert_eq!(normalize_url(&format!("http://www.{}/", plain)), plain);
    assert_eq!(normalize_url(&format!("HTTPS://WWW.{}//", plain.to_uppercase())), plain);
    assert_eq!(normalize_url("HTTPS://WWW.Example.Com/A-b//"), "example.com/a-b");
    assert_eq!(normalize_url(""), "");
}

#[test]
fn fuse_of_nothing_is_nothing() {
    assert!(fuse(vec![], 10).is_empty());
    assert!(fuse(vec![result("a", "https://a", "brave", 1)], 0).is_empty());
}

#[test]
fn fused_urls_are_distinct() {
    let results = vec![
        result("a", "https://a.com", "brave", 100),
        result("b", "https://www.a.com/", "exa", 200),
        result("c", "http://A.com", "tavily", 300),
        result("d", "https://d.com", "tavily", 50),
    ];
    let fused = fuse(results, 10);
    assert_eq!(fused.len(), 2);
    let keys: Vec<String> = fused.iter().map(|r| normalize_url(&r.url)).collect();
    assert_ne!(keys[0], keys[1]);
    // three agreeing results: (100 + 200) / 2 + 0.1, then with 300
    let first = merge_scores(merge_scores(100, 200), 300);
    assert_eq!(merge_scores(100, 200), 100_150);
    assert_eq!(first, 100_150 / 2 + 150 + 100_000);
    assert_eq!(fused[0].score, first);
}
