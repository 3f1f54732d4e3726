use search_mcp::backends::{RouteError, Router};
use search_mcp::cache::Cache;
use search_mcp::server::{
    backends_used, batch_max, batch_queries, batch_request, build_response, default_batch_max,
    default_max, failed_response, limit_results, parse_category, parse_time_range, request_from_params,
    BatchParams, FlowAction, FlowStage, SearchFlow, SearchParams,
};
use search_mcp::types::{default_max_results, SearchCategory, SearchResult, TimeRange};

fn hit(url: &str, source: &str, score: i64) -> SearchResult {
    SearchResult {
        title: url.into(),
        url: url.into(),
        snippet: String::new(),
        source: source.into(),
        score,
        published_date: None,
    }
}

#[test]
fn defaults() {
    assert_eq!(default_max(), 10);
    assert_eq!(default_batch_max(), Some(5));
    assert_eq!(default_max_results(), 10);
    assert_eq!(SearchCategory::default(), SearchCategory::General);
    assert_eq!(SearchCategory::Academic.label(), "academic");
    assert_eq!(TimeRange::Month.label(), "month");
}

#[test]
fn categories_by_name() {
    assert_eq!(parse_category("News"), SearchCategory::News);
    assert_eq!(parse_category("SCIENCE"), SearchCategory::Academic);
    assert_eq!(parse_category("academic"), SearchCategory::Academic);
    assert_eq!(parse_category("it"), SearchCategory::Code);
    assert_eq!(parse_category("code"), SearchCategory::Code);
    assert_eq!(parse_category("Images"), SearchCategory::Images);
    assert_eq!(parse_category("whatever"), SearchCategory::General);
    assert_eq!(parse_category("NEWS"), SearchCategory::News);
    assert_eq!(parse_time_range("WEEK"), Some(TimeRange::Week));
}

#[test]
fn time_ranges_by_name() {
    assert_eq!(parse_time_range("24H"), Some(TimeRange::Day));
    assert_eq!(parse_time_range("d"), Some(TimeRange::Day));
    assert_eq!(parse_time_range("7d"), Some(TimeRange::Week));
    assert_eq!(parse_time_range("Month"), Some(TimeRange::Month));
    assert_eq!(parse_time_range("365d"), Some(TimeRange::Year));
    assert_eq!(parse_time_range("forever"), None);
}

#[test]
fn params_become_a_request() {
    let params = SearchParams {
        query: "rust".into(),
        max_results: 3,
        category: Some("code".into()),
        time_range: Some("w".into()),
        backends: Some(" brave , exa,".into()),
    };
    let r = request_from_params(&params);
    assert_eq!(r.query, "rust");
    assert_eq!(r.max_results, 3);
    assert_eq!(r.category, SearchCategory::Code);
    assert_eq!(r.time_range, Some(TimeRange::Week));
    assert_eq!(r.backends, vec!["brave", "exa", ""]);
    let bare = SearchParams {
        query: "q".into(),
        max_results: 10,
        category: None,
        time_range: None,
        backends: None,
    };
    let r = request_from_params(&bare);
    assert_eq!(r.category, SearchCategory::General);
    assert_eq!(r.time_range, None);
    assert!(r.backends.is_empty());
}

#[test]
fn batch_lines() {
    assert_eq!(batch_queries("tokio vs async-std\n\n  rust errors \r\nrmcp"), vec!["tokio vs async-std", "rust errors", "rmcp"]);
    assert!(batch_queries("").is_empty());
    assert!(batch_queries(" \n\t\n").is_empty());
    assert_eq!(batch_max(&BatchParams { queries: String::new(), max_per_query: None }), 5);
    assert_eq!(batch_max(&BatchParams { queries: String::new(), max_per_query: Some(2) }), 2);
    let r = batch_request("q", 4);
    assert_eq!((r.query.as_str(), r.max_results, r.category, r.time_range), ("q", 4, SearchCategory::General, None));
}

#[test]
fn engines_are_distinct() {
    let raw = vec![
        hit("a", "searxng:google", 1),
        hit("b", "searxng:bing", 1),
        hit("c", "brave", 1),
        hit("d", "searxng:google", 1),
        hit("e", "duckduckgo:Wikipedia", 1),
    ];
    assert_eq!(backends_used(&raw), vec!["searxng", "brave", "duckduckgo"]);
    assert!(backends_used(&vec![]).is_empty());
}

#[test]
fn fresh_response_fuses() {
    let raw = vec![hit("https://a.com", "exa", 1), hit("https://www.a.com/", "brave", 3), hit("https://b.com", "brave", 5)];
    let r = build_response("q", raw, 1, 42);
    assert_eq!(r.results.len(), 1);
    assert_eq!(r.results[0].url, "https://a.com");
    assert_eq!(r.backends_used, vec!["exa", "brave"]);
    assert!(!r.cached);
    assert_eq!(r.total_time_ms, 42);
    let f = failed_response("q", 7);
    assert!(f.results.is_empty() && f.backends_used.is_empty() && !f.cached);
    assert_eq!(f.total_time_ms, 7);
}

#[test]
fn search_flow_from_miss_to_cached() {
    let mut router = Router::from_env(Cache::new(3600), None, None, None, None);
    let req = request_from_params(&SearchParams {
        query: "Rust MCP".into(),
        max_results: 10,
        category: None,
        time_range: None,
        backends: None,
    });
    let (mut flow, action) = SearchFlow::start(&mut router, req, 1000);
    match action {
        FlowAction::ReadStored { key, cutoff } => {
            assert_eq!(key.len(), 64);
            assert_eq!(cutoff, 0);
        }
        _ => panic!("expected a persistent lookup"),
    }
    let action = flow.on_stored(&mut router, None, 1000);
    assert!(matches!(action, FlowAction::Ask(0)));
    let action = flow.on_answer(&mut router, Some(vec![hit("https://x.org", "duckduckgo", 800_000)]), 1000, 15);
    match action {
        FlowAction::Fresh(resp) => {
            assert_eq!(resp.results.len(), 1);
            assert_eq!(resp.backends_used, vec!["duckduckgo"]);
            assert_eq!(resp.total_time_ms, 15);
            assert!(!resp.cached);
        }
        _ => panic!("expected a fresh response"),
    }
    let req = request_from_params(&SearchParams {
        query: "  rust mcp".into(),
        max_results: 10,
        category: None,
        time_range: None,
        backends: None,
    });
    let (flow, action) = SearchFlow::start(&mut router, req, 2000);
    match action {
        FlowAction::Cached(resp) => {
            assert!(resp.cached);
            assert_eq!(resp.query, "Rust MCP");
        }
        _ => panic!("expected a cache hit"),
    }
    let _ = flow;
}

#[test]
fn search_flow_uses_stored_entry() {
    let mut router = Router::from_env(Cache::new(60), None, None, None, None);
    let (mut flow, _) = SearchFlow::start(&mut router, batch_request("q", 5), 100);
    let stored = failed_response("q", 3);
    match flow.on_stored(&mut router, Some((stored, 90)), 100) {
        FlowAction::Cached(resp) => assert!(resp.cached),
        _ => panic!("expected the stored response"),
    }
    let (_, again) = SearchFlow::start(&mut router, batch_request("Q", 5), 101);
    assert!(matches!(again, FlowAction::Cached(_)));
}

#[test]
fn search_flow_skips_a_stale_stored_entry() {
    let mut router = Router::from_env(Cache::new(60), None, None, None, None);
    let (mut flow, _) = SearchFlow::start(&mut router, batch_request("q", 5), 100);
    let stored = failed_response("q", 3);
    assert!(matches!(flow.on_stored(&mut router, Some((stored, 40)), 100), FlowAction::Ask(0)));
}

#[test]
fn search_flow_serves_a_row_stored_after_now() {
    let mut router = Router::from_env(Cache::new(60), None, None, None, None);
    let (mut flow, _) = SearchFlow::start(&mut router, batch_request("q", 5), 100);
    let stored = failed_response("q", 3);
    assert!(matches!(flow.on_stored(&mut router, Some((stored, 150)), 100), FlowAction::Cached(_)));
}

#[test]
fn search_flow_edge_of_the_stored_ttl() {
    let mut router = Router::from_env(Cache::new(60), None, None, None, None);
    let (mut flow, _) = SearchFlow::start(&mut router, batch_request("q", 5), 100);
    // stored at 41: 100 - 60 = 40 < 41, still served
    let stored = failed_response("q", 3);
    assert!(matches!(flow.on_stored(&mut router, Some((stored, 41)), 100), FlowAction::Cached(_)));
}

#[test]
fn search_flow_cuts_cached_results_to_the_request() {
    let mut router = Router::from_env(Cache::new(60), None, None, None, None);
    let (mut flow, _) = SearchFlow::start(&mut router, batch_request("q", 1), 100);
    let mut stored = failed_response("q", 3);
    stored.results = vec![hit("https://a", "brave", 3), hit("https://b", "brave", 2), hit("https://c", "brave", 1)];
    match flow.on_stored(&mut router, Some((stored, 90)), 100) {
        FlowAction::Cached(resp) => {
            assert_eq!(resp.results.len(), 1);
            assert_eq!(resp.results[0].url, "https://a");
        }
        _ => panic!("expected the stored response"),
    }
    // the memory tier keeps every stored result; each request takes its own share
    match SearchFlow::start(&mut router, batch_request("q", 2), 101).1 {
        FlowAction::Cached(resp) => assert_eq!(resp.results.len(), 2),
        _ => panic!("expected the cached response"),
    }
}

#[test]
fn limit_results_keeps_the_first() {
    let mut resp = failed_response("q", 0);
    resp.results = vec![hit("https://a", "brave", 3), hit("https://b", "brave", 2)];
    assert_eq!(limit_results(resp.clone(), 5).results.len(), 2);
    let cut = limit_results(resp, 1);
    assert_eq!(cut.results.len(), 1);
    assert_eq!(cut.results[0].url, "https://a");
}

#[test]
fn search_flow_falls_through_failures() {
    let mut router = Router::from_env(Cache::new(60), None, None, None, None);
    let (mut flow, _) = SearchFlow::start(&mut router, batch_request("q", 5), 100);
    assert!(matches!(flow.on_stored(&mut router, None, 100), FlowAction::Ask(0)));
    match flow.on_answer(&mut router, None, 100, 9) {
        FlowAction::Fresh(resp) => assert!(resp.results.is_empty()),
        _ => panic!("expected an empty response"),
    }
    let _ = RouteError::NoBackendsAvailable;
    let _ = FlowStage::Done;
}
