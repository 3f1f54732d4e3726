use search_mcp::backends::brave::{BraveBackend, BraveItem};
use search_mcp::backends::duckduckgo::{DdgAnswer, DdgTopic, DuckDuckGoBackend};
use search_mcp::backends::exa::{ExaBackend, ExaItem};
use search_mcp::backends::searxng::{SearxngBackend, SearxngItem};
use search_mcp::backends::tavily::{TavilyBackend, TavilyItem};
use search_mcp::backends::{
    rank_score_at, PlanMode, RouteError, Router, SearchRun,
};
use search_mcp::cache::Cache;
use search_mcp::types::{SearchCategory, SearchRequest, SearchResult, TimeRange};

fn request(query: &str, max: usize) -> SearchRequest {
    SearchRequest {
        query: query.into(),
        max_results: max,
        category: SearchCategory::General,
        time_range: None,
        backends: vec![],
    }
}

fn hit(url: &str) -> SearchResult {
    SearchResult {
        title: url.into(),
        url: url.into(),
        snippet: String::new(),
        source: "x".into(),
        score: 0,
        published_date: None,
    }
}

#[test]
fn url_encoding_is_percent_encoding_of_utf8() {
    let d = DuckDuckGoBackend::new();
    let url = |q: &str| d.request_url(&request(q, 1));
    let prefix = "https://api.duckduckgo.com/?q=";
    let suffix = "&format=json&no_html=1&skip_disambig=1";
    assert_eq!(url("rust async?"), format!("{}rust%20async%3F{}", prefix, suffix));
    assert_eq!(url("a-b_c.d~"), format!("{}a-b_c.d~{}", prefix, suffix));
    assert_eq!(url("é/&"), format!("{}%C3%A9%2F%26{}", prefix, suffix));
    assert_eq!(url(""), format!("{}{}", prefix, suffix));
}

#[test]
fn positional_scores() {
    assert_eq!(rank_score_at(1_000_000, 0), 1_000_000);
    assert_eq!(rank_score_at(1_000_000, 3), 850_000);
    assert_eq!(rank_score_at(1_000_000, 40), -1_000_000);
    assert_eq!(rank_score_at(0, usize::MAX), i64::MIN);
}

#[test]
fn brave_request_and_results() {
    assert!(BraveBackend::from_env(None).is_none());
    let b = BraveBackend::from_env(Some("secret".into())).unwrap();
    assert_eq!(b.name(), "brave");
    assert_eq!(b.cost_per_query(), 5000);
    let mut req = request("rust mcp", 7);
    assert_eq!(
        b.request_url(&req),
        "https://api.search.brave.com/res/v1/web/search?q=rust%20mcp&count=7"
    );
    req.time_range = Some(TimeRange::Week);
    assert_eq!(
        b.request_url(&req),
        "https://api.search.brave.com/res/v1/web/search?q=rust%20mcp&count=7&freshness=pw"
    );
    let h = b.headers();
    assert_eq!((h[0].name.as_str(), h[0].value.as_str()), ("X-Subscription-Token", "secret"));
    assert_eq!((h[1].name.as_str(), h[1].value.as_str()), ("Accept", "application/json"));
    let items = vec![
        BraveItem { title: "t0".into(), url: "u0".into(), description: "d0".into(), page_age: None },
        BraveItem {
            title: "t1".into(),
            url: "u1".into(),
            description: "d1".into(),
            page_age: Some("2024".into()),
        },
    ];
    let r = BraveBackend::results(items);
    assert_eq!(r.len(), 2);
    assert_eq!((r[0].score, r[1].score), (1_000_000, 950_000));
    assert_eq!(r[1].snippet, "d1");
    assert_eq!(r[1].source, "brave");
    assert_eq!(r[1].published_date.as_deref(), Some("2024"));
}

#[test]
fn searxng_request_and_results() {
    let s = SearxngBackend::from_env(Some("http://localhost:8080//".into())).unwrap();
    assert_eq!(s.cost_per_query(), 0);
    let mut req = request("q x", 2);
    req.category = SearchCategory::Academic;
    req.time_range = Some(TimeRange::Day);
    assert_eq!(
        s.request_url(&req),
        "http://localhost:8080/search?q=q%20x&format=json&categories=science&pageno=1&time_range=day"
    );
    req.category = SearchCategory::Code;
    req.time_range = None;
    assert_eq!(
        s.request_url(&req),
        "http://localhost:8080/search?q=q%20x&format=json&categories=it&pageno=1"
    );
    let item = |score: i64, engine: &str| SearxngItem {
        title: "t".into(),
        url: "u".into(),
        content: "c".into(),
        score,
        published_date: None,
        engine: engine.into(),
    };
    let r = SearxngBackend::results(vec![item(0, "google"), item(2_500_000, "bing"), item(400_000, "ddg")], 2);
    assert_eq!(r.len(), 2);
    assert_eq!(r[0].score, 1_000_000);
    assert_eq!(r[0].source, "searxng:google");
    assert_eq!(r[1].score, 1_000_000);
    let r = SearxngBackend::results(vec![item(0, "a"), item(0, "b"), item(400_000, "c")], 10);
    assert_eq!((r[0].score, r[1].score, r[2].score), (1_000_000, 950_000, 400_000));
}

#[test]
fn exa_request_and_results() {
    let e = ExaBackend::from_env(Some("k".into())).unwrap();
    assert_eq!(e.endpoint(), "https://api.exa.ai/search");
    assert_eq!(e.cost_per_query(), 3000);
    let body = e.request_body(&request("q", 4));
    assert_eq!((body.query.as_str(), body.num_results, body.search_type.as_str(), body.max_characters), ("q", 4, "auto", 300));
    assert_eq!(e.headers()[0].name, "x-api-key");
    let r = ExaBackend::results(vec![
        ExaItem { title: "a".into(), url: "u".into(), text: "".into(), score: None, published_date: None },
        ExaItem { title: "b".into(), url: "v".into(), text: "body".into(), score: Some(123), published_date: None },
    ]);
    assert_eq!(r[0].snippet, "(no snippet)");
    assert_eq!(r[0].score, 1_000_000);
    assert_eq!(r[1].snippet, "body");
    assert_eq!(r[1].score, 123);
}

#[test]
fn tavily_request_and_results() {
    let t = TavilyBackend::from_env(Some("tk".into())).unwrap();
    assert_eq!(t.cost_per_query(), 8000);
    assert_eq!(t.endpoint(), "https://api.tavily.com/search");
    let body = t.request_body(&request("q", 3));
    assert_eq!((body.api_key.as_str(), body.search_depth.as_str(), body.include_answer, body.max_results), ("tk", "basic", false, 3));
    let r = TavilyBackend::results(vec![TavilyItem {
        title: "a".into(),
        url: "u".into(),
        content: "c".into(),
        score: 777,
        published_date: Some("d".into()),
    }]);
    assert_eq!((r[0].score, r[0].source.as_str()), (777, "tavily"));
}

#[test]
fn duckduckgo_answer_results() {
    let d = DuckDuckGoBackend::new();
    assert_eq!(
        d.request_url(&request("rust lang", 5)),
        "https://api.duckduckgo.com/?q=rust%20lang&format=json&no_html=1&skip_disambig=1"
    );
    let topic = |text: &str, url: &str| DdgTopic { text: text.into(), first_url: url.into() };
    let answer = DdgAnswer {
        abstract_text: "Rust is a language".into(),
        abstract_url: "https://rust-lang.org".into(),
        abstract_source: "Wikipedia".into(),
        heading: "Rust".into(),
        related_topics: vec![
            topic("Cargo - the package manager", "https://crates.io"),
            topic("no link", ""),
            topic("Clippy - lints", "https://clippy"),
            topic("Rustfmt", "https://fmt"),
        ],
    };
    let r = DuckDuckGoBackend::results(answer, 3);
    assert_eq!(r.len(), 3);
    assert_eq!(r[0].source, "duckduckgo:Wikipedia");
    assert_eq!(r[0].score, 1_000_000);
    assert_eq!(r[1].title, "Cargo");
    assert_eq!(r[1].score, 800_000);
    assert_eq!(r[2].title, "Clippy");
    assert_eq!(r[2].score, 700_000);
    assert_eq!(r[2].source, "duckduckgo");
}

#[test]
fn duckduckgo_without_abstract() {
    let answer = DdgAnswer {
        abstract_text: "".into(),
        abstract_url: "".into(),
        abstract_source: "".into(),
        heading: "".into(),
        related_topics: vec![DdgTopic { text: "A".into(), first_url: "https://a".into() }],
    };
    let r = DuckDuckGoBackend::results(answer, 0);
    assert!(r.is_empty());
}

fn router() -> Router {
    Router::from_env(
        Cache::new(60),
        BraveBackend::from_env(Some("b".into())),
        ExaBackend::from_env(Some("e".into())),
        None,
        SearxngBackend::from_env(Some("http://s".into())),
    )
}

#[test]
fn router_registers_in_order_with_duckduckgo_last() {
    assert_eq!(router().available_backends(), vec!["brave", "exa", "searxng", "duckduckgo"]);
    let only = Router::from_env(Cache::new(1), None, None, None, None);
    assert_eq!(only.available_backends(), vec!["duckduckgo"]);
}

#[test]
fn automatic_plan_is_cheapest_first() {
    let plan = router().plan(&request("q", 5)).unwrap();
    assert_eq!(plan.mode, PlanMode::FirstWithResults);
    assert_eq!(plan.order, vec![2, 3, 1, 0]);
}

#[test]
fn full_router_tries_free_backends_then_by_price() {
    let full = Router::from_env(
        Cache::new(60),
        BraveBackend::from_env(Some("b".into())),
        ExaBackend::from_env(Some("e".into())),
        TavilyBackend::from_env(Some("t".into())),
        SearxngBackend::from_env(Some("http://s".into())),
    );
    assert_eq!(full.available_backends(), vec!["brave", "exa", "tavily", "searxng", "duckduckgo"]);
    let plan = full.plan(&request("q", 5)).unwrap();
    assert_eq!(plan.mode, PlanMode::FirstWithResults);
    let names: Vec<&str> = plan.order.iter().map(|&i| full.backends()[i].name()).collect();
    assert_eq!(names, vec!["searxng", "duckduckgo", "exa", "brave", "tavily"]);
    let partial = Router::from_env(
        Cache::new(60),
        BraveBackend::from_env(Some("b".into())),
        None,
        None,
        SearxngBackend::from_env(Some("http://s".into())),
    );
    assert_eq!(partial.available_backends(), vec!["brave", "searxng", "duckduckgo"]);
    let plan = partial.plan(&request("q", 5)).unwrap();
    let names: Vec<&str> = plan.order.iter().map(|&i| partial.backends()[i].name()).collect();
    assert_eq!(names, vec!["searxng", "duckduckgo", "brave"]);
}

#[test]
fn requested_backends_are_combined() {
    let mut req = request("q", 5);
    req.backends = vec!["BRAVE".into(), "tavily".into(), "DuckDuckGo".into()];
    let plan = router().plan(&req).unwrap();
    assert_eq!(plan.mode, PlanMode::Combine);
    assert_eq!(plan.order, vec![0, 3]);
    req.backends = vec!["unknown".into()];
    let plan = router().plan(&req).unwrap();
    assert_eq!(plan.mode, PlanMode::FirstWithResults);
}

#[test]
fn route_error_message() {
    assert_eq!(RouteError::NoBackendsAvailable.message(), "no search backends available");
}

#[test]
fn fallback_run_stops_at_first_results() {
    let plan = router().plan(&request("q", 5)).unwrap();
    let mut run = SearchRun::start(plan);
    assert_eq!(run.next_backend(), Some(2));
    run.record(None);
    assert_eq!(run.next_backend(), Some(3));
    run.record(Some(vec![]));
    assert_eq!(run.next_backend(), Some(1));
    run.record(Some(vec![hit("a"), hit("b")]));
    assert_eq!(run.next_backend(), None);
    let r = run.into_results();
    assert_eq!(r.len(), 2);
    assert_eq!(r[0].url, "a");
}

#[test]
fn fallback_run_with_no_results_is_empty() {
    let plan = router().plan(&request("q", 5)).unwrap();
    let mut run = SearchRun::start(plan);
    while run.next_backend().is_some() {
        run.record(None);
    }
    assert!(run.into_results().is_empty());
}

#[test]
fn combined_run_collects_every_answer() {
    let mut req = request("q", 5);
    req.backends = vec!["exa".into(), "brave".into()];
    let plan = router().plan(&req).unwrap();
    let mut run = SearchRun::start(plan);
    assert_eq!(run.next_backend(), Some(0));
    run.record(Some(vec![hit("a")]));
    assert_eq!(run.next_backend(), Some(1));
    run.record(Some(vec![hit("b"), hit("c")]));
    assert_eq!(run.next_backend(), None);
    let urls: Vec<String> = run.into_results().into_iter().map(|r| r.url).collect();
    assert_eq!(urls, vec!["a", "b", "c"]);
}

#[test]
fn search_starts_a_run_of_the_plan() {
    let r = router();
    let mut run = r.search(&request("q", 5)).ok().unwrap();
    assert_eq!(run.next_backend(), Some(2));
    run.record(Some(vec![hit("z")]));
    assert_eq!(run.next_backend(), None);
}
