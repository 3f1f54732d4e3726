//! SearXNG, a self-hosted metasearch engine.

use vstd::prelude::*;
use crate::backends::{header, is_header, rank_score, rank_score_at, url_encode, url_encoded, Header};
use crate::text::{strip_end, strip_end_seq};
use crate::server::category_named;
use crate::types::{
    category_label, copy_opt_string, time_range_label, SearchCategory, SearchRequest, SearchResult,
    TimeRange, SCORE_SCALE,
};

verus! {

/// The SearXNG backend, configured with the base URL of an instance.
pub struct SearxngBackend {
    base_url: String,
}

/// One result of a SearXNG answer; `score` is fixed-point like
/// `SearchResult::score` (0 when the engine gives none).
pub struct SearxngItem {
    pub title: String,
    pub url: String,
    pub content: String,
    pub score: i64,
    pub published_date: Option<String>,
    pub engine: String,
}

/// SearXNG's name for a category.
pub open spec fn searxng_category(c: SearchCategory) -> Seq<char> {
    match c {
        SearchCategory::General => "general"@,
        SearchCategory::News => "news"@,
        SearchCategory::Academic => "science"@,
        SearchCategory::Code => "it"@,
        SearchCategory::Images => "images"@,
    }
}

/// The URL of a SearXNG query.
pub open spec fn searxng_url(
    base: Seq<char>,
    query: Seq<char>,
    category: SearchCategory,
    time_range: Option<TimeRange>,
) -> Seq<char> {
    base + "/search?q="@ + url_encoded(query) + "&format=json&categories="@ + searxng_category(
        category,
    ) + "&pageno=1"@ + match time_range {
        Some(t) => "&time_range="@ + time_range_label(t),
        None => ""@,
    }
}

/// The score of the SearXNG item at position `i`: the engine's score capped
/// at 1.0 when it is positive, else a positional score.
pub open spec fn searxng_score(score: i64, i: int) -> i64 {
    if score > 0 {
        if score < SCORE_SCALE {
            score
        } else {
            SCORE_SCALE
        }
    } else {
        rank_score(SCORE_SCALE, i)
    }
}

/// `r` is the result made of the SearXNG item at position `i`.
pub open spec fn searxng_result(r: SearchResult, item: SearxngItem, i: int) -> bool {
    &&& r.title == item.title
    &&& r.url == item.url
    &&& r.snippet == item.content
    &&& r.source@ == "searxng:"@ + item.engine@
    &&& r.score == searxng_score(item.score, i)
    &&& r.published_date == item.published_date
}

impl SearxngBackend {
    /// The base URL, without trailing slashes.
    pub closed spec fn base(&self) -> Seq<char> {
        self.base_url@
    }

    /// The backend, if an instance is configured (`SEARXNG_URL`); trailing
    /// slashes of the URL are dropped.
    pub fn from_env(base_url: Option<String>) -> (b: Option<SearxngBackend>)
        ensures
            b is Some <==> base_url is Some,
            b matches Some(x) ==> x.base() == strip_end_seq(base_url->0@, '/'),
    {
        match base_url {
            Some(u) => Some(SearxngBackend { base_url: strip_end(u.as_str(), '/') }),
            None => None,
        }
    }

    /// The backend's name.
    pub fn name(&self) -> (r: &'static str)
        ensures
            r@ == "searxng"@,
    {
        "searxng"
    }

    /// A configured instance can always be asked.
    pub fn is_available(&self) -> (r: bool)
        ensures
            r,
    {
        true
    }

    /// The price of one query: nothing (self-hosted).
    pub fn cost_per_query(&self) -> (c: u64)
        ensures
            c == 0,
    {
        0
    }

    /// The URL to GET for a request.
    pub fn request_url(&self, request: &SearchRequest) -> (url: String)
        ensures
            url@ == searxng_url(self.base(), request.query@, request.category, request.time_range),
    {
        let mut url = self.base_url.clone();
        url.append("/search?q=");
        let q = url_encode(request.query.as_str());
        url.append(q.as_str());
        url.append("&format=json&categories=");
        let cat = match request.category {
            SearchCategory::General => "general",
            SearchCategory::News => "news",
            SearchCategory::Academic => "science",
            SearchCategory::Code => "it",
            SearchCategory::Images => "images",
        };
        url.append(cat);
        url.append("&pageno=1");
        match request.time_range {
            Some(t) => {
                url.append("&time_range=");
                url.append(t.label());
            },
            None => {
                proof {
                    reveal_strlit("");
                }
                assert(url@ =~= url@ + ""@);
            },
        }
        url
    }

    /// The headers of a request: JSON.
    pub fn headers(&self) -> (h: Vec<Header>)
        ensures
            h@.len() == 1,
            is_header(h@[0], "Accept"@, "application/json"@),
    {
        let mut h: Vec<Header> = Vec::new();
        h.push(header("Accept", "application/json"));
        h
    }

    /// The results of a SearXNG answer: the first `max_results` items.
    pub fn results(items: Vec<SearxngItem>, max_results: usize) -> (r: Vec<SearchResult>)
        ensures
            r@.len() == if items@.len() < max_results {
                items@.len()
            } else {
                max_results as nat
            },
            forall|i: int| 0 <= i < r@.len() ==> searxng_result(#[trigger] r@[i], items@[i], i),
    {
        let mut r: Vec<SearchResult> = Vec::new();
        let mut i: usize = 0;
        while i < items.len() && i < max_results
            invariant
                i <= items@.len(),
                i <= max_results,
                r@.len() == i,
                forall|k: int| 0 <= k < i ==> searxng_result(#[trigger] r@[k], items@[k], k),
            decreases items@.len() - i,
        {
            let item = &items[i];
            let score = if item.score > 0 {
                if item.score < 1_000_000 {
                    item.score
                } else {
                    1_000_000
                }
            } else {
                rank_score_at(1_000_000, i)
            };
            let mut source = String::from_str("searxng:");
            source.append(item.engine.as_str());
            r.push(
                SearchResult {
                    title: item.title.clone(),
                    url: item.url.clone(),
                    snippet: item.content.clone(),
                    source,
                    score,
                    published_date: copy_opt_string(&item.published_date),
                },
            );
            i = i + 1;
        }
        r
    }
}

} // verus!

verus! {

/// The category SearXNG is asked for is the request's own: its name reads
/// back as the same category. It is the category's name, except that SearXNG
/// calls the academic category `science` and the code category `it`; no two
/// categories share a SearXNG name.
pub proof fn lemma_searxng_categories(c: SearchCategory, d: SearchCategory)
    ensures
        category_named(searxng_category(c)) == c,
        c != SearchCategory::Academic && c != SearchCategory::Code ==> searxng_category(c)
            == category_label(c),
        searxng_category(SearchCategory::Academic) == "science"@,
        searxng_category(SearchCategory::Code) == "it"@,
        c != d ==> searxng_category(c) != searxng_category(d),
{
    reveal_strlit("general");
    reveal_strlit("news");
    reveal_strlit("academic");
    reveal_strlit("science");
    reveal_strlit("code");
    reveal_strlit("it");
    reveal_strlit("images");
    assert("general"@ =~= seq!['g', 'e', 'n', 'e', 'r', 'a', 'l']);
    assert("news"@ =~= seq!['n', 'e', 'w', 's']);
    assert("academic"@ =~= seq!['a', 'c', 'a', 'd', 'e', 'm', 'i', 'c']);
    assert("science"@ =~= seq!['s', 'c', 'i', 'e', 'n', 'c', 'e']);
    assert("code"@ =~= seq!['c', 'o', 'd', 'e']);
    assert("it"@ =~= seq!['i', 't']);
    assert("images"@ =~= seq!['i', 'm', 'a', 'g', 'e', 's']);
    if c != d {
        assert(category_named(searxng_category(c)) != category_named(searxng_category(d)));
    }
}

/// A SearXNG score is the engine's own score capped at 1.0 when the engine
/// gives a positive one, so it lies in (0, 1.0]; otherwise it is the
/// positional score, 1.0 for the first result and 0.05 less for each next.
pub proof fn lemma_searxng_scores(score: i64, i: int)
    requires
        i >= 0,
    ensures
        score > 0 ==> 0 < searxng_score(score, i) <= SCORE_SCALE,
        0 < score <= SCORE_SCALE ==> searxng_score(score, i) == score,
        score > SCORE_SCALE ==> searxng_score(score, i) == SCORE_SCALE,
        score <= 0 && SCORE_SCALE - 50_000 * i >= i64::MIN ==> searxng_score(score, i) == SCORE_SCALE
            - 50_000 * i,
{
}

} // verus!
