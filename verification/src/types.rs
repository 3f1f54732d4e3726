//! The data that flows through a search: requests, results and responses.
//!
//! Relevance scores are fixed-point integers: a score of `SCORE_SCALE`
//! stands for 1.0, so `900_000` is 0.9.

use vstd::prelude::*;

verus! {

/// The fixed-point unit of a relevance score (1.0).
pub const SCORE_SCALE: i64 = 1_000_000;

/// A single search result from any backend.
#[derive(Clone, Debug)]
pub struct SearchResult {
    pub title: String,
    pub url: String,
    pub snippet: String,
    pub source: String,
    /// Relevance in units of `1 / SCORE_SCALE`.
    pub score: i64,
    pub published_date: Option<String>,
}

/// A copy of an optional string.
pub fn copy_opt_string(s: &Option<String>) -> (r: Option<String>)
    ensures
        r == *s,
{
    match s {
        Some(x) => Some(x.clone()),
        None => None,
    }
}

/// A copy of a vector of strings.
pub fn copy_strings(v: &Vec<String>) -> (r: Vec<String>)
    ensures
        r@ == v@,
{
    let mut r: Vec<String> = Vec::new();
    let mut i: usize = 0;
    while i < v.len()
        invariant
            i <= v@.len(),
            r@ == v@.take(i as int),
        decreases v@.len() - i,
    {
        r.push(v[i].clone());
        assert(r@ =~= v@.take(i + 1));
        i = i + 1;
    }
    assert(v@.take(v@.len() as int) =~= v@);
    r
}

impl SearchResult {
    /// An equal copy of this result.
    pub fn duplicate(&self) -> (r: SearchResult)
        ensures
            r == *self,
    {
        SearchResult {
            title: self.title.clone(),
            url: self.url.clone(),
            snippet: self.snippet.clone(),
            source: self.source.clone(),
            score: self.score,
            published_date: copy_opt_string(&self.published_date),
        }
    }
}

/// An equal copy of a vector of results.
pub fn copy_results(v: &Vec<SearchResult>) -> (r: Vec<SearchResult>)
    ensures
        r@ == v@,
{
    let mut r: Vec<SearchResult> = Vec::new();
    let mut i: usize = 0;
    while i < v.len()
        invariant
            i <= v@.len(),
            r@ == v@.take(i as int),
        decreases v@.len() - i,
    {
        r.push(v[i].duplicate());
        assert(r@ =~= v@.take(i + 1));
        i = i + 1;
    }
    assert(v@.take(v@.len() as int) =~= v@);
    r
}

/// Search categories for routing.
#[derive(Clone, Copy, Debug, PartialEq, Eq, Structural)]
pub enum SearchCategory {
    General,
    News,
    Academic,
    Code,
    Images,
}

impl Default for SearchCategory {
    fn default() -> (c: SearchCategory)
        ensures
            c == SearchCategory::General,
    {
        SearchCategory::General
    }
}

/// The lowercase name of a category.
pub open spec fn category_label(c: SearchCategory) -> Seq<char> {
    match c {
        SearchCategory::General => "general"@,
        SearchCategory::News => "news"@,
        SearchCategory::Academic => "academic"@,
        SearchCategory::Code => "code"@,
        SearchCategory::Images => "images"@,
    }
}

impl SearchCategory {
    /// The lowercase name of the category, as it is displayed.
    pub fn label(&self) -> (r: &'static str)
        ensures
            r@ == category_label(*self),
    {
        match self {
            SearchCategory::General => "general",
            SearchCategory::News => "news",
            SearchCategory::Academic => "academic",
            SearchCategory::Code => "code",
            SearchCategory::Images => "images",
        }
    }
}

/// Time range filter.
#[derive(Clone, Copy, Debug, PartialEq, Eq, Structural)]
pub enum TimeRange {
    Day,
    Week,
    Month,
    Year,
}

/// The lowercase name of a time range.
pub open spec fn time_range_label(t: TimeRange) -> Seq<char> {
    match t {
        TimeRange::Day => "day"@,
        TimeRange::Week => "week"@,
        TimeRange::Month => "month"@,
        TimeRange::Year => "year"@,
    }
}

impl TimeRange {
    /// The lowercase name of the time range, as it is displayed.
    pub fn label(&self) -> (r: &'static str)
        ensures
            r@ == time_range_label(*self),
    {
        match self {
            TimeRange::Day => "day",
            TimeRange::Week => "week",
            TimeRange::Month => "month",
            TimeRange::Year => "year",
        }
    }
}

/// A search request with all parameters.
#[derive(Clone, Debug)]
pub struct SearchRequest {
    pub query: String,
    pub max_results: usize,
    pub category: SearchCategory,
    pub time_range: Option<TimeRange>,
    /// Preferred backends by name (empty: route automatically).
    pub backends: Vec<String>,
}

/// The number of results a request asks for when it does not say.
pub fn default_max_results() -> (n: usize)
    ensures
        n == 10,
{
    10
}

/// Search response with metadata.
#[derive(Clone, Debug)]
pub struct SearchResponse {
    pub results: Vec<SearchResult>,
    pub query: String,
    pub backends_used: Vec<String>,
    pub cached: bool,
    pub total_time_ms: u64,
}

/// Two responses that hold the same values.
pub open spec fn same_response(a: SearchResponse, b: SearchResponse) -> bool {
    &&& a.results@ == b.results@
    &&& a.query == b.query
    &&& a.backends_used@ == b.backends_used@
    &&& a.cached == b.cached
    &&& a.total_time_ms == b.total_time_ms
}

impl SearchResponse {
    /// A copy of this response that holds the same values.
    pub fn duplicate(&self) -> (r: SearchResponse)
        ensures
            same_response(r, *self),
    {
        SearchResponse {
            results: copy_results(&self.results),
            query: self.query.clone(),
            backends_used: copy_strings(&self.backends_used),
            cached: self.cached,
            total_time_ms: self.total_time_ms,
        }
    }
}

} // verus!
