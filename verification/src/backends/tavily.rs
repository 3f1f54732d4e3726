//! Tavily AI search API.

use vstd::prelude::*;
use crate::types::{copy_opt_string, SearchRequest, SearchResult};

verus! {

/// The Tavily backend, configured with an API key.
pub struct TavilyBackend {
    api_key: String,
}

/// The body of a Tavily query.
pub struct TavilyQuery {
    pub api_key: String,
    pub query: String,
    pub max_results: usize,
    pub search_depth: String,
    pub include_answer: bool,
}

/// One result of a Tavily answer; `score` is fixed-point like
/// `SearchResult::score`.
pub struct TavilyItem {
    pub title: String,
    pub url: String,
    pub content: String,
    pub score: i64,
    pub published_date: Option<String>,
}

/// `r` is the result made of a Tavily item.
pub open spec fn tavily_result(r: SearchResult, item: TavilyItem) -> bool {
    &&& r.title == item.title
    &&& r.url == item.url
    &&& r.snippet == item.content
    &&& r.source@ == "tavily"@
    &&& r.score == item.score
    &&& r.published_date == item.published_date
}

impl TavilyBackend {
    /// The API key.
    pub closed spec fn key(&self) -> Seq<char> {
        self.api_key@
    }

    /// The backend, if an API key is configured (`TAVILY_API_KEY`).
    pub fn from_env(api_key: Option<String>) -> (b: Option<TavilyBackend>)
        ensures
            b is Some <==> api_key is Some,
            b matches Some(x) ==> x.key() == api_key->0@,
    {
        match api_key {
            Some(k) => Some(TavilyBackend { api_key: k }),
            None => None,
        }
    }

    /// The backend's name.
    pub fn name(&self) -> (r: &'static str)
        ensures
            r@ == "tavily"@,
    {
        "tavily"
    }

    /// A configured Tavily backend can always be asked.
    pub fn is_available(&self) -> (r: bool)
        ensures
            r,
    {
        true
    }

    /// The price of one query, in millionths of a dollar (about $8 per
    /// thousand credits).
    pub fn cost_per_query(&self) -> (c: u64)
        ensures
            c == 8000,
    {
        8000
    }

    /// The URL to POST a query to.
    pub fn endpoint(&self) -> (url: &'static str)
        ensures
            url@ == "https://api.tavily.com/search"@,
    {
        "https://api.tavily.com/search"
    }

    /// The body of the query for a request: basic depth, no generated answer.
    pub fn request_body(&self, request: &SearchRequest) -> (b: TavilyQuery)
        ensures
            b.api_key@ == self.key(),
            b.query == request.query,
            b.max_results == request.max_results,
            b.search_depth@ == "basic"@,
            !b.include_answer,
    {
        TavilyQuery {
            api_key: self.api_key.clone(),
            query: request.query.clone(),
            max_results: request.max_results,
            search_depth: String::from_str("basic"),
            include_answer: false,
        }
    }

    /// The results of a Tavily answer, with the engine's scores.
    pub fn results(items: Vec<TavilyItem>) -> (r: Vec<SearchResult>)
        ensures
            r@.len() == items@.len(),
            forall|i: int| 0 <= i < r@.len() ==> tavily_result(#[trigger] r@[i], items@[i]),
    {
        let mut r: Vec<SearchResult> = Vec::new();
        let mut i: usize = 0;
        while i < items.len()
            invariant
                i <= items@.len(),
                r@.len() == i,
                forall|k: int| 0 <= k < i ==> tavily_result(#[trigger] r@[k], items@[k]),
            decreases items@.len() - i,
        {
            let item = &items[i];
            r.push(
                SearchResult {
                    title: item.title.clone(),
                    url: item.url.clone(),
                    snippet: item.content.clone(),
                    source: String::from_str("tavily"),
                    score: item.score,
                    published_date: copy_opt_string(&item.published_date),
                },
            );
            i = i + 1;
        }
        r
    }
}

} // verus!
