//! Exa neural search API.

use vstd::prelude::*;
use crate::backends::{header, is_header, rank_score, rank_score_at, Header};
use crate::types::{copy_opt_string, SearchRequest, SearchResult, SCORE_SCALE};

verus! {

/// The Exa backend, configured with an API key.
pub struct ExaBackend {
    api_key: String,
}

/// The body of an Exa query: the text, how many results, the search type
/// and how many characters of page text to return.
pub struct ExaQuery {
    pub query: String,
    pub num_results: usize,
    pub search_type: String,
    pub max_characters: usize,
}

/// One result of an Exa answer; `score` is fixed-point like
/// `SearchResult::score`.
pub struct ExaItem {
    pub title: String,
    pub url: String,
    pub text: String,
    pub score: Option<i64>,
    pub published_date: Option<String>,
}

/// `r` is the result made of the Exa item at position `i`: the page text as
/// snippet (a placeholder when empty), the engine's score or a positional
/// one.
pub open spec fn exa_result(r: SearchResult, item: ExaItem, i: int) -> bool {
    &&& r.title == item.title
    &&& r.url == item.url
    &&& r.snippet@ == if item.text@.len() == 0 {
        "(no snippet)"@
    } else {
        item.text@
    }
    &&& r.source@ == "exa"@
    &&& r.score == match item.score {
        Some(s) => s,
        None => rank_score(SCORE_SCALE, i),
    }
    &&& r.published_date == item.published_date
}

impl ExaBackend {
    /// The API key.
    pub closed spec fn key(&self) -> Seq<char> {
        self.api_key@
    }

    /// The backend, if an API key is configured (`EXA_API_KEY`).
    pub fn from_env(api_key: Option<String>) -> (b: Option<ExaBackend>)
        ensures
            b is Some <==> api_key is Some,
            b matches Some(x) ==> x.key() == api_key->0@,
    {
        match api_key {
            Some(k) => Some(ExaBackend { api_key: k }),
            None => None,
        }
    }

    /// The backend's name.
    pub fn name(&self) -> (r: &'static str)
        ensures
            r@ == "exa"@,
    {
        "exa"
    }

    /// A configured Exa backend can always be asked.
    pub fn is_available(&self) -> (r: bool)
        ensures
            r,
    {
        true
    }

    /// The price of one query, in millionths of a dollar ($3 per thousand).
    pub fn cost_per_query(&self) -> (c: u64)
        ensures
            c == 3000,
    {
        3000
    }

    /// The URL to POST a query to.
    pub fn endpoint(&self) -> (url: &'static str)
        ensures
            url@ == "https://api.exa.ai/search"@,
    {
        "https://api.exa.ai/search"
    }

    /// The headers of a request: the API key.
    pub fn headers(&self) -> (h: Vec<Header>)
        ensures
            h@.len() == 1,
            is_header(h@[0], "x-api-key"@, self.key()),
    {
        let mut h: Vec<Header> = Vec::new();
        h.push(header("x-api-key", self.api_key.as_str()));
        h
    }

    /// The body of the query for a request: automatic search type, up to 300
    /// characters of text per result.
    pub fn request_body(&self, request: &SearchRequest) -> (b: ExaQuery)
        ensures
            b.query == request.query,
            b.num_results == request.max_results,
            b.search_type@ == "auto"@,
            b.max_characters == 300,
    {
        ExaQuery {
            query: request.query.clone(),
            num_results: request.max_results,
            search_type: String::from_str("auto"),
            max_characters: 300,
        }
    }

    /// The results of an Exa answer.
    pub fn results(items: Vec<ExaItem>) -> (r: Vec<SearchResult>)
        ensures
            r@.len() == items@.len(),
            forall|i: int| 0 <= i < r@.len() ==> exa_result(#[trigger] r@[i], items@[i], i),
    {
        let mut r: Vec<SearchResult> = Vec::new();
        let mut i: usize = 0;
        while i < items.len()
            invariant
                i <= items@.len(),
                r@.len() == i,
                forall|k: int| 0 <= k < i ==> exa_result(#[trigger] r@[k], items@[k], k),
            decreases items@.len() - i,
        {
            let item = &items[i];
            let snippet = if item.text.as_str().is_empty() {
                String::from_str("(no snippet)")
            } else {
                item.text.clone()
            };
            let score = match item.score {
                Some(s) => s,
                None => rank_score_at(1_000_000, i),
            };
            r.push(
                SearchResult {
                    title: item.title.clone(),
                    url: item.url.clone(),
                    snippet,
                    source: String::from_str("exa"),
                    score,
                    published_date: copy_opt_string(&item.published_date),
                },
            );
            i = i + 1;
        }
        r
    }
}

} // verus!
