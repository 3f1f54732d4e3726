//! Brave Search API.

use vstd::prelude::*;
use crate::backends::{header, is_header, rank_score, rank_score_at, url_encode, url_encoded, Header};
use crate::text::{decimal, decimal_seq};
use crate::types::{
    copy_opt_string, time_range_label, SearchRequest, SearchResult, TimeRange, SCORE_SCALE,
};

verus! {

/// The Brave Search backend, configured with an API key.
pub struct BraveBackend {
    api_key: String,
}

/// One web result of a Brave answer.
pub struct BraveItem {
    pub title: String,
    pub url: String,
    pub description: String,
    pub page_age: Option<String>,
}

/// Brave's freshness code for a time range.
pub open spec fn freshness_code(t: TimeRange) -> Seq<char> {
    match t {
        TimeRange::Day => "pd"@,
        TimeRange::Week => "pw"@,
        TimeRange::Month => "pm"@,
        TimeRange::Year => "py"@,
    }
}

/// The URL of a Brave query.
pub open spec fn brave_url(query: Seq<char>, max_results: usize, time_range: Option<TimeRange>) -> Seq<
    char,
> {
    "https://api.search.brave.com/res/v1/web/search?q="@ + url_encoded(query) + "&count="@
        + decimal_seq(max_results as nat) + match time_range {
        Some(t) => "&freshness="@ + freshness_code(t),
        None => ""@,
    }
}

/// `r` is the result made of the Brave item at position `i`.
pub open spec fn brave_result(r: SearchResult, item: BraveItem, i: int) -> bool {
    &&& r.title == item.title
    &&& r.url == item.url
    &&& r.snippet == item.description
    &&& r.source@ == "brave"@
    &&& r.score == rank_score(SCORE_SCALE, i)
    &&& r.published_date == item.page_age
}

impl BraveBackend {
    /// The API key.
    pub closed spec fn key(&self) -> Seq<char> {
        self.api_key@
    }

    /// The backend, if an API key is configured (`BRAVE_API_KEY`).
    pub fn from_env(api_key: Option<String>) -> (b: Option<BraveBackend>)
        ensures
            b is Some <==> api_key is Some,
            b matches Some(x) ==> x.key() == api_key->0@,
    {
        match api_key {
            Some(k) => Some(BraveBackend { api_key: k }),
            None => None,
        }
    }

    /// The backend's name.
    pub fn name(&self) -> (r: &'static str)
        ensures
            r@ == "brave"@,
    {
        "brave"
    }

    /// A configured Brave backend can always be asked.
    pub fn is_available(&self) -> (r: bool)
        ensures
            r,
    {
        true
    }

    /// The price of one query, in millionths of a dollar ($5 per thousand).
    pub fn cost_per_query(&self) -> (c: u64)
        ensures
            c == 5000,
    {
        5000
    }

    /// The URL to GET for a request.
    pub fn request_url(&self, request: &SearchRequest) -> (url: String)
        ensures
            url@ == brave_url(request.query@, request.max_results, request.time_range),
    {
        let mut url = String::from_str("https://api.search.brave.com/res/v1/web/search?q=");
        let q = url_encode(request.query.as_str());
        url.append(q.as_str());
        url.append("&count=");
        let n = decimal(request.max_results as u64);
        url.append(n.as_str());
        match request.time_range {
            Some(t) => {
                url.append("&freshness=");
                let code = match t {
                    TimeRange::Day => "pd",
                    TimeRange::Week => "pw",
                    TimeRange::Month => "pm",
                    TimeRange::Year => "py",
                };
                url.append(code);
            },
            None => {
                proof {
                    reveal_strlit("");
                }
                assert(url@ =~= url@ + ""@);
            },
        }
        url
    }

    /// The headers of a request: the subscription token and JSON.
    pub fn headers(&self) -> (h: Vec<Header>)
        ensures
            h@.len() == 2,
            is_header(h@[0], "X-Subscription-Token"@, self.key()),
            is_header(h@[1], "Accept"@, "application/json"@),
    {
        let mut h: Vec<Header> = Vec::new();
        h.push(header("X-Subscription-Token", self.api_key.as_str()));
        h.push(header("Accept", "application/json"));
        h
    }

    /// The results of a Brave answer, scored by position from 1.0 down in
    /// steps of 0.05.
    pub fn results(items: Vec<BraveItem>) -> (r: Vec<SearchResult>)
        ensures
            r@.len() == items@.len(),
            forall|i: int| 0 <= i < r@.len() ==> brave_result(#[trigger] r@[i], items@[i], i),
    {
        let mut r: Vec<SearchResult> = Vec::new();
        let mut i: usize = 0;
        while i < items.len()
            invariant
                i <= items@.len(),
                r@.len() == i,
                forall|k: int| 0 <= k < i ==> brave_result(#[trigger] r@[k], items@[k], k),
            decreases items@.len() - i,
        {
            let item = &items[i];
            r.push(
                SearchResult {
                    title: item.title.clone(),
                    url: item.url.clone(),
                    snippet: item.description.clone(),
                    source: String::from_str("brave"),
                    score: rank_score_at(1_000_000, i),
                    published_date: copy_opt_string(&item.page_age),
                },
            );
            i = i + 1;
        }
        r
    }
}

} // verus!

verus! {

/// Brave's freshness code for a time range is `p` ("past") followed by the
/// initial of the range's name (`pd` for a day, `pw`, `pm`, `py`), and no
/// two ranges share a code.
pub proof fn lemma_freshness_codes(t: TimeRange, u: TimeRange)
    ensures
        freshness_code(t) == seq!['p', time_range_label(t)[0]],
        t != u ==> freshness_code(t) != freshness_code(u),
{
    reveal_strlit("pd");
    reveal_strlit("pw");
    reveal_strlit("pm");
    reveal_strlit("py");
    reveal_strlit("day");
    reveal_strlit("week");
    reveal_strlit("month");
    reveal_strlit("year");
    assert("pd"@ =~= seq!['p', 'd']);
    assert("pw"@ =~= seq!['p', 'w']);
    assert("pm"@ =~= seq!['p', 'm']);
    assert("py"@ =~= seq!['p', 'y']);
    assert("day"@ =~= seq!['d', 'a', 'y']);
    assert("week"@ =~= seq!['w', 'e', 'e', 'k']);
    assert("month"@ =~= seq!['m', 'o', 'n', 't', 'h']);
    assert("year"@ =~= seq!['y', 'e', 'a', 'r']);
    assert(freshness_code(t) =~= seq!['p', time_range_label(t)[0]]);
    if t != u {
        assert(freshness_code(t)[1] != freshness_code(u)[1]);
    }
}

} // verus!
