//! The search service's own logic: reading tool parameters, splitting batch
//! queries, and assembling responses.

use vstd::prelude::*;
use crate::fusion::{fuse, fused, truncated};
use crate::text::{
    before_first, before_first_seq, lemma_trim_idempotent, lowercase, split_on, split_seq, text_eq,
    to_lowercase, trim, trim_seq, views,
};
use crate::types::{
    category_label, same_response, time_range_label, SearchCategory, SearchRequest,
    SearchResponse, SearchResult, TimeRange,
};
use crate::backends::{
    lemma_plan_nonempty, outcome_view, plan_for, run_finished, run_results, RouteError, Router,
    SearchRun,
};
use crate::cache::{
    after_lookup, cache_key, cutoff, expiry_cutoff, is_fresh, key_of_query, lookup, mark_cached,
    row_fresh, same_entry, CacheEntry,
};

verus! {

/// Parameters of the `search` tool.
pub struct SearchParams {
    /// Search query.
    pub query: String,
    /// Max results to return (default: 10).
    pub max_results: usize,
    /// Category: general, news, academic, code, images.
    pub category: Option<String>,
    /// Time range: day, week, month, year.
    pub time_range: Option<String>,
    /// Specific backends, comma-separated: brave, exa, tavily, searxng, duckduckgo.
    pub backends: Option<String>,
}

/// Parameters of the `search_batch` tool.
pub struct BatchParams {
    /// Queries separated by newlines.
    pub queries: String,
    /// Max results per query (default: 5).
    pub max_per_query: Option<usize>,
}

/// The default of `SearchParams::max_results`.
pub fn default_max() -> (n: usize)
    ensures
        n == 10,
{
    10
}

/// The default of `BatchParams::max_per_query`.
pub fn default_batch_max() -> (n: Option<usize>)
    ensures
        n == Some(5usize),
{
    Some(5)
}

/// The category that a lowercased name stands for (general when none).
pub open spec fn category_named(s: Seq<char>) -> SearchCategory {
    if s == "news"@ {
        SearchCategory::News
    } else if s == "academic"@ || s == "science"@ {
        SearchCategory::Academic
    } else if s == "code"@ || s == "it"@ {
        SearchCategory::Code
    } else if s == "images"@ {
        SearchCategory::Images
    } else {
        SearchCategory::General
    }
}

/// The time range that a lowercased name stands for, if any.
pub open spec fn time_range_named(s: Seq<char>) -> Option<TimeRange> {
    if s == "day"@ || s == "d"@ || s == "24h"@ {
        Some(TimeRange::Day)
    } else if s == "week"@ || s == "w"@ || s == "7d"@ {
        Some(TimeRange::Week)
    } else if s == "month"@ || s == "m"@ || s == "30d"@ {
        Some(TimeRange::Month)
    } else if s == "year"@ || s == "y"@ || s == "365d"@ {
        Some(TimeRange::Year)
    } else {
        None
    }
}

/// The category a lowercased name stands for.
pub fn category_from_lowercase(s: &str) -> (c: SearchCategory)
    ensures
        c == category_named(s@),
{
    if text_eq(s, "news") {
        SearchCategory::News
    } else if text_eq(s, "academic") || text_eq(s, "science") {
        SearchCategory::Academic
    } else if text_eq(s, "code") || text_eq(s, "it") {
        SearchCategory::Code
    } else if text_eq(s, "images") {
        SearchCategory::Images
    } else {
        SearchCategory::General
    }
}

/// The time range a lowercased name stands for.
pub fn time_range_from_lowercase(s: &str) -> (t: Option<TimeRange>)
    ensures
        t == time_range_named(s@),
{
    if text_eq(s, "day") || text_eq(s, "d") || text_eq(s, "24h") {
        Some(TimeRange::Day)
    } else if text_eq(s, "week") || text_eq(s, "w") || text_eq(s, "7d") {
        Some(TimeRange::Week)
    } else if text_eq(s, "month") || text_eq(s, "m") || text_eq(s, "30d") {
        Some(TimeRange::Month)
    } else if text_eq(s, "year") || text_eq(s, "y") || text_eq(s, "365d") {
        Some(TimeRange::Year)
    } else {
        None
    }
}

/// The category a name stands for, in any case (`science` and `it` are
/// accepted too); general when the name is unknown.
pub fn parse_category(s: &str) -> (c: SearchCategory)
    ensures
        c == category_named(lowercase(s@)),
{
    let l = to_lowercase(s);
    category_from_lowercase(l.as_str())
}

/// The time range a name stands for, in any case (`d`, `24h`, `w`, `7d`,
/// `m`, `30d`, `y`, `365d` are accepted too); none when the name is unknown.
pub fn parse_time_range(s: &str) -> (t: Option<TimeRange>)
    ensures
        t == time_range_named(lowercase(s@)),
{
    let l = to_lowercase(s);
    time_range_from_lowercase(l.as_str())
}

/// Each piece trimmed.
pub open spec fn trim_all(pieces: Seq<Seq<char>>) -> Seq<Seq<char>> {
    pieces.map_values(|p: Seq<char>| trim_seq(p))
}

/// The backend names of a comma-separated list, each trimmed.
pub open spec fn backend_list(s: Seq<char>) -> Seq<Seq<char>> {
    trim_all(split_seq(s, ','))
}

/// The comma-separated pieces of `s`, each trimmed.
pub fn split_backend_list(s: &str) -> (r: Vec<String>)
    ensures
        views(r@) == backend_list(s@),
{
    let pieces = split_on(s, ',');
    let mut r: Vec<String> = Vec::new();
    let mut i: usize = 0;
    while i < pieces.len()
        invariant
            i <= pieces@.len(),
            views(pieces@) == split_seq(s@, ','),
            views(r@) == trim_all(views(pieces@).take(i as int)),
        decreases pieces@.len() - i,
    {
        let t = trim(pieces[i].as_str());
        let ghost prev = views(r@);
        let ghost prev_r = r@;
        assert(prev.len() == i);
        r.push(t);
        assert(r@ == prev_r.push(r@[i as int]));
        assert(views(r@).len() == i + 1);
        let ghost want = trim_all(views(pieces@).take(i + 1));
        assert(views(pieces@)[i as int] == pieces@[i as int]@);
        assert forall|k: int| 0 <= k < i + 1 implies views(r@)[k] == want[k] by {
            if k < i {
                assert(r@[k] == prev_r[k]);
                assert(views(r@)[k] == prev[k]);
                assert(prev[k] == trim_all(views(pieces@).take(i as int))[k]);
            } else {
                assert(views(r@)[k] == r@[k]@);
            }
        }
        assert(views(r@) =~= want);
        i = i + 1;
    }
    assert(views(pieces@).take(pieces@.len() as int) =~= views(pieces@));
    r
}

/// The request that the `search` tool's parameters describe.
pub open spec fn request_matches(r: SearchRequest, p: SearchParams) -> bool {
    &&& r.query == p.query
    &&& r.max_results == p.max_results
    &&& r.category == match p.category {
        Some(c) => category_named(lowercase(c@)),
        None => SearchCategory::General,
    }
    &&& r.time_range == match p.time_range {
        Some(t) => time_range_named(lowercase(t@)),
        None => None,
    }
    &&& views(r.backends@) == match p.backends {
        Some(b) => backend_list(b@),
        None => Seq::empty(),
    }
}

/// The request that the `search` tool's parameters describe.
pub fn request_from_params(params: &SearchParams) -> (r: SearchRequest)
    ensures
        request_matches(r, *params),
{
    let category = match &params.category {
        Some(c) => parse_category(c.as_str()),
        None => SearchCategory::General,
    };
    let time_range = match &params.time_range {
        Some(t) => parse_time_range(t.as_str()),
        None => None,
    };
    let backends = match &params.backends {
        Some(b) => split_backend_list(b.as_str()),
        None => {
            let v: Vec<String> = Vec::new();
            assert(views(v@) =~= Seq::<Seq<char>>::empty());
            v
        },
    };
    SearchRequest {
        query: params.query.clone(),
        max_results: params.max_results,
        category,
        time_range,
        backends,
    }
}

/// The non-blank pieces, trimmed, in order.
pub open spec fn nonblank_trimmed(pieces: Seq<Seq<char>>) -> Seq<Seq<char>>
    decreases pieces.len(),
{
    if pieces.len() == 0 {
        Seq::empty()
    } else {
        let p = nonblank_trimmed(pieces.drop_last());
        if trim_seq(pieces.last()).len() > 0 {
            p.push(trim_seq(pieces.last()))
        } else {
            p
        }
    }
}

/// The queries of a batch: its lines, trimmed, without the blank ones. (A
/// carriage return before a line break is whitespace and is trimmed away.)
pub open spec fn batch_query_list(text: Seq<char>) -> Seq<Seq<char>> {
    nonblank_trimmed(split_seq(text, '\n'))
}

/// The queries of a batch.
pub fn batch_queries(text: &str) -> (r: Vec<String>)
    ensures
        views(r@) == batch_query_list(text@),
{
    let lines = split_on(text, '\n');
    let mut r: Vec<String> = Vec::new();
    let mut i: usize = 0;
    assert(views(lines@).take(0) =~= Seq::<Seq<char>>::empty());
    while i < lines.len()
        invariant
            i <= lines@.len(),
            views(lines@) == split_seq(text@, '\n'),
            views(r@) == nonblank_trimmed(views(lines@).take(i as int)),
        decreases lines@.len() - i,
    {
        assert(views(lines@).take(i + 1).drop_last() =~= views(lines@).take(i as int));
        let t = trim(lines[i].as_str());
        if t.as_str().unicode_len() > 0 {
            r.push(t);
            assert(views(r@) =~= nonblank_trimmed(views(lines@).take(i + 1)));
        }
        i = i + 1;
    }
    assert(views(lines@).take(lines@.len() as int) =~= views(lines@));
    r
}

/// The number of results per query of a batch (5 when not given).
pub fn batch_max(params: &BatchParams) -> (n: usize)
    ensures
        n == match params.max_per_query {
            Some(m) => m,
            None => 5,
        },
{
    match params.max_per_query {
        Some(m) => m,
        None => 5,
    }
}

/// The request for one query of a batch: default category, no time range,
/// automatic routing.
pub fn batch_request(query: &str, max_results: usize) -> (r: SearchRequest)
    ensures
        r.query@ == query@,
        r.max_results == max_results,
        r.category == SearchCategory::General,
        r.time_range is None,
        r.backends@.len() == 0,
{
    SearchRequest {
        query: query.to_owned(),
        max_results,
        category: SearchCategory::General,
        time_range: None,
        backends: Vec::new(),
    }
}

/// The engine part of a result's source (the text before the first `:`).
pub open spec fn engine_of(r: SearchResult) -> Seq<char> {
    before_first_seq(r.source@, ":"@)
}

/// `acc` with `x` added unless it is already there.
pub open spec fn add_distinct(acc: Seq<Seq<char>>, x: Seq<char>) -> Seq<Seq<char>> {
    if acc.contains(x) {
        acc
    } else {
        acc.push(x)
    }
}

/// The distinct engines of the results, in order of first appearance.
pub open spec fn engines(rs: Seq<SearchResult>) -> Seq<Seq<char>>
    decreases rs.len(),
{
    if rs.len() == 0 {
        Seq::empty()
    } else {
        add_distinct(engines(rs.drop_last()), engine_of(rs.last()))
    }
}

/// The distinct engines that produced the results.
pub fn backends_used(results: &Vec<SearchResult>) -> (r: Vec<String>)
    ensures
        views(r@) == engines(results@),
{
    let mut r: Vec<String> = Vec::new();
    let mut i: usize = 0;
    proof {
        reveal_strlit(":");
    }
    assert(results@.take(0) =~= Seq::<SearchResult>::empty());
    while i < results.len()
        invariant
            i <= results@.len(),
            views(r@) == engines(results@.take(i as int)),
            ":"@.len() > 0,
        decreases results@.len() - i,
    {
        assert(results@.take(i + 1).drop_last() =~= results@.take(i as int));
        let e = before_first(results[i].source.as_str(), ":");
        let mut j: usize = 0;
        let mut seen = false;
        while j < r.len()
            invariant
                j <= r@.len(),
                seen ==> views(r@).contains(e@),
                !seen ==> forall|k: int| 0 <= k < j ==> (#[trigger] r@[k])@ != e@,
            decreases r@.len() - j,
        {
            if text_eq(r[j].as_str(), e.as_str()) {
                seen = true;
                assert(views(r@)[j as int] == e@);
            }
            j = j + 1;
        }
        if !seen {
            assert(!views(r@).contains(e@)) by {
                if views(r@).contains(e@) {
                    let k = choose|k: int| 0 <= k < views(r@).len() && views(r@)[k] == e@;
                    assert(r@[k]@ == e@);
                }
            }
            r.push(e);
            assert(views(r@) =~= views(r@.drop_last()).push(e@));
        }
        i = i + 1;
    }
    assert(results@.take(results@.len() as int) =~= results@);
    r
}

/// `resp` is the fresh response to `query` built from the raw results: the
/// results fused to at most `max_results`, the engines that produced them,
/// not from the cache.
pub open spec fn fresh_response(
    resp: SearchResponse,
    query: Seq<char>,
    raw: Seq<SearchResult>,
    max_results: usize,
    elapsed_ms: u64,
) -> bool {
    &&& resp.results@ == fused(raw, max_results as nat)
    &&& resp.query@ == query
    &&& views(resp.backends_used@) == engines(raw)
    &&& !resp.cached
    &&& resp.total_time_ms == elapsed_ms
}

/// The response to `query` made of the backends' raw results.
pub fn build_response(query: &str, raw: Vec<SearchResult>, max_results: usize, elapsed_ms: u64) -> (r:
    SearchResponse)
    ensures
        fresh_response(r, query@, raw@, max_results, elapsed_ms),
{
    let used = backends_used(&raw);
    let results = fuse(raw, max_results);
    SearchResponse {
        results,
        query: query.to_owned(),
        backends_used: used,
        cached: false,
        total_time_ms: elapsed_ms,
    }
}

/// The response for a query of a batch whose search failed: no results.
pub fn failed_response(query: &str, elapsed_ms: u64) -> (r: SearchResponse)
    ensures
        r.results@.len() == 0,
        r.query@ == query@,
        r.backends_used@.len() == 0,
        !r.cached,
        r.total_time_ms == elapsed_ms,
{
    SearchResponse {
        results: Vec::new(),
        query: query.to_owned(),
        backends_used: Vec::new(),
        cached: false,
        total_time_ms: elapsed_ms,
    }
}

// ---------------------------------------------------------------------------
// Laws
// ---------------------------------------------------------------------------

/// The engines reported for a response are distinct, and are exactly the
/// engines of the raw results.
pub proof fn lemma_engines_distinct(rs: Seq<SearchResult>)
    ensures
        engines(rs).no_duplicates(),
        forall|i: int| 0 <= i < rs.len() ==> engines(rs).contains(engine_of(#[trigger] rs[i])),
        forall|e: Seq<char>|
            engines(rs).contains(e) ==> exists|i: int| 0 <= i < rs.len() && engine_of(#[trigger] rs[i]) == e,
    decreases rs.len(),
{
    if rs.len() > 0 {
        let p = rs.drop_last();
        lemma_engines_distinct(p);
        let q = engines(p);
        let x = engine_of(rs.last());
        let r = engines(rs);
        assert forall|i: int| 0 <= i < rs.len() implies r.contains(engine_of(#[trigger] rs[i])) by {
            if i < rs.len() - 1 {
                assert(rs[i] == p[i]);
                assert(q.contains(engine_of(p[i])));
                let k = choose|k: int| 0 <= k < q.len() && q[k] == engine_of(p[i]);
                assert(r[k] == q[k]);
            } else if !q.contains(x) {
                assert(r[r.len() - 1] == x);
            }
        }
        assert forall|e: Seq<char>| r.contains(e) implies exists|i: int|
            0 <= i < rs.len() && engine_of(#[trigger] rs[i]) == e by {
            let k = choose|k: int| 0 <= k < r.len() && r[k] == e;
            if k < q.len() {
                assert(q[k] == e);
                assert(q.contains(e));
                let i = choose|i: int| 0 <= i < p.len() && engine_of(#[trigger] p[i]) == e;
                assert(rs[i] == p[i]);
            } else {
                assert(engine_of(rs[rs.len() - 1]) == e);
            }
        }
    }
}

/// A batch holds no blank queries, and each query has no surrounding
/// whitespace.
pub proof fn lemma_batch_queries_trimmed(text: Seq<char>)
    ensures
        forall|i: int|
            0 <= i < batch_query_list(text).len() ==> (#[trigger] batch_query_list(text)[i]).len() > 0
                && trim_seq(batch_query_list(text)[i]) == batch_query_list(text)[i],
{
    lemma_nonblank_trimmed(split_seq(text, '\n'));
}

proof fn lemma_nonblank_trimmed(pieces: Seq<Seq<char>>)
    ensures
        forall|i: int|
            0 <= i < nonblank_trimmed(pieces).len() ==> (#[trigger] nonblank_trimmed(pieces)[i]).len()
                > 0 && trim_seq(nonblank_trimmed(pieces)[i]) == nonblank_trimmed(pieces)[i],
    decreases pieces.len(),
{
    if pieces.len() > 0 {
        lemma_nonblank_trimmed(pieces.drop_last());
        lemma_trim_idempotent(pieces.last());
        let p = nonblank_trimmed(pieces.drop_last());
        let r = nonblank_trimmed(pieces);
        assert forall|i: int| 0 <= i < r.len() implies (#[trigger] r[i]).len() > 0 && trim_seq(r[i])
            == r[i] by {
            if i < p.len() {
                assert(r[i] == p[i]);
            }
        }
    }
}

} // verus!

verus! {

// ---------------------------------------------------------------------------
// The course of one search
// ---------------------------------------------------------------------------

/// `c` is `resp` served for a request of at most `max_results` results:
/// its results cut to that many, everything else as it is.
pub open spec fn served(c: SearchResponse, resp: SearchResponse, max_results: usize) -> bool {
    &&& c.results@ == truncated(resp.results@, max_results as nat)
    &&& c.query == resp.query
    &&& c.backends_used@ == resp.backends_used@
    &&& c.cached == resp.cached
    &&& c.total_time_ms == resp.total_time_ms
}

/// Does the persistent tier's answer hold an entry that is still served at
/// `now` (stored after `now - ttl_secs`)?
pub open spec fn stored_fresh(stored: Option<(SearchResponse, u64)>, now: u64, ttl_secs: u64) -> bool {
    stored matches Some(pair) && row_fresh(pair.1, now, ttl_secs)
}

/// The response of the persistent tier's answer.
pub open spec fn stored_response(stored: Option<(SearchResponse, u64)>) -> SearchResponse {
    match stored {
        Some(pair) => pair.0,
        None => arbitrary(),
    }
}

/// The stored time of the persistent tier's answer.
pub open spec fn stored_time(stored: Option<(SearchResponse, u64)>) -> u64 {
    match stored {
        Some(pair) => pair.1,
        None => 0,
    }
}

/// `resp` with its results cut to at most `max_results`.
pub fn limit_results(resp: SearchResponse, max_results: usize) -> (c: SearchResponse)
    ensures
        served(c, resp, max_results),
{
    let mut c = resp;
    c.results.truncate(max_results);
    c
}

/// What the program should do next for a search.
pub enum FlowAction {
    /// Look the query up in the persistent tier under `key`, among entries
    /// created after `cutoff`, and report what was found.
    ReadStored { key: String, cutoff: u64 },
    /// Ask the backend at this position of the router, and report its answer.
    Ask(usize),
    /// The search is over: this response came from the cache.
    Cached(SearchResponse),
    /// The search is over: this response is new; the memory tier holds it
    /// already, the persistent tier should store it too.
    Fresh(SearchResponse),
    /// The search is over: no backend could be asked.
    Failed(RouteError),
}

/// Where a search stands.
#[derive(Clone, Copy, Debug, PartialEq, Eq, Structural)]
pub enum FlowStage {
    /// Waiting for the persistent tier's answer.
    AwaitingStored,
    /// Waiting for a backend's answer.
    AwaitingAnswer,
    /// Over.
    Done,
}

/// One search: a cache lookup in memory, then in the persistent tier, then
/// the backends of the router's plan, and at last a response.
pub struct SearchFlow {
    request: SearchRequest,
    stage: FlowStage,
    run: Option<SearchRun>,
}

impl SearchFlow {
    /// The request being served.
    pub closed spec fn request(&self) -> SearchRequest {
        self.request
    }

    /// Where the search stands.
    pub closed spec fn stage(&self) -> FlowStage {
        self.stage
    }

    /// The run through the backends (once they are being asked).
    pub closed spec fn run(&self) -> SearchRun {
        self.run->0
    }

    /// The search's state is consistent.
    pub closed spec fn wf(&self) -> bool {
        self.stage == FlowStage::AwaitingAnswer ==> {
            &&& self.run is Some
            &&& self.run->0.wf()
            &&& !run_finished(self.run->0.mode(), self.run->0.order().len(), self.run->0.outcomes())
        }
    }

    /// Starts a search: answers from the memory tier when it holds a fresh
    /// response, else asks for the persistent tier's entry.
    pub fn start(router: &mut Router, request: SearchRequest, now: u64) -> (r: (SearchFlow, FlowAction))
        ensures
            r.0.wf(),
            r.0.request() == request,
            final(router).registered() == old(router).registered(),
            final(router).cache_state().ttl() == old(router).cache_state().ttl(),
            final(router).cache_state().contents() == after_lookup(
                old(router).cache_state().contents(),
                key_of_query(request.query@),
                now,
                old(router).cache_state().ttl(),
            ),
            match lookup(
                old(router).cache_state().contents(),
                key_of_query(request.query@),
                now,
                old(router).cache_state().ttl(),
            ) {
                Some(resp) => {
                    &&& r.0.stage() == FlowStage::Done
                    &&& r.1 matches FlowAction::Cached(c) && served(c, resp, request.max_results)
                },
                None => {
                    &&& r.0.stage() == FlowStage::AwaitingStored
                    &&& r.1 matches FlowAction::ReadStored { key, cutoff: c } && key@ == key_of_query(
                        request.query@,
                    ) && c == cutoff(now, old(router).cache_state().ttl())
                },
            },
    {
        let cache = router.cache_mut();
        let found = cache.get_at(request.query.as_str(), now);
        match found {
            Some(resp) => {
                let limited = limit_results(resp, request.max_results);
                let flow = SearchFlow { request, stage: FlowStage::Done, run: None };
                (flow, FlowAction::Cached(limited))
            },
            None => {
                let key = cache_key(request.query.as_str());
                let c = expiry_cutoff(now, cache.ttl_secs());
                let flow = SearchFlow { request, stage: FlowStage::AwaitingStored, run: None };
                (flow, FlowAction::ReadStored { key, cutoff: c })
            },
        }
    }

    /// Takes the persistent tier's answer, a response and the time it was
    /// stored: when that entry is still fresh at `now`, it is brought into
    /// memory with its stored time and served; otherwise the router's plan
    /// starts.
    pub fn on_stored(
        &mut self,
        router: &mut Router,
        stored: Option<(SearchResponse, u64)>,
        now: u64,
    ) -> (a: FlowAction)
        requires
            old(self).wf(),
            old(self).stage() == FlowStage::AwaitingStored,
        ensures
            final(self).wf(),
            final(self).request() == old(self).request(),
            final(router).registered() == old(router).registered(),
            final(router).cache_state().ttl() == old(router).cache_state().ttl(),
            stored_fresh(stored, now, old(router).cache_state().ttl()) ==> {
                let resp = stored_response(stored);
                let stored_at = stored_time(stored);
                &&& final(self).stage() == FlowStage::Done
                &&& a matches FlowAction::Cached(c) && served(
                    c,
                    mark_cached(resp),
                    old(self).request().max_results,
                )
                &&& final(router).cache_state().contents().contains_key(
                    key_of_query(old(self).request().query@),
                )
                &&& final(router).cache_state().contents() == old(
                    router,
                ).cache_state().contents().insert(
                    key_of_query(old(self).request().query@),
                    final(router).cache_state().contents()[key_of_query(
                        old(self).request().query@,
                    )],
                )
                &&& same_entry(
                    final(router).cache_state().contents()[key_of_query(
                        old(self).request().query@,
                    )],
                    CacheEntry { response: mark_cached(resp), timestamp: stored_at },
                )
            },
            !stored_fresh(stored, now, old(router).cache_state().ttl()) ==> {
                &&& final(router).cache_state() == old(router).cache_state()
                &&& match plan_for(
                    old(router).registered(),
                    views(old(self).request().backends@),
                ) {
                    Some(plan) => {
                        &&& final(self).stage() == FlowStage::AwaitingAnswer
                        &&& final(self).run().mode() == plan.0
                        &&& final(self).run().order() == plan.1
                        &&& final(self).run().outcomes().len() == 0
                        &&& a == FlowAction::Ask(plan.1[0])
                    },
                    None => final(self).stage() == FlowStage::Done && a == FlowAction::Failed(
                        RouteError::NoBackendsAvailable,
                    ),
                }
            },
    {
        let ttl = router.cache().ttl_secs();
        let fresh = match &stored {
            Some(pair) => now < ttl || pair.1 > now - ttl,
            None => false,
        };
        if fresh {
            match stored {
                Some((resp, stored_at)) => {
                    let cache = router.cache_mut();
                    let promoted = cache.promote(self.request.query.as_str(), resp, stored_at);
                    self.stage = FlowStage::Done;
                    FlowAction::Cached(limit_results(promoted, self.request.max_results))
                },
                None => {
                    self.stage = FlowStage::Done;
                    FlowAction::Failed(RouteError::NoBackendsAvailable)
                },
            }
        } else {
            match router.search(&self.request) {
                Ok(run) => {
                    proof {
                        lemma_plan_nonempty(router.registered(), views(self.request.backends@));
                    }
                    match run.next_backend() {
                        Some(p) => {
                            self.run = Some(run);
                            self.stage = FlowStage::AwaitingAnswer;
                            FlowAction::Ask(p)
                        },
                        None => {
                            self.stage = FlowStage::Done;
                            FlowAction::Failed(RouteError::NoBackendsAvailable)
                        },
                    }
                },
                Err(e) => {
                    self.stage = FlowStage::Done;
                    FlowAction::Failed(e)
                },
            }
        }
    }

    /// Takes a backend's answer (`None` when it failed): asks the next
    /// backend of the plan, or, when the run is finished, builds the fresh
    /// response, stores it in memory at `now` and returns it.
    pub fn on_answer(
        &mut self,
        router: &mut Router,
        outcome: Option<Vec<SearchResult>>,
        now: u64,
        elapsed_ms: u64,
    ) -> (a: FlowAction)
        requires
            old(self).wf(),
            old(self).stage() == FlowStage::AwaitingAnswer,
        ensures
            final(self).wf(),
            final(self).request() == old(self).request(),
            final(router).registered() == old(router).registered(),
            final(router).cache_state().ttl() == old(router).cache_state().ttl(),
            final(self).run().mode() == old(self).run().mode(),
            final(self).run().order() == old(self).run().order(),
            final(self).run().outcomes() == old(self).run().outcomes().push(outcome_view(outcome)),
            !run_finished(
                final(self).run().mode(),
                final(self).run().order().len(),
                final(self).run().outcomes(),
            ) ==> {
                &&& final(self).stage() == FlowStage::AwaitingAnswer
                &&& a == FlowAction::Ask(
                    final(self).run().order()[final(self).run().outcomes().len() as int],
                )
                &&& final(router).cache_state() == old(router).cache_state()
            },
            run_finished(
                final(self).run().mode(),
                final(self).run().order().len(),
                final(self).run().outcomes(),
            ) ==> {
                &&& final(self).stage() == FlowStage::Done
                &&& a matches FlowAction::Fresh(resp) && fresh_response(
                    resp,
                    old(self).request().query@,
                    run_results(final(self).run().mode(), final(self).run().outcomes()),
                    old(self).request().max_results,
                    elapsed_ms,
                ) && final(router).cache_state().contents().contains_key(
                    key_of_query(old(self).request().query@),
                ) && final(router).cache_state().contents() == old(
                    router,
                ).cache_state().contents().insert(
                    key_of_query(old(self).request().query@),
                    final(router).cache_state().contents()[key_of_query(
                        old(self).request().query@,
                    )],
                ) && same_entry(
                    final(router).cache_state().contents()[key_of_query(
                        old(self).request().query@,
                    )],
                    CacheEntry { response: resp, timestamp: now },
                )
            },
    {
        let mut run = self.run.take().unwrap();
        run.record(outcome);
        match run.next_backend() {
            Some(p) => {
                self.run = Some(run);
                FlowAction::Ask(p)
            },
            None => {
                let raw = run.results();
                let resp = build_response(
                    self.request.query.as_str(),
                    raw,
                    self.request.max_results,
                    elapsed_ms,
                );
                let cache = router.cache_mut();
                cache.set_at(self.request.query.as_str(), &resp, now);
                self.stage = FlowStage::Done;
                self.run = Some(run);
                FlowAction::Fresh(resp)
            },
        }
    }
}

/// The time to live bounds both tiers: a response stored at `stored_at` is
/// served neither from memory nor from the persistent tier at or after
/// `stored_at + ttl_secs`, and by both from `stored_at` until then.
pub proof fn lemma_ttl_bounds_both_tiers(
    resp: SearchResponse,
    stored_at: u64,
    now: u64,
    ttl_secs: u64,
)
    ensures
        stored_at + ttl_secs <= now ==> !is_fresh(stored_at, now, ttl_secs) && !stored_fresh(
            Some((resp, stored_at)),
            now,
            ttl_secs,
        ),
        stored_at <= now < stored_at + ttl_secs ==> is_fresh(stored_at, now, ttl_secs)
            && stored_fresh(Some((resp, stored_at)), now, ttl_secs),
{
    assert(stored_at <= now ==> vstd::wrapping::u64_specs::wrapping_sub(now, stored_at) == now
        - stored_at);
}

} // verus!

verus! {

/// The names the tool shows for categories and time ranges: `general`,
/// `news`, `academic`, `code`, `images`; `day`, `week`, `month`, `year`.
pub proof fn lemma_labels()
    ensures
        category_label(SearchCategory::General) == "general"@,
        category_label(SearchCategory::News) == "news"@,
        category_label(SearchCategory::Academic) == "academic"@,
        category_label(SearchCategory::Code) == "code"@,
        category_label(SearchCategory::Images) == "images"@,
        time_range_label(TimeRange::Day) == "day"@,
        time_range_label(TimeRange::Week) == "week"@,
        time_range_label(TimeRange::Month) == "month"@,
        time_range_label(TimeRange::Year) == "year"@,
{
}

/// Every time range reads back from its name, and from each of its short
/// spellings (`d`, `24h`; `w`, `7d`; `m`, `30d`; `y`, `365d`); an empty name
/// names none.
pub proof fn lemma_time_range_names(t: TimeRange)
    ensures
        time_range_named(time_range_label(t)) == Some(t),
        time_range_named("d"@) == Some(TimeRange::Day),
        time_range_named("24h"@) == Some(TimeRange::Day),
        time_range_named("w"@) == Some(TimeRange::Week),
        time_range_named("7d"@) == Some(TimeRange::Week),
        time_range_named("m"@) == Some(TimeRange::Month),
        time_range_named("30d"@) == Some(TimeRange::Month),
        time_range_named("y"@) == Some(TimeRange::Year),
        time_range_named("365d"@) == Some(TimeRange::Year),
        time_range_named(Seq::empty()) is None,
{
    reveal_strlit("day");
    reveal_strlit("d");
    reveal_strlit("24h");
    reveal_strlit("week");
    reveal_strlit("w");
    reveal_strlit("7d");
    reveal_strlit("month");
    reveal_strlit("m");
    reveal_strlit("30d");
    reveal_strlit("year");
    reveal_strlit("y");
    reveal_strlit("365d");
    assert("day"@ =~= seq!['d', 'a', 'y']);
    assert("d"@ =~= seq!['d']);
    assert("24h"@ =~= seq!['2', '4', 'h']);
    assert("week"@ =~= seq!['w', 'e', 'e', 'k']);
    assert("w"@ =~= seq!['w']);
    assert("7d"@ =~= seq!['7', 'd']);
    assert("month"@ =~= seq!['m', 'o', 'n', 't', 'h']);
    assert("m"@ =~= seq!['m']);
    assert("30d"@ =~= seq!['3', '0', 'd']);
    assert("year"@ =~= seq!['y', 'e', 'a', 'r']);
    assert("y"@ =~= seq!['y']);
    assert("365d"@ =~= seq!['3', '6', '5', 'd']);
    assert("w"@[0] != "d"@[0] && "m"@[0] != "d"@[0] && "m"@[0] != "w"@[0]);
    assert("y"@[0] != "d"@[0] && "y"@[0] != "w"@[0] && "y"@[0] != "m"@[0]);
    assert(Seq::<char>::empty() != "day"@);
}

/// Every category reads back from its name; `science` names the academic
/// category and `it` the code category too; an empty or unknown name means
/// the general category.
pub proof fn lemma_category_names(c: SearchCategory)
    ensures
        category_named(category_label(c)) == c,
        category_named("science"@) == SearchCategory::Academic,
        category_named("it"@) == SearchCategory::Code,
        category_named(Seq::empty()) == SearchCategory::General,
        category_named("video"@) == SearchCategory::General,
{
    reveal_strlit("general");
    reveal_strlit("news");
    reveal_strlit("academic");
    reveal_strlit("science");
    reveal_strlit("code");
    reveal_strlit("it");
    reveal_strlit("images");
    reveal_strlit("video");
    assert("general"@ =~= seq!['g', 'e', 'n', 'e', 'r', 'a', 'l']);
    assert("news"@ =~= seq!['n', 'e', 'w', 's']);
    assert("academic"@ =~= seq!['a', 'c', 'a', 'd', 'e', 'm', 'i', 'c']);
    assert("science"@ =~= seq!['s', 'c', 'i', 'e', 'n', 'c', 'e']);
    assert("code"@ =~= seq!['c', 'o', 'd', 'e']);
    assert("it"@ =~= seq!['i', 't']);
    assert("images"@ =~= seq!['i', 'm', 'a', 'g', 'e', 's']);
    assert("video"@ =~= seq!['v', 'i', 'd', 'e', 'o']);
}

/// A response served for a request keeps the first `max_results` results of
/// the stored one, in their order (all of them when there are fewer), and
/// everything else of it.
pub proof fn lemma_served_is_prefix(c: SearchResponse, resp: SearchResponse, max_results: usize)
    requires
        served(c, resp, max_results),
    ensures
        c.results@.len() == if resp.results@.len() <= max_results {
            resp.results@.len()
        } else {
            max_results as nat
        },
        forall|i: int| 0 <= i < c.results@.len() ==> c.results@[i] == resp.results@[i],
        c.query == resp.query,
        c.cached == resp.cached,
{
}

/// The persistent tier's read and `on_stored` agree: once `now` is past the
/// time to live, a row is served exactly when it was stored after the
/// cutoff that the read filters by, and the cutoff is never after `now`.
pub proof fn lemma_cutoff_matches_freshness(stored_at: u64, now: u64, ttl_secs: u64)
    ensures
        cutoff(now, ttl_secs) <= now,
        now >= ttl_secs ==> (row_fresh(stored_at, now, ttl_secs) <==> stored_at > cutoff(
            now,
            ttl_secs,
        )),
        now >= ttl_secs ==> cutoff(now, ttl_secs) + ttl_secs == now,
{
}

} // verus!
