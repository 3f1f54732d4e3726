//! Search backends and the router that chooses among them.
//!
//! Each backend turns a `SearchRequest` into the HTTP request its engine
//! expects and turns the engine's parsed answer into `SearchResult`s; the
//! program that embeds this library performs the HTTP exchange. The router
//! decides which backends to ask, in which order, and when to stop.

pub mod brave;
pub mod duckduckgo;
pub mod exa;
pub mod searxng;
pub mod tavily;

use vstd::prelude::*;
use vstd::utf8::encode_utf8;
use crate::backends::brave::BraveBackend;
use crate::backends::duckduckgo::DuckDuckGoBackend;
use crate::backends::exa::ExaBackend;
use crate::backends::searxng::SearxngBackend;
use crate::backends::tavily::TavilyBackend;
use crate::cache::Cache;
use crate::text::{eq_ignore_ascii_case, eq_ignore_ascii_case_seq, views};
use crate::types::{copy_results, SearchRequest, SearchResult};

verus! {

// ---------------------------------------------------------------------------
// URL encoding (the `urlencoding` crate)
// ---------------------------------------------------------------------------

/// Bytes that `urlencoding::encode` leaves as they are: ASCII letters and
/// digits and `-`, `.`, `_`, `~`.
pub open spec fn is_unreserved(b: u8) -> bool {
    (48 <= b <= 57) || (65 <= b <= 90) || (97 <= b <= 122) || b == 45 || b == 46 || b == 95 || b
        == 126
}

/// The uppercase hexadecimal digit of `n` (below 16).
pub open spec fn upper_hex_digit(n: u8) -> char {
    if n < 10 {
        ((48 + n) as u32) as char
    } else {
        ((55 + n) as u32) as char
    }
}

/// Percent-encoding of a byte string: unreserved bytes as themselves, every
/// other byte as `%` and two uppercase hexadecimal digits.
pub open spec fn percent_encoded(bytes: Seq<u8>) -> Seq<char>
    decreases bytes.len(),
{
    if bytes.len() == 0 {
        Seq::empty()
    } else {
        let b = bytes.last();
        percent_encoded(bytes.drop_last()) + if is_unreserved(b) {
            seq![(b as u32) as char]
        } else {
            seq!['%', upper_hex_digit(b / 16), upper_hex_digit(b % 16)]
        }
    }
}

/// The URL-encoded form of a text: its UTF-8 bytes, percent-encoded.
pub open spec fn url_encoded(s: Seq<char>) -> Seq<char> {
    percent_encoded(encode_utf8(s))
}

/// Calls `urlencoding::encode`, which percent-encodes the UTF-8 bytes of
/// the text except ASCII letters, digits and `-`, `.`, `_`, `~`, with
/// uppercase hexadecimal digits.
#[verifier::external_body]
pub(crate) fn url_encode(s: &str) -> (r: String)
    ensures
        r@ == url_encoded(s@),
{
    urlencoding::encode(s).into_owned()
}

// ---------------------------------------------------------------------------
// Positional scores
// ---------------------------------------------------------------------------

/// The score step between consecutive positions (0.05).
pub const RANK_STEP: i64 = 50_000;

/// The score of the result at position `i` when the engine gives none:
/// `base - i * 0.05`, bounded below by `i64::MIN`.
pub open spec fn rank_score(base: i64, i: int) -> i64 {
    let s = base - RANK_STEP * i;
    if s < i64::MIN {
        i64::MIN
    } else {
        s as i64
    }
}

/// The score of the result at position `i`, counting down from `base`.
pub fn rank_score_at(base: i64, i: usize) -> (s: i64)
    ensures
        s == rank_score(base, i as int),
{
    let d: i128 = (i as i128) * 50_000;
    let v: i128 = base as i128 - d;
    if v < -9223372036854775808i128 {
        i64::MIN
    } else {
        v as i64
    }
}

} // verus!

verus! {

/// One HTTP header of a request to an engine.
pub struct Header {
    pub name: String,
    pub value: String,
}

/// A header with the given name and value.
pub fn header(name: &str, value: &str) -> (h: Header)
    ensures
        h.name@ == name@,
        h.value@ == value@,
{
    Header { name: name.to_owned(), value: value.to_owned() }
}

/// Is `h` the header `name: value`?
pub open spec fn is_header(h: Header, name: Seq<char>, value: Seq<char>) -> bool {
    h.name@ == name && h.value@ == value
}

} // verus!

verus! {

// ---------------------------------------------------------------------------
// Backends
// ---------------------------------------------------------------------------

/// One of the search engines the router can ask.
pub enum Backend {
    Brave(BraveBackend),
    Exa(ExaBackend),
    Tavily(TavilyBackend),
    Searxng(SearxngBackend),
    DuckDuckGo(DuckDuckGoBackend),
}

/// The name of a backend.
pub open spec fn backend_name(b: Backend) -> Seq<char> {
    match b {
        Backend::Brave(_) => "brave"@,
        Backend::Exa(_) => "exa"@,
        Backend::Tavily(_) => "tavily"@,
        Backend::Searxng(_) => "searxng"@,
        Backend::DuckDuckGo(_) => "duckduckgo"@,
    }
}

/// The price of one query to a backend, in millionths of a dollar.
pub open spec fn backend_cost(b: Backend) -> u64 {
    match b {
        Backend::Brave(_) => 5000,
        Backend::Exa(_) => 3000,
        Backend::Tavily(_) => 8000,
        Backend::Searxng(_) => 0,
        Backend::DuckDuckGo(_) => 0,
    }
}

/// Can a backend be asked? (Every configured backend can.)
pub open spec fn backend_available(b: Backend) -> bool {
    true
}

impl Backend {
    /// The backend's name.
    pub fn name(&self) -> (r: &'static str)
        ensures
            r@ == backend_name(*self),
    {
        match self {
            Backend::Brave(b) => b.name(),
            Backend::Exa(b) => b.name(),
            Backend::Tavily(b) => b.name(),
            Backend::Searxng(b) => b.name(),
            Backend::DuckDuckGo(b) => b.name(),
        }
    }

    /// Can the backend be asked?
    pub fn is_available(&self) -> (r: bool)
        ensures
            r == backend_available(*self),
    {
        match self {
            Backend::Brave(b) => b.is_available(),
            Backend::Exa(b) => b.is_available(),
            Backend::Tavily(b) => b.is_available(),
            Backend::Searxng(b) => b.is_available(),
            Backend::DuckDuckGo(b) => b.is_available(),
        }
    }

    /// The price of one query, in millionths of a dollar.
    pub fn cost_per_query(&self) -> (c: u64)
        ensures
            c == backend_cost(*self),
    {
        match self {
            Backend::Brave(b) => b.cost_per_query(),
            Backend::Exa(b) => b.cost_per_query(),
            Backend::Tavily(b) => b.cost_per_query(),
            Backend::Searxng(b) => b.cost_per_query(),
            Backend::DuckDuckGo(b) => b.cost_per_query(),
        }
    }
}

// ---------------------------------------------------------------------------
// Routing
// ---------------------------------------------------------------------------

/// How the chosen backends are used.
#[derive(Clone, Copy, Debug, PartialEq, Eq, Structural)]
pub enum PlanMode {
    /// Ask every chosen backend and put their results together.
    Combine,
    /// Ask the backends in order until one returns results.
    FirstWithResults,
}

/// The backends to ask for a request (positions in the router's list), in
/// the order to ask them.
pub struct SearchPlan {
    pub mode: PlanMode,
    pub order: Vec<usize>,
}

/// Why a request cannot be routed.
#[derive(Clone, Copy, Debug, PartialEq, Eq, Structural)]
pub enum RouteError {
    /// No backend can be asked.
    NoBackendsAvailable,
}

impl RouteError {
    /// The error's description.
    pub fn message(&self) -> (m: &'static str)
        ensures
            m@ == "no search backends available"@,
    {
        match self {
            RouteError::NoBackendsAvailable => "no search backends available",
        }
    }
}

/// Does one of the requested names match the backend (ignoring ASCII case)?
pub open spec fn is_requested(b: Backend, names: Seq<Seq<char>>) -> bool {
    exists|j: int| 0 <= j < names.len() && eq_ignore_ascii_case_seq(#[trigger] names[j], backend_name(b))
}

/// The positions among the first `n` backends that are requested, in order.
pub open spec fn requested_positions(bs: Seq<Backend>, names: Seq<Seq<char>>, n: int) -> Seq<usize>
    decreases n,
{
    if n <= 0 {
        Seq::empty()
    } else {
        let p = requested_positions(bs, names, n - 1);
        if is_requested(bs[n - 1], names) {
            p.push((n - 1) as usize)
        } else {
            p
        }
    }
}

/// The positions among the first `n` backends that are available, in order.
pub open spec fn available_positions(bs: Seq<Backend>, n: int) -> Seq<usize>
    decreases n,
{
    if n <= 0 {
        Seq::empty()
    } else {
        let p = available_positions(bs, n - 1);
        if backend_available(bs[n - 1]) {
            p.push((n - 1) as usize)
        } else {
            p
        }
    }
}

/// The cost of the backend at a position.
pub open spec fn cost_at(bs: Seq<Backend>, i: usize) -> u64 {
    backend_cost(bs[i as int])
}

/// `x` placed into `order` after every position whose cost is at most its
/// own.
pub open spec fn insert_by_cost(bs: Seq<Backend>, order: Seq<usize>, x: usize) -> Seq<usize>
    decreases order.len(),
{
    if order.len() == 0 {
        seq![x]
    } else if cost_at(bs, order.last()) <= cost_at(bs, x) {
        order.push(x)
    } else {
        insert_by_cost(bs, order.drop_last(), x).push(order.last())
    }
}

/// The positions ordered by ascending cost; equal costs keep their order.
pub open spec fn by_cost(bs: Seq<Backend>, order: Seq<usize>) -> Seq<usize>
    decreases order.len(),
{
    if order.len() == 0 {
        Seq::empty()
    } else {
        insert_by_cost(bs, by_cost(bs, order.drop_last()), order.last())
    }
}

/// The plan for a request: the requested backends, if any of them is
/// registered, all asked and combined; otherwise the available backends,
/// cheapest first, until one returns results; no plan when none is
/// available.
pub open spec fn plan_for(bs: Seq<Backend>, names: Seq<Seq<char>>) -> Option<(PlanMode, Seq<usize>)> {
    let chosen = requested_positions(bs, names, bs.len() as int);
    let cheapest = by_cost(bs, available_positions(bs, bs.len() as int));
    if names.len() > 0 && chosen.len() > 0 {
        Some((PlanMode::Combine, chosen))
    } else if cheapest.len() == 0 {
        None
    } else {
        Some((PlanMode::FirstWithResults, cheapest))
    }
}

/// The backends in the order the router registers them: Brave, Exa, Tavily
/// and SearXNG when configured, then DuckDuckGo.
pub open spec fn registration(
    brave: Option<BraveBackend>,
    exa: Option<ExaBackend>,
    tavily: Option<TavilyBackend>,
    searxng: Option<SearxngBackend>,
    ddg: DuckDuckGoBackend,
) -> Seq<Backend> {
    let s0: Seq<Backend> = Seq::empty();
    let s1 = match brave {
        Some(b) => s0.push(Backend::Brave(b)),
        None => s0,
    };
    let s2 = match exa {
        Some(b) => s1.push(Backend::Exa(b)),
        None => s1,
    };
    let s3 = match tavily {
        Some(b) => s2.push(Backend::Tavily(b)),
        None => s2,
    };
    let s4 = match searxng {
        Some(b) => s3.push(Backend::Searxng(b)),
        None => s3,
    };
    s4.push(Backend::DuckDuckGo(ddg))
}

/// Routes queries to backends by cost and availability, and holds the
/// response cache.
pub struct Router {
    backends: Vec<Backend>,
    cache: Cache,
}

impl Router {
    /// The registered backends, in order.
    pub closed spec fn registered(&self) -> Seq<Backend> {
        self.backends@
    }

    /// The response cache.
    pub closed spec fn cache_state(&self) -> Cache {
        self.cache
    }

    /// The response cache.
    pub fn cache(&self) -> (c: &Cache)
        ensures
            *c == self.cache_state(),
    {
        &self.cache
    }

    /// The response cache, to update it.
    pub fn cache_mut(&mut self) -> (c: &mut Cache)
        ensures
            *c == old(self).cache_state(),
            final(self).cache_state() == *final(c),
            final(self).registered() == old(self).registered(),
    {
        &mut self.cache
    }

    /// The router over the configured backends (each `None` when its
    /// configuration is absent); DuckDuckGo is always added, last.
    pub fn from_env(
        cache: Cache,
        brave: Option<BraveBackend>,
        exa: Option<ExaBackend>,
        tavily: Option<TavilyBackend>,
        searxng: Option<SearxngBackend>,
    ) -> (r: Router)
        ensures
            r.registered() == registration(brave, exa, tavily, searxng, DuckDuckGoBackend {  }),
            r.cache_state() == cache,
    {
        let mut backends: Vec<Backend> = Vec::new();
        match brave {
            Some(b) => backends.push(Backend::Brave(b)),
            None => {},
        }
        match exa {
            Some(b) => backends.push(Backend::Exa(b)),
            None => {},
        }
        match tavily {
            Some(b) => backends.push(Backend::Tavily(b)),
            None => {},
        }
        match searxng {
            Some(b) => backends.push(Backend::Searxng(b)),
            None => {},
        }
        backends.push(Backend::DuckDuckGo(DuckDuckGoBackend::new()));
        Router { backends, cache }
    }

    /// The registered backends, in order.
    pub fn backends(&self) -> (b: &Vec<Backend>)
        ensures
            b@ == self.registered(),
    {
        &self.backends
    }

    /// The names of the available backends, in order.
    pub fn available_backends(&self) -> (names: Vec<String>)
        ensures
            names@.len() == available_positions(self.registered(), self.registered().len() as int).len(),
            forall|i: int|
                0 <= i < names@.len() ==> (#[trigger] names@[i])@ == backend_name(
                    self.registered()[available_positions(
                        self.registered(),
                        self.registered().len() as int,
                    )[i] as int],
                ),
            views(names@) == available_names(self.registered()),
    {
        let ghost bs = self.backends@;
        let mut names: Vec<String> = Vec::new();
        let mut i: usize = 0;
        while i < self.backends.len()
            invariant
                bs == self.backends@,
                i <= bs.len(),
                names@.len() == available_positions(bs, i as int).len(),
                forall|k: int|
                    0 <= k < names@.len() ==> (#[trigger] names@[k])@ == backend_name(
                        bs[available_positions(bs, i as int)[k] as int],
                    ),
            decreases bs.len() - i,
        {
            if self.backends[i].is_available() {
                names.push(String::from_str(self.backends[i].name()));
            }
            i = i + 1;
        }
        assert(views(names@) =~= available_names(bs));
        names
    }

    /// Is the backend at position `i` requested by one of `names`?
    fn requested_by(&self, i: usize, names: &Vec<String>) -> (r: bool)
        requires
            i < self.registered().len(),
        ensures
            r == is_requested(self.registered()[i as int], views(names@)),
    {
        let name = self.backends[i].name();
        let mut j: usize = 0;
        while j < names.len()
            invariant
                j <= names@.len(),
                name@ == backend_name(self.registered()[i as int]),
                forall|k: int| 0 <= k < j ==> !eq_ignore_ascii_case_seq(#[trigger] views(names@)[k], name@),
            decreases names@.len() - j,
        {
            if eq_ignore_ascii_case(names[j].as_str(), name) {
                assert(eq_ignore_ascii_case_seq(views(names@)[j as int], name@));
                return true;
            }
            j = j + 1;
        }
        false
    }

    /// The backends to ask for a request, and how.
    pub fn plan(&self, request: &SearchRequest) -> (p: Result<SearchPlan, RouteError>)
        ensures
            match p {
                Ok(plan) => plan_for(self.registered(), views(request.backends@)) == Some(
                    (plan.mode, plan.order@),
                ),
                Err(_) => plan_for(self.registered(), views(request.backends@)) is None,
            },
    {
        let ghost bs = self.backends@;
        let ghost names = views(request.backends@);
        if request.backends.len() > 0 {
            let mut chosen: Vec<usize> = Vec::new();
            let mut i: usize = 0;
            while i < self.backends.len()
                invariant
                    bs == self.backends@,
                    bs == self.registered(),
                    names == views(request.backends@),
                    i <= bs.len(),
                    chosen@ == requested_positions(bs, names, i as int),
                decreases bs.len() - i,
            {
                if self.requested_by(i, &request.backends) {
                    chosen.push(i);
                }
                i = i + 1;
            }
            if chosen.len() > 0 {
                return Ok(SearchPlan { mode: PlanMode::Combine, order: chosen });
            }
        }
        let mut available: Vec<usize> = Vec::new();
        let mut i: usize = 0;
        while i < self.backends.len()
            invariant
                bs == self.backends@,
                i <= bs.len(),
                available@ == available_positions(bs, i as int),
                forall|k: int| 0 <= k < available@.len() ==> (#[trigger] available@[k]) < bs.len(),
            decreases bs.len() - i,
        {
            if self.backends[i].is_available() {
                available.push(i);
            }
            i = i + 1;
        }
        let ordered = self.order_by_cost(&available);
        if ordered.len() == 0 {
            Err(RouteError::NoBackendsAvailable)
        } else {
            Ok(SearchPlan { mode: PlanMode::FirstWithResults, order: ordered })
        }
    }

    /// Starts a search for a request: a run over the backends of its plan.
    pub fn search(&self, request: &SearchRequest) -> (r: Result<SearchRun, RouteError>)
        ensures
            match r {
                Ok(run) => {
                    &&& run.wf()
                    &&& plan_for(self.registered(), views(request.backends@)) == Some(
                        (run.mode(), run.order()),
                    )
                    &&& run.outcomes().len() == 0
                },
                Err(_) => plan_for(self.registered(), views(request.backends@)) is None,
            },
    {
        match self.plan(request) {
            Ok(plan) => Ok(SearchRun::start(plan)),
            Err(e) => Err(e),
        }
    }

    /// Positions ordered by ascending cost, equal costs keeping their order.
    fn order_by_cost(&self, positions: &Vec<usize>) -> (r: Vec<usize>)
        requires
            forall|k: int| 0 <= k < positions@.len() ==> (#[trigger] positions@[k]) < self.registered().len(),
        ensures
            r@ == by_cost(self.registered(), positions@),
    {
        let ghost bs = self.backends@;
        let mut out: Vec<usize> = Vec::new();
        let mut i: usize = 0;
        assert(positions@.take(0) =~= Seq::<usize>::empty());
        while i < positions.len()
            invariant
                bs == self.backends@,
                i <= positions@.len(),
                forall|k: int| 0 <= k < positions@.len() ==> (#[trigger] positions@[k]) < bs.len(),
                out@ == by_cost(bs, positions@.take(i as int)),
                forall|k: int| 0 <= k < out@.len() ==> (#[trigger] out@[k]) < bs.len(),
            decreases positions@.len() - i,
        {
            assert(positions@.take(i + 1).drop_last() =~= positions@.take(i as int));
            let x = positions[i];
            let cx = self.backends[x].cost_per_query();
            let mut pos: usize = out.len();
            while pos > 0 && self.backends[out[pos - 1]].cost_per_query() > cx
                invariant
                    bs == self.backends@,
                    pos <= out@.len(),
                    x < bs.len(),
                    cx == cost_at(bs, x),
                    forall|k: int| 0 <= k < out@.len() ==> (#[trigger] out@[k]) < bs.len(),
                    forall|k: int| pos <= k < out@.len() ==> cost_at(bs, #[trigger] out@[k]) > cx,
                decreases pos,
            {
                pos = pos - 1;
            }
            proof {
                lemma_insert_by_cost_at(bs, out@, x, pos as int);
            }
            out.insert(pos, x);
            i = i + 1;
        }
        assert(positions@.take(positions@.len() as int) =~= positions@);
        out
    }
}

proof fn lemma_insert_by_cost_at(bs: Seq<Backend>, order: Seq<usize>, x: usize, pos: int)
    requires
        0 <= pos <= order.len(),
        pos == 0 || cost_at(bs, order[pos - 1]) <= cost_at(bs, x),
        forall|k: int| pos <= k < order.len() ==> cost_at(bs, #[trigger] order[k]) > cost_at(bs, x),
    ensures
        insert_by_cost(bs, order, x) == order.insert(pos, x),
    decreases order.len(),
{
    if order.len() == 0 {
        assert(order.insert(pos, x) =~= seq![x]);
    } else if pos == order.len() {
        assert(order.insert(pos, x) =~= order.push(x));
    } else {
        lemma_insert_by_cost_at(bs, order.drop_last(), x, pos);
        assert(order.drop_last().insert(pos, x).push(order.last()) =~= order.insert(pos, x));
    }
}

} // verus!

verus! {

// ---------------------------------------------------------------------------
// Running a plan
// ---------------------------------------------------------------------------

/// The outcome of asking one backend: its results, or `None` when it failed.
pub open spec fn outcome_view(o: Option<Vec<SearchResult>>) -> Option<Seq<SearchResult>> {
    match o {
        Some(v) => Some(v@),
        None => None,
    }
}

/// The results of every backend that answered, in the order they were asked.
pub open spec fn combined_results(outs: Seq<Option<Seq<SearchResult>>>) -> Seq<SearchResult>
    decreases outs.len(),
{
    if outs.len() == 0 {
        Seq::empty()
    } else {
        combined_results(outs.drop_last()) + match outs.last() {
            Some(rs) => rs,
            None => Seq::empty(),
        }
    }
}

/// The first non-empty answer, if any.
pub open spec fn first_with_results(outs: Seq<Option<Seq<SearchResult>>>) -> Option<Seq<SearchResult>>
    decreases outs.len(),
{
    if outs.len() == 0 {
        None
    } else {
        match first_with_results(outs.drop_last()) {
            Some(rs) => Some(rs),
            None => if outs.last() is Some && outs.last()->0.len() > 0 {
                outs.last()
            } else {
                None
            },
        }
    }
}

/// The results of a run after the given outcomes: all of them combined, or
/// the first non-empty answer (nothing when there is none).
pub open spec fn run_results(mode: PlanMode, outs: Seq<Option<Seq<SearchResult>>>) -> Seq<SearchResult> {
    match mode {
        PlanMode::Combine => combined_results(outs),
        PlanMode::FirstWithResults => match first_with_results(outs) {
            Some(rs) => rs,
            None => Seq::empty(),
        },
    }
}

/// Is a run over `n` backends finished after the given outcomes? It is when
/// every backend was asked, or, when the first answer with results is
/// wanted, once one has come.
pub open spec fn run_finished(mode: PlanMode, n: nat, outs: Seq<Option<Seq<SearchResult>>>) -> bool {
    outs.len() >= n || (mode == PlanMode::FirstWithResults && first_with_results(outs) is Some)
}

/// The progress of a search through the backends of a plan: which backend to
/// ask next, and what has been gathered.
pub struct SearchRun {
    mode: PlanMode,
    order: Vec<usize>,
    collected: Vec<SearchResult>,
    found: bool,
    asked: usize,
    outcomes: Ghost<Seq<Option<Seq<SearchResult>>>>,
}

impl SearchRun {
    /// How the backends are used.
    pub closed spec fn mode(&self) -> PlanMode {
        self.mode
    }

    /// The backends to ask, in order.
    pub closed spec fn order(&self) -> Seq<usize> {
        self.order@
    }

    /// The outcomes recorded so far, one per backend asked.
    pub closed spec fn outcomes(&self) -> Seq<Option<Seq<SearchResult>>> {
        self.outcomes@
    }

    /// The run's internal state agrees with its outcomes.
    pub closed spec fn wf(&self) -> bool {
        &&& self.outcomes@.len() <= self.order@.len()
        &&& self.asked == self.outcomes@.len()
        &&& self.found == (self.mode == PlanMode::FirstWithResults && first_with_results(
            self.outcomes@,
        ) is Some)
        &&& self.collected@ == run_results(self.mode, self.outcomes@)
    }

    /// A run of a plan, before any backend is asked.
    pub fn start(plan: SearchPlan) -> (r: SearchRun)
        ensures
            r.wf(),
            r.mode() == plan.mode,
            r.order() == plan.order@,
            r.outcomes() == Seq::<Option<Seq<SearchResult>>>::empty(),
    {
        SearchRun {
            mode: plan.mode,
            order: plan.order,
            collected: Vec::new(),
            found: false,
            asked: 0,
            outcomes: Ghost(Seq::empty()),
        }
    }

    /// The position of the backend to ask next, or `None` when the run is
    /// finished.
    pub fn next_backend(&self) -> (n: Option<usize>)
        requires
            self.wf(),
        ensures
            n == if run_finished(self.mode(), self.order().len(), self.outcomes()) {
                None
            } else {
                Some(self.order()[self.outcomes().len() as int])
            },
    {
        if self.found || self.asked >= self.order.len() {
            None
        } else {
            Some(self.order[self.asked])
        }
    }

    /// Records the outcome of asking the next backend.
    pub fn record(&mut self, outcome: Option<Vec<SearchResult>>)
        requires
            old(self).wf(),
            !run_finished(old(self).mode(), old(self).order().len(), old(self).outcomes()),
        ensures
            final(self).wf(),
            final(self).mode() == old(self).mode(),
            final(self).order() == old(self).order(),
            final(self).outcomes() == old(self).outcomes().push(outcome_view(outcome)),
    {
        let ghost outs = self.outcomes@;
        let ghost o = outcome_view(outcome);
        assert(outs.push(o).drop_last() =~= outs);
        match self.mode {
            PlanMode::Combine => {
                match outcome {
                    Some(mut rs) => {
                        self.collected.append(&mut rs);
                    },
                    None => {
                        assert(self.collected@ =~= self.collected@ + Seq::<SearchResult>::empty());
                    },
                }
            },
            PlanMode::FirstWithResults => {
                match outcome {
                    Some(rs) => {
                        if rs.len() > 0 {
                            self.collected = rs;
                            self.found = true;
                        }
                    },
                    None => {},
                }
            },
        }
        self.outcomes = Ghost(outs.push(o));
        let n = self.order.len();
        assert(self.asked < n);
        self.asked = self.asked + 1;
    }

    /// A copy of the results gathered so far.
    pub fn results(&self) -> (r: Vec<SearchResult>)
        requires
            self.wf(),
        ensures
            r@ == run_results(self.mode(), self.outcomes()),
    {
        copy_results(&self.collected)
    }

    /// The results gathered by the run.
    pub fn into_results(self) -> (r: Vec<SearchResult>)
        requires
            self.wf(),
        ensures
            r@ == run_results(self.mode(), self.outcomes()),
    {
        self.collected
    }
}

} // verus!

verus! {

// ---------------------------------------------------------------------------
// Laws of routing
// ---------------------------------------------------------------------------

/// Costs never decrease along `order`.
pub open spec fn ascending_cost(bs: Seq<Backend>, order: Seq<usize>) -> bool {
    forall|i: int, j: int|
        0 <= i <= j < order.len() ==> cost_at(bs, #[trigger] order[i]) <= cost_at(bs, #[trigger] order[j])
}

/// Where `insert_by_cost` puts `x` into `order`.
spec fn cost_slot(bs: Seq<Backend>, order: Seq<usize>, x: usize) -> int
    decreases order.len(),
{
    if order.len() == 0 || cost_at(bs, order.last()) <= cost_at(bs, x) {
        order.len() as int
    } else {
        cost_slot(bs, order.drop_last(), x)
    }
}

proof fn lemma_cost_slot(bs: Seq<Backend>, order: Seq<usize>, x: usize)
    requires
        ascending_cost(bs, order),
    ensures
        0 <= cost_slot(bs, order, x) <= order.len(),
        cost_slot(bs, order, x) == 0 || cost_at(bs, order[cost_slot(bs, order, x) - 1]) <= cost_at(
            bs,
            x,
        ),
        forall|k: int|
            cost_slot(bs, order, x) <= k < order.len() ==> cost_at(bs, #[trigger] order[k]) > cost_at(
                bs,
                x,
            ),
    decreases order.len(),
{
    if order.len() > 0 && cost_at(bs, order.last()) > cost_at(bs, x) {
        let p = order.drop_last();
        assert(ascending_cost(bs, p)) by {
            assert forall|i: int, j: int| 0 <= i <= j < p.len() implies cost_at(bs, #[trigger] p[i])
                <= cost_at(bs, #[trigger] p[j]) by {
                assert(p[i] == order[i] && p[j] == order[j]);
            }
        }
        lemma_cost_slot(bs, p, x);
        let s = cost_slot(bs, p, x);
        assert forall|k: int| s <= k < order.len() implies cost_at(bs, #[trigger] order[k]) > cost_at(
            bs,
            x,
        ) by {
            if k < p.len() {
                assert(order[k] == p[k]);
            }
        }
    }
}

/// Ordering by cost yields every position once, cheapest first.
pub proof fn lemma_by_cost_ascending(bs: Seq<Backend>, order: Seq<usize>)
    ensures
        ascending_cost(bs, by_cost(bs, order)),
        by_cost(bs, order).len() == order.len(),
        by_cost(bs, order).to_multiset() =~= order.to_multiset(),
    decreases order.len(),
{
    broadcast use vstd::seq_lib::group_to_multiset_ensures;

    if order.len() > 0 {
        let p = by_cost(bs, order.drop_last());
        let x = order.last();
        lemma_by_cost_ascending(bs, order.drop_last());
        lemma_cost_slot(bs, p, x);
        let s = cost_slot(bs, p, x);
        lemma_insert_by_cost_at(bs, p, x, s);
        let q = p.insert(s, x);
        assert forall|i: int, j: int| 0 <= i <= j < q.len() implies cost_at(bs, #[trigger] q[i])
            <= cost_at(bs, #[trigger] q[j]) by {
            if i < s && j < s {
                assert(q[i] == p[i] && q[j] == p[j]);
            } else if i < s && j == s {
                assert(q[i] == p[i]);
            } else if i < s && j > s {
                assert(q[i] == p[i] && q[j] == p[j - 1]);
            } else if i == s && j > s {
                assert(q[j] == p[j - 1]);
            } else if i > s {
                assert(q[i] == p[i - 1] && q[j] == p[j - 1]);
            }
        }
        assert(p.insert(s, x) =~= p.take(s).push(x) + p.skip(s));
        vstd::seq_lib::lemma_multiset_commutative(p.take(s).push(x), p.skip(s));
        vstd::seq_lib::lemma_multiset_commutative(p.take(s), p.skip(s));
        assert(p =~= p.take(s) + p.skip(s));
        assert(order.drop_last().push(x) =~= order);
    }
}

/// A plan always names at least one backend.
pub proof fn lemma_plan_nonempty(bs: Seq<Backend>, names: Seq<Seq<char>>)
    ensures
        plan_for(bs, names) matches Some(p) ==> p.1.len() > 0,
{
}

/// The positions of a plan (empty when there is none).
pub open spec fn plan_order(bs: Seq<Backend>, names: Seq<Seq<char>>) -> Seq<usize> {
    match plan_for(bs, names) {
        Some(p) => p.1,
        None => Seq::empty(),
    }
}

/// When the cheapest backend is wanted first, the plan asks the available
/// backends in order of ascending cost, every one of them.
pub proof fn lemma_plan_cheapest_first(bs: Seq<Backend>, names: Seq<Seq<char>>)
    requires
        plan_for(bs, names) matches Some((PlanMode::FirstWithResults, _)),
    ensures
        ascending_cost(bs, plan_order(bs, names)),
        plan_order(bs, names).to_multiset() =~= available_positions(
            bs,
            bs.len() as int,
        ).to_multiset(),
{
    lemma_by_cost_ascending(bs, available_positions(bs, bs.len() as int));
}

proof fn lemma_requested_positions(bs: Seq<Backend>, names: Seq<Seq<char>>, n: int)
    requires
        0 <= n <= bs.len(),
        bs.len() <= usize::MAX,
    ensures
        forall|i: int|
            0 <= i < requested_positions(bs, names, n).len() ==> {
                &&& #[trigger] requested_positions(bs, names, n)[i] < n
                &&& is_requested(bs[requested_positions(bs, names, n)[i] as int], names)
            },
        forall|p: int|
            0 <= p < n && is_requested(#[trigger] bs[p], names) ==> requested_positions(
                bs,
                names,
                n,
            ).contains(p as usize),
    decreases n,
{
    if n > 0 {
        lemma_requested_positions(bs, names, n - 1);
        let q = requested_positions(bs, names, n - 1);
        let r = requested_positions(bs, names, n);
        assert forall|p: int| 0 <= p < n && is_requested(#[trigger] bs[p], names) implies r.contains(
            p as usize,
        ) by {
            if p < n - 1 {
                let k = choose|k: int| 0 <= k < q.len() && q[k] == p as usize;
                assert(r[k] == q[k]);
            } else {
                assert(r[r.len() - 1] == p as usize);
            }
        }
        assert forall|i: int| 0 <= i < r.len() implies {
            &&& #[trigger] r[i] < n
            &&& is_requested(bs[r[i] as int], names)
        } by {
            if i < q.len() {
                assert(r[i] == q[i]);
            }
        }
    }
}

/// When requested backends are registered, the plan asks exactly those, in
/// the order they are registered, and combines their results.
pub proof fn lemma_plan_requested(bs: Seq<Backend>, names: Seq<Seq<char>>)
    requires
        bs.len() <= usize::MAX,
        plan_for(bs, names) matches Some((PlanMode::Combine, _)),
    ensures
        forall|i: int|
            0 <= i < plan_order(bs, names).len() ==> is_requested(
                bs[#[trigger] plan_order(bs, names)[i] as int],
                names,
            ),
        forall|p: int|
            0 <= p < bs.len() && is_requested(#[trigger] bs[p], names) ==> plan_order(
                bs,
                names,
            ).contains(p as usize),
{
    lemma_requested_positions(bs, names, bs.len() as int);
}

proof fn lemma_available_positions_len(bs: Seq<Backend>, n: int)
    requires
        0 < n <= bs.len(),
        backend_available(bs[n - 1]),
    ensures
        available_positions(bs, n).len() > 0,
{
}

/// A router built from the environment always has a plan: DuckDuckGo is
/// always registered and available.
pub proof fn lemma_router_always_routes(
    brave: Option<BraveBackend>,
    exa: Option<ExaBackend>,
    tavily: Option<TavilyBackend>,
    searxng: Option<SearxngBackend>,
    names: Seq<Seq<char>>,
)
    ensures
        plan_for(
            registration(brave, exa, tavily, searxng, DuckDuckGoBackend {  }),
            names,
        ) is Some,
{
    let bs = registration(brave, exa, tavily, searxng, DuckDuckGoBackend {  });
    lemma_available_positions_len(bs, bs.len() as int);
    lemma_by_cost_ascending(bs, available_positions(bs, bs.len() as int));
}

/// The first answer with results is an answer with results, and every
/// earlier answer failed or was empty; without one, every answer failed or
/// was empty.
pub proof fn lemma_first_with_results(outs: Seq<Option<Seq<SearchResult>>>)
    ensures
        first_with_results(outs) matches Some(rs) ==> exists|i: int|
            0 <= i < outs.len() && #[trigger] outs[i] == Some(rs) && rs.len() > 0 && forall|j: int|
                0 <= j < i ==> !(outs[j] is Some && (#[trigger] outs[j])->0.len() > 0),
        first_with_results(outs) is None ==> forall|j: int|
            0 <= j < outs.len() ==> !(outs[j] is Some && (#[trigger] outs[j])->0.len() > 0),
    decreases outs.len(),
{
    if outs.len() > 0 {
        let p = outs.drop_last();
        lemma_first_with_results(p);
        match first_with_results(p) {
            Some(rs) => {
                let i = choose|i: int|
                    0 <= i < p.len() && #[trigger] p[i] == Some(rs) && rs.len() > 0 && forall|j: int|
                        0 <= j < i ==> !(p[j] is Some && (#[trigger] p[j])->0.len() > 0);
                assert(outs[i] == p[i]);
                assert forall|j: int| 0 <= j < i implies !(outs[j] is Some && (
                #[trigger] outs[j])->0.len() > 0) by {
                    assert(outs[j] == p[j]);
                }
            },
            None => {
                assert forall|j: int| 0 <= j < outs.len() - 1 implies !(outs[j] is Some && (
                #[trigger] outs[j])->0.len() > 0) by {
                    assert(outs[j] == p[j]);
                }
            },
        }
    }
}

} // verus!

verus! {

/// The names of the backends at the given positions, in order.
pub open spec fn names_at(bs: Seq<Backend>, order: Seq<usize>) -> Seq<Seq<char>> {
    order.map_values(|p: usize| backend_name(bs[p as int]))
}

/// The names of the available backends, in the router's order.
pub open spec fn available_names(bs: Seq<Backend>) -> Seq<Seq<char>> {
    names_at(bs, available_positions(bs, bs.len() as int))
}

/// `item` when `present`, else nothing.
pub open spec fn optional<T>(present: bool, item: T) -> Seq<T> {
    if present {
        seq![item]
    } else {
        Seq::empty()
    }
}

/// The names of the backends a router from the environment registers, in
/// order: Brave, Exa, Tavily and SearXNG when configured, then DuckDuckGo.
pub open spec fn registered_names(brave: bool, exa: bool, tavily: bool, searxng: bool) -> Seq<
    Seq<char>,
> {
    optional(brave, "brave"@) + optional(exa, "exa"@) + optional(tavily, "tavily"@) + optional(
        searxng,
        "searxng"@,
    ) + seq!["duckduckgo"@]
}

/// The order in which such a router asks its backends when none is
/// requested: cheapest first, free SearXNG before free DuckDuckGo, then Exa,
/// Brave and Tavily, each when configured.
pub open spec fn cheapest_first_names(brave: bool, exa: bool, tavily: bool, searxng: bool) -> Seq<
    Seq<char>,
> {
    optional(searxng, "searxng"@) + seq!["duckduckgo"@] + optional(exa, "exa"@) + optional(
        brave,
        "brave"@,
    ) + optional(tavily, "tavily"@)
}

proof fn lemma_names_at_add(bs: Seq<Backend>, a: Seq<usize>, b: Seq<usize>)
    ensures
        names_at(bs, a + b) == names_at(bs, a) + names_at(bs, b),
{
    assert(names_at(bs, a + b) =~= names_at(bs, a) + names_at(bs, b));
}

proof fn lemma_available_all(bs: Seq<Backend>, k: int)
    requires
        0 <= k <= bs.len() <= usize::MAX,
    ensures
        available_positions(bs, k).len() == k,
        forall|i: int| 0 <= i < k ==> #[trigger] available_positions(bs, k)[i] == i as usize,
    decreases k,
{
    if k > 0 {
        lemma_available_all(bs, k - 1);
        let o = available_positions(bs, k - 1);
        assert(available_positions(bs, k) == o.push((k - 1) as usize));
    }
}

proof fn lemma_by_cost_available_step(bs: Seq<Backend>, k: int)
    requires
        0 <= k < bs.len() <= usize::MAX,
    ensures
        by_cost(bs, available_positions(bs, k + 1)) == insert_by_cost(
            bs,
            by_cost(bs, available_positions(bs, k)),
            k as usize,
        ),
{
    let o = available_positions(bs, k);
    assert(available_positions(bs, k + 1) == o.push(k as usize));
    assert(o.push(k as usize).drop_last() =~= o);
}

/// `x` goes after every position that costs no more and before every one
/// that costs more.
proof fn lemma_insert_between(bs: Seq<Backend>, p: Seq<usize>, q: Seq<usize>, x: usize)
    requires
        forall|i: int| 0 <= i < p.len() ==> cost_at(bs, #[trigger] p[i]) <= cost_at(bs, x),
        forall|j: int| 0 <= j < q.len() ==> cost_at(bs, #[trigger] q[j]) > cost_at(bs, x),
    ensures
        insert_by_cost(bs, p + q, x) == p.push(x) + q,
    decreases q.len(),
{
    if q.len() == 0 {
        assert(p + q =~= p);
        assert(p.push(x) + q =~= p.push(x));
        if p.len() > 0 {
            assert(cost_at(bs, p[p.len() - 1]) <= cost_at(bs, x));
        } else {
            assert(seq![x] =~= p.push(x));
        }
    } else {
        let q2 = q.drop_last();
        assert forall|j: int| 0 <= j < q2.len() implies cost_at(bs, #[trigger] q2[j]) > cost_at(
            bs,
            x,
        ) by {
            assert(q2[j] == q[j]);
        }
        lemma_insert_between(bs, p, q2, x);
        assert((p + q).drop_last() =~= p + q2);
        assert((p + q).last() == q[q.len() - 1]);
        assert((p.push(x) + q2).push(q[q.len() - 1]) =~= p.push(x) + q);
    }
}

/// A router built from the environment makes every registered backend
/// available: it lists the names of all of them, in registration order,
/// never none, each once, DuckDuckGo last.
pub proof fn lemma_default_router_names(
    brave: Option<BraveBackend>,
    exa: Option<ExaBackend>,
    tavily: Option<TavilyBackend>,
    searxng: Option<SearxngBackend>,
)
    ensures
        available_names(registration(brave, exa, tavily, searxng, DuckDuckGoBackend {  }))
            == registered_names(brave is Some, exa is Some, tavily is Some, searxng is Some),
        available_names(registration(brave, exa, tavily, searxng, DuckDuckGoBackend {  })).len()
            > 0,
        available_names(
            registration(brave, exa, tavily, searxng, DuckDuckGoBackend {  }),
        ).last() == "duckduckgo"@,
        available_names(
            registration(brave, exa, tavily, searxng, DuckDuckGoBackend {  }),
        ).no_duplicates(),
{
    reveal_strlit("brave");
    reveal_strlit("exa");
    reveal_strlit("tavily");
    reveal_strlit("searxng");
    reveal_strlit("duckduckgo");
    let bs = registration(brave, exa, tavily, searxng, DuckDuckGoBackend {  });
    let n = bs.len() as int;
    lemma_available_all(bs, n);
    let names = available_names(bs);
    let expected = registered_names(brave is Some, exa is Some, tavily is Some, searxng is Some);
    assert(names =~= expected);
    assert forall|i: int, j: int| 0 <= i < j < names.len() implies names[i] != names[j] by {
        assert(names[i].len() != names[j].len());
    }
}

/// A router built from the environment, asked for no backend it has, tries
/// its backends cheapest first: SearXNG (when configured), DuckDuckGo, Exa,
/// Brave, Tavily (each when configured), until one returns results.
pub proof fn lemma_default_plan_order(
    brave: Option<BraveBackend>,
    exa: Option<ExaBackend>,
    tavily: Option<TavilyBackend>,
    searxng: Option<SearxngBackend>,
    names: Seq<Seq<char>>,
)
    requires
        forall|i: int|
            0 <= i < registration(brave, exa, tavily, searxng, DuckDuckGoBackend {  }).len()
                ==> !is_requested(
                #[trigger] registration(brave, exa, tavily, searxng, DuckDuckGoBackend {  })[i],
                names,
            ),
    ensures
        plan_for(registration(brave, exa, tavily, searxng, DuckDuckGoBackend {  }), names)
            matches Some((mode, order)) && mode == PlanMode::FirstWithResults && names_at(
            registration(brave, exa, tavily, searxng, DuckDuckGoBackend {  }),
            order,
        ) == cheapest_first_names(brave is Some, exa is Some, tavily is Some, searxng is Some),
{
    let bs = registration(brave, exa, tavily, searxng, DuckDuckGoBackend {  });
    let n = bs.len() as int;
    lemma_requested_positions(bs, names, n);
    let chosen = requested_positions(bs, names, n);
    if chosen.len() > 0 {
        assert(is_requested(bs[chosen[0] as int], names));
    }
    let (b, e, t, s) = (brave is Some, exa is Some, tavily is Some, searxng is Some);
    let k1: int = if b { 1 } else { 0 };
    let k2: int = k1 + if e { 1int } else { 0int };
    let k3: int = k2 + if t { 1int } else { 0int };
    let k4: int = k3 + if s { 1int } else { 0int };
    assert(n == k4 + 1);
    let empty = Seq::<usize>::empty();
    // Brave
    let o1 = optional(b, 0usize);
    assert(by_cost(bs, available_positions(bs, 0)) == empty);
    if b {
        lemma_by_cost_available_step(bs, 0);
        lemma_insert_between(bs, empty, empty, 0);
        assert(empty.push(0usize) + empty =~= o1);
        assert(empty + empty =~= empty);
    }
    assert(by_cost(bs, available_positions(bs, k1)) == o1);
    // Exa, cheaper than Brave
    let o2 = optional(e, k1 as usize) + o1;
    if e {
        lemma_by_cost_available_step(bs, k1);
        lemma_insert_between(bs, empty, o1, k1 as usize);
        assert(empty + o1 =~= o1);
        assert(empty.push(k1 as usize) =~= optional(e, k1 as usize));
    } else {
        assert(o2 =~= o1);
    }
    assert(by_cost(bs, available_positions(bs, k2)) == o2);
    // Tavily, dearer than both
    let o3 = o2 + optional(t, k2 as usize);
    if t {
        lemma_by_cost_available_step(bs, k2);
        lemma_insert_between(bs, o2, empty, k2 as usize);
        assert(o2 + empty =~= o2);
        assert(o2.push(k2 as usize) + empty =~= o3);
    } else {
        assert(o3 =~= o2);
    }
    assert(by_cost(bs, available_positions(bs, k3)) == o3);
    // SearXNG, free
    let o4 = optional(s, k3 as usize) + o3;
    if s {
        lemma_by_cost_available_step(bs, k3);
        lemma_insert_between(bs, empty, o3, k3 as usize);
        assert(empty + o3 =~= o3);
        assert(empty.push(k3 as usize) =~= optional(s, k3 as usize));
    } else {
        assert(o4 =~= o3);
    }
    assert(by_cost(bs, available_positions(bs, k4)) == o4);
    // DuckDuckGo, free, after SearXNG
    let o5 = optional(s, k3 as usize).push(k4 as usize) + o3;
    lemma_by_cost_available_step(bs, k4);
    lemma_insert_between(bs, optional(s, k3 as usize), o3, k4 as usize);
    assert(by_cost(bs, available_positions(bs, n)) == o5);
    // their names
    reveal_strlit("brave");
    reveal_strlit("exa");
    reveal_strlit("tavily");
    reveal_strlit("searxng");
    reveal_strlit("duckduckgo");
    assert(names_at(bs, o5) =~= cheapest_first_names(b, e, t, s));
}

} // verus!

verus! {

/// Every result of every answer is among the combined results.
proof fn lemma_combined_contains(outs: Seq<Option<Seq<SearchResult>>>)
    ensures
        forall|i: int, j: int|
            0 <= i < outs.len() && #[trigger] outs[i] is Some && 0 <= j < outs[i]->0.len()
                ==> combined_results(outs).contains(#[trigger] outs[i]->0[j]),
    decreases outs.len(),
{
    if outs.len() > 0 {
        let p = outs.drop_last();
        lemma_combined_contains(p);
        let before = combined_results(p);
        let tail = match outs.last() {
            Some(rs) => rs,
            None => Seq::<SearchResult>::empty(),
        };
        assert(combined_results(outs) == before + tail);
        assert forall|i: int, j: int|
            0 <= i < outs.len() && #[trigger] outs[i] is Some && 0 <= j < outs[i]->0.len()
                implies combined_results(outs).contains(#[trigger] outs[i]->0[j]) by {
            if i < outs.len() - 1 {
                assert(outs[i] == p[i]);
                let k = choose|k: int| 0 <= k < before.len() && before[k] == p[i]->0[j];
                assert((before + tail)[k] == before[k]);
            } else {
                assert((before + tail)[before.len() + j] == tail[j]);
            }
        }
    }
}

/// A run keeps what every backend that answered returned. Before any answer
/// there are no results; when all answers are combined, a failed backend
/// adds nothing and takes nothing away, an answer adds its results after
/// those already gathered, and every result of every answer is among the
/// run's results; when the first answer with results is wanted, a failed
/// backend changes nothing either.
pub proof fn lemma_run_keeps_answers(outs: Seq<Option<Seq<SearchResult>>>, rs: Seq<SearchResult>)
    ensures
        run_results(PlanMode::Combine, Seq::empty()) == Seq::<SearchResult>::empty(),
        run_results(PlanMode::FirstWithResults, Seq::empty()) == Seq::<SearchResult>::empty(),
        run_results(PlanMode::Combine, outs.push(None)) == run_results(PlanMode::Combine, outs),
        run_results(PlanMode::Combine, outs.push(Some(rs))) == run_results(PlanMode::Combine, outs)
            + rs,
        run_results(PlanMode::FirstWithResults, outs.push(None)) == run_results(
            PlanMode::FirstWithResults,
            outs,
        ),
        forall|i: int, j: int|
            0 <= i < outs.len() && #[trigger] outs[i] is Some && 0 <= j < outs[i]->0.len()
                ==> run_results(PlanMode::Combine, outs).contains(#[trigger] outs[i]->0[j]),
{
    assert(outs.push(None).drop_last() =~= outs);
    assert(outs.push(Some(rs)).drop_last() =~= outs);
    assert(combined_results(outs) + Seq::<SearchResult>::empty() =~= combined_results(outs));
    lemma_combined_contains(outs);
}

/// The engines' names and prices: Brave, Exa, Tavily, SearXNG and
/// DuckDuckGo by those names; SearXNG and DuckDuckGo free, then Exa at $3,
/// Brave at $5 and Tavily at $8 per thousand queries; no two names alike.
pub proof fn lemma_backend_names_and_prices(
    brave: BraveBackend,
    exa: ExaBackend,
    tavily: TavilyBackend,
    searxng: SearxngBackend,
    ddg: DuckDuckGoBackend,
)
    ensures
        backend_name(Backend::Brave(brave)) == "brave"@,
        backend_name(Backend::Exa(exa)) == "exa"@,
        backend_name(Backend::Tavily(tavily)) == "tavily"@,
        backend_name(Backend::Searxng(searxng)) == "searxng"@,
        backend_name(Backend::DuckDuckGo(ddg)) == "duckduckgo"@,
        backend_cost(Backend::Searxng(searxng)) == 0,
        backend_cost(Backend::DuckDuckGo(ddg)) == 0,
        backend_cost(Backend::Exa(exa)) == 3000,
        backend_cost(Backend::Brave(brave)) == 5000,
        backend_cost(Backend::Tavily(tavily)) == 8000,
        forall|a: Backend, b: Backend|
            backend_name(a) == backend_name(b) ==> (a is Brave <==> b is Brave) && (a is Exa
                <==> b is Exa) && (a is Tavily <==> b is Tavily) && (a is Searxng <==> b is Searxng)
                && (a is DuckDuckGo <==> b is DuckDuckGo),
        forall|a: Backend| backend_available(a),
{
    reveal_strlit("brave");
    reveal_strlit("exa");
    reveal_strlit("tavily");
    reveal_strlit("searxng");
    reveal_strlit("duckduckgo");
    assert forall|a: Backend, b: Backend| backend_name(a) == backend_name(b) implies (a is Brave
        <==> b is Brave) && (a is Exa <==> b is Exa) && (a is Tavily <==> b is Tavily) && (a is Searxng
        <==> b is Searxng) && (a is DuckDuckGo <==> b is DuckDuckGo) by {
        assert(backend_name(a).len() == backend_name(b).len());
    }
}

/// Positional scores count down from `base` by 0.05 per position: the first
/// result scores `base`, each next one 0.05 less (until the lowest score).
pub proof fn lemma_rank_scores(base: i64, i: int)
    requires
        i >= 0,
    ensures
        rank_score(base, 0) == base,
        base - RANK_STEP * (i + 1) >= i64::MIN ==> rank_score(base, i + 1) == rank_score(base, i)
            - 50_000,
        rank_score(base, i + 1) <= rank_score(base, i),
{
}

} // verus!
