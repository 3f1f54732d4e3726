//! The in-memory tier of the response cache, its keys and its expiry rule.
//!
//! Responses are cached under a key derived from the normalized query
//! (trimmed, lowercased, SHA-256, lowercase hex). An entry is fresh while
//! fewer than `ttl_secs` seconds have passed since it was stored. The
//! persistent tier (a database on disk) lives with the program that embeds
//! this library; it uses `expiry_cutoff` to select fresh rows and
//! `Cache::promote` to bring a row it found back into memory.

use dashmap::DashMap;
use sha2::{Digest, Sha256};
use std::time::{Duration, SystemTime, SystemTimeError, UNIX_EPOCH};
use vstd::prelude::*;
use crate::text::{join, join_seq, lowercase, to_lowercase, trim, trim_seq, views};
use crate::types::{same_response, SearchResponse};

verus! {

// ---------------------------------------------------------------------------
// Outside types and their trusted items
// ---------------------------------------------------------------------------

/// `dashmap::DashMap`, the concurrent hash map that holds the memory tier.
#[verifier::external_type_specification]
#[verifier::external_body]
#[verifier::reject_recursive_types(K)]
#[verifier::reject_recursive_types(V)]
#[verifier::reject_recursive_types(S)]
pub struct ExDashMap<K, V, S>(DashMap<K, V, S>);

/// `std::time::SystemTime`, a reading of the system clock.
#[verifier::external_type_specification]
#[verifier::external_body]
pub struct ExSystemTime(SystemTime);

/// `std::time::SystemTimeError`, a clock reading before the epoch.
#[verifier::external_type_specification]
#[verifier::external_body]
pub struct ExSystemTimeError(SystemTimeError);

/// The map that holds the memory tier.
pub type MemoryMap = DashMap<String, CacheEntry>;

/// The entries of a memory tier, by the view of their key.
pub uninterp spec fn memory_contents(m: DashMap<String, CacheEntry>) -> Map<Seq<char>, CacheEntry>;

/// What SHA-256 (`sha2::Sha256::digest`) returns for a sequence of bytes.
pub uninterp spec fn sha256(data: Seq<u8>) -> Seq<u8>;

/// Calls `DashMap::new`: a map with no entries.
#[verifier::external_body]
fn memory_new() -> (m: MemoryMap)
    ensures
        memory_contents(m).is_empty(),
{
    DashMap::new()
}

/// Calls `DashMap::remove` and hands out the removed entry, if any: the key
/// no longer maps to anything, other keys are unchanged.
#[verifier::external_body]
fn memory_take(m: &mut DashMap<String, CacheEntry>, key: &String) -> (r: Option<CacheEntry>)
    ensures
        r is Some <==> memory_contents(*old(m)).contains_key(key@),
        r matches Some(e) ==> e == memory_contents(*old(m))[key@],
        memory_contents(*final(m)) == memory_contents(*old(m)).remove(key@),
{
    m.remove(key).map(|pair| pair.1)
}

/// Calls `DashMap::insert`: the key now maps to the entry, other keys are
/// unchanged.
#[verifier::external_body]
fn memory_insert(m: &mut DashMap<String, CacheEntry>, key: String, entry: CacheEntry)
    ensures
        memory_contents(*final(m)) == memory_contents(*old(m)).insert(key@, entry),
{
    m.insert(key, entry);
}

/// Calls `DashMap::len`: the number of entries.
#[verifier::external_body]
fn memory_len(m: &DashMap<String, CacheEntry>) -> (n: usize)
    ensures
        n == memory_contents(*m).len(),
{
    m.len()
}

/// Calls `sha2::Sha256::digest`; the 32-byte digest is named `sha256` of the
/// input.
#[verifier::external_body]
fn sha256_digest(data: &[u8]) -> (d: Vec<u8>)
    ensures
        d@ == sha256(data@),
        d@.len() == 32,
{
    Sha256::digest(data).to_vec()
}

/// The lowercase hexadecimal digit of `n` (below 16).
pub open spec fn hex_digit(n: u8) -> char {
    if n < 10 {
        ((48 + n) as u32) as char
    } else {
        ((87 + n) as u32) as char
    }
}

/// Two lowercase hexadecimal digits per byte, high nibble first.
pub open spec fn hex_lower(data: Seq<u8>) -> Seq<char>
    decreases data.len(),
{
    if data.len() == 0 {
        Seq::empty()
    } else {
        hex_lower(data.drop_last()) + seq![hex_digit(data.last() / 16), hex_digit(data.last() % 16)]
    }
}

/// Calls `hex::encode`, which writes each byte as two lowercase hexadecimal
/// digits.
#[verifier::external_body]
fn hex_encode(data: &[u8]) -> (s: String)
    ensures
        s@ == hex_lower(data@),
{
    hex::encode(data)
}

/// Calls `SystemTime::now`; the clock's reading is not predictable.
#[verifier::external_body]
fn system_now() -> SystemTime {
    SystemTime::now()
}

/// Calls `SystemTime::duration_since` with `UNIX_EPOCH`; what it returns
/// depends on the reading.
#[verifier::external_body]
fn since_unix_epoch(t: &SystemTime) -> Result<Duration, SystemTimeError> {
    t.duration_since(UNIX_EPOCH)
}

/// Calls `Duration::as_secs`: the whole seconds of a duration.
#[verifier::external_body]
fn whole_seconds(d: &Duration) -> u64 {
    d.as_secs()
}

// ---------------------------------------------------------------------------
// Keys, time and expiry
// ---------------------------------------------------------------------------

/// The cache key of a query: the SHA-256 of its trimmed, lowercased text, in
/// lowercase hexadecimal.
pub open spec fn key_of_query(query: Seq<char>) -> Seq<char> {
    hex_lower(sha256(vstd::utf8::encode_utf8(lowercase(trim_seq(query)))))
}

/// The cache key of a query.
pub fn cache_key(query: &str) -> (k: String)
    ensures
        k@ == key_of_query(query@),
{
    let normalized = trim(query);
    let lowered = to_lowercase(normalized.as_str());
    let digest = sha256_digest(lowered.as_str().as_bytes());
    hex_encode(digest.as_slice())
}

/// Seconds since the Unix epoch by the system clock (0 if the clock reads
/// earlier than the epoch).
pub fn now_secs() -> u64 {
    let t = system_now();
    match since_unix_epoch(&t) {
        Ok(d) => whole_seconds(&d),
        Err(_) => 0,
    }
}

/// Is an entry stored at `stored` still fresh at `now`? The age is
/// `now - stored` in wrapping `u64` arithmetic.
pub open spec fn is_fresh(stored: u64, now: u64, ttl_secs: u64) -> bool {
    vstd::wrapping::u64_specs::wrapping_sub(now, stored) < ttl_secs
}

/// Is a persistent entry stored at `stored` still served at `now`? It is
/// while it was stored after `now - ttl_secs`; a time after `now` (the clock
/// went back) counts as fresh.
pub open spec fn row_fresh(stored: u64, now: u64, ttl_secs: u64) -> bool {
    stored + ttl_secs > now
}

/// The oldest creation time (exclusive) of a persistent entry that is still
/// fresh at `now`: `now - ttl_secs`, or 0 when that would be negative.
pub open spec fn cutoff(now: u64, ttl_secs: u64) -> u64 {
    if now >= ttl_secs {
        (now - ttl_secs) as u64
    } else {
        0
    }
}

/// The creation time below which persistent entries have expired.
pub fn expiry_cutoff(now: u64, ttl_secs: u64) -> (c: u64)
    ensures
        c == cutoff(now, ttl_secs),
{
    now.saturating_sub(ttl_secs)
}

// ---------------------------------------------------------------------------
// The memory tier
// ---------------------------------------------------------------------------

/// A cached response and when it was stored (seconds since the epoch).
pub struct CacheEntry {
    pub response: SearchResponse,
    pub timestamp: u64,
}

/// Two entries that hold the same values.
pub open spec fn same_entry(a: CacheEntry, b: CacheEntry) -> bool {
    same_response(a.response, b.response) && a.timestamp == b.timestamp
}

impl CacheEntry {
    /// A copy of this entry that holds the same values.
    pub fn duplicate(&self) -> (r: CacheEntry)
        ensures
            same_entry(r, *self),
    {
        CacheEntry { response: self.response.duplicate(), timestamp: self.timestamp }
    }
}

/// A response marked as served from the cache.
pub open spec fn mark_cached(r: SearchResponse) -> SearchResponse {
    SearchResponse { cached: true, ..r }
}

/// What the memory tier answers for key `k` at `now`: the stored response,
/// marked as cached, if its entry is fresh.
pub open spec fn lookup(
    contents: Map<Seq<char>, CacheEntry>,
    k: Seq<char>,
    now: u64,
    ttl_secs: u64,
) -> Option<SearchResponse> {
    if contents.contains_key(k) && is_fresh(contents[k].timestamp, now, ttl_secs) {
        Some(mark_cached(contents[k].response))
    } else {
        None
    }
}

/// The memory tier after a lookup of `k` at `now`: an expired entry for `k`
/// is dropped.
pub open spec fn after_lookup(
    contents: Map<Seq<char>, CacheEntry>,
    k: Seq<char>,
    now: u64,
    ttl_secs: u64,
) -> Map<Seq<char>, CacheEntry> {
    if contents.contains_key(k) && !is_fresh(contents[k].timestamp, now, ttl_secs) {
        contents.remove(k)
    } else {
        contents
    }
}

/// Two optional responses that hold the same values.
pub open spec fn same_option(a: Option<SearchResponse>, b: Option<SearchResponse>) -> bool {
    match (a, b) {
        (Some(x), Some(y)) => same_response(x, y),
        (None, None) => true,
        _ => false,
    }
}

/// Counts of a cache's contents and of the query log.
pub struct CacheStats {
    pub memory_entries: u64,
    pub db_entries: u64,
    pub total_queries: u64,
    pub cache_hits: u64,
}

/// Responses kept in memory, keyed by normalized query, with a time to live.
pub struct Cache {
    memory: DashMap<String, CacheEntry>,
    ttl_secs: u64,
}

impl Cache {
    /// The entries held in memory, by key.
    pub closed spec fn contents(&self) -> Map<Seq<char>, CacheEntry> {
        memory_contents(self.memory)
    }

    /// How long an entry stays fresh, in seconds.
    pub closed spec fn ttl(&self) -> u64 {
        self.ttl_secs
    }

    /// An empty cache whose entries stay fresh for `ttl_secs` seconds.
    pub fn new(ttl_secs: u64) -> (c: Cache)
        ensures
            c.contents() == Map::<Seq<char>, CacheEntry>::empty(),
            c.ttl() == ttl_secs,
    {
        Cache { memory: memory_new(), ttl_secs }
    }

    /// How long an entry stays fresh, in seconds.
    pub fn ttl_secs(&self) -> (t: u64)
        ensures
            t == self.ttl(),
    {
        self.ttl_secs
    }

    /// The response cached in memory for `query` at time `now`, marked as
    /// cached; an expired entry for it is dropped.
    pub fn get_at(&mut self, query: &str, now: u64) -> (r: Option<SearchResponse>)
        ensures
            same_option(r, lookup(old(self).contents(), key_of_query(query@), now, old(self).ttl())),
            final(self).contents() == after_lookup(
                old(self).contents(),
                key_of_query(query@),
                now,
                old(self).ttl(),
            ),
            final(self).ttl() == old(self).ttl(),
    {
        let key = cache_key(query);
        let ghost before = memory_contents(self.memory);
        match memory_take(&mut self.memory, &key) {
            Some(entry) => {
                if now.wrapping_sub(entry.timestamp) < self.ttl_secs {
                    let mut resp = entry.response.duplicate();
                    resp.cached = true;
                    let k = key.clone();
                    memory_insert(&mut self.memory, k, entry);
                    assert(memory_contents(self.memory) =~= before);
                    Some(resp)
                } else {
                    None
                }
            },
            None => {
                assert(memory_contents(self.memory) =~= before);
                None
            },
        }
    }

    /// The response cached in memory for `query` now (by the system clock).
    pub fn get(&mut self, query: &str) -> (r: Option<SearchResponse>)
        ensures
            exists|now: u64|
                same_option(r, lookup(old(self).contents(), key_of_query(query@), now, old(self).ttl()))
                    && final(self).contents() == after_lookup(
                    old(self).contents(),
                    key_of_query(query@),
                    now,
                    old(self).ttl(),
                ),
            final(self).ttl() == old(self).ttl(),
    {
        let now = now_secs();
        self.get_at(query, now)
    }

    /// Brings a response found in the persistent tier into memory, keeping the
    /// time `stored_at` at which it was stored (so its age runs on), and
    /// returns it marked as cached.
    pub fn promote(&mut self, query: &str, response: SearchResponse, stored_at: u64) -> (r: SearchResponse)
        ensures
            same_response(r, mark_cached(response)),
            final(self).contents().contains_key(key_of_query(query@)),
            final(self).contents() == old(self).contents().insert(
                key_of_query(query@),
                final(self).contents()[key_of_query(query@)],
            ),
            same_entry(
                final(self).contents()[key_of_query(query@)],
                CacheEntry { response: mark_cached(response), timestamp: stored_at },
            ),
            final(self).ttl() == old(self).ttl(),
    {
        let key = cache_key(query);
        let mut resp = response;
        resp.cached = true;
        let stored = CacheEntry { response: resp.duplicate(), timestamp: stored_at };
        memory_insert(&mut self.memory, key, stored);
        resp
    }

    /// Stores `response` for `query` at time `now`.
    pub fn set_at(&mut self, query: &str, response: &SearchResponse, now: u64)
        ensures
            final(self).contents().contains_key(key_of_query(query@)),
            final(self).contents() == old(self).contents().insert(
                key_of_query(query@),
                final(self).contents()[key_of_query(query@)],
            ),
            same_entry(
                final(self).contents()[key_of_query(query@)],
                CacheEntry { response: *response, timestamp: now },
            ),
            final(self).ttl() == old(self).ttl(),
    {
        let key = cache_key(query);
        let stored = CacheEntry { response: response.duplicate(), timestamp: now };
        memory_insert(&mut self.memory, key, stored);
    }

    /// Stores `response` for `query` now (by the system clock).
    pub fn set(&mut self, query: &str, response: &SearchResponse)
        ensures
            final(self).contents().contains_key(key_of_query(query@)),
            final(self).contents() == old(self).contents().insert(
                key_of_query(query@),
                final(self).contents()[key_of_query(query@)],
            ),
            same_response(final(self).contents()[key_of_query(query@)].response, *response),
            final(self).ttl() == old(self).ttl(),
    {
        let now = now_secs();
        self.set_at(query, response, now);
    }

    /// The query-log row for a query served at `now`: the backends joined
    /// with commas, the flag as 1 or 0, the counts as signed integers.
    pub fn log_query(
        &self,
        query: &str,
        backends: &Vec<String>,
        cached: bool,
        results_count: usize,
        latency_ms: u64,
        now: u64,
    ) -> (row: QueryLogRow)
        ensures
            row.query@ == query@,
            row.backends@ == join_seq(views(backends@), ","@),
            row.cached == (if cached { 1i32 } else { 0i32 }),
            row.results_count == results_count as i64,
            row.latency_ms == latency_ms as i64,
            row.created_at == now as i64,
    {
        QueryLogRow {
            query: query.to_owned(),
            backends: join(backends, ","),
            cached: if cached {
                1
            } else {
                0
            },
            results_count: results_count as i64,
            latency_ms: latency_ms as i64,
            created_at: now as i64,
        }
    }

    /// The cache's counts, given the counts that the persistent tier reports
    /// (each as the database returns it).
    pub fn stats(&self, db_entries: i64, total_queries: i64, cache_hits: i64) -> (s: CacheStats)
        ensures
            s.memory_entries == self.contents().len(),
            s.db_entries == db_entries as u64,
            s.total_queries == total_queries as u64,
            s.cache_hits == cache_hits as u64,
    {
        let n = memory_len(&self.memory);
        CacheStats {
            memory_entries: n as u64,
            db_entries: db_entries as u64,
            total_queries: total_queries as u64,
            cache_hits: cache_hits as u64,
        }
    }
}

// ---------------------------------------------------------------------------
// The query log
// ---------------------------------------------------------------------------

/// One row of the query log, as the database stores it.
pub struct QueryLogRow {
    pub query: String,
    pub backends: String,
    pub cached: i32,
    pub results_count: i64,
    pub latency_ms: i64,
    pub created_at: i64,
}

// ---------------------------------------------------------------------------
// Laws
// ---------------------------------------------------------------------------

/// A response stored for a query is what a lookup of the same key gives back,
/// marked as cached, for as long as it is fresh.
pub proof fn lemma_read_after_write(
    contents: Map<Seq<char>, CacheEntry>,
    k: Seq<char>,
    e: CacheEntry,
    now: u64,
    ttl_secs: u64,
)
    requires
        is_fresh(e.timestamp, now, ttl_secs),
    ensures
        lookup(contents.insert(k, e), k, now, ttl_secs) == Some(mark_cached(e.response)),
        after_lookup(contents.insert(k, e), k, now, ttl_secs) == contents.insert(k, e),
{
}

/// What `Cache::set_at` leaves behind is what `Cache::get_at` gives back: a
/// response stored for a query at `stored` is served, marked as cached, to
/// any query with the same key while it is fresh.
pub proof fn lemma_set_then_get(
    before: Map<Seq<char>, CacheEntry>,
    after: Map<Seq<char>, CacheEntry>,
    query: Seq<char>,
    other_query: Seq<char>,
    response: SearchResponse,
    stored: u64,
    now: u64,
    ttl_secs: u64,
)
    requires
        after.contains_key(key_of_query(query)),
        after == before.insert(key_of_query(query), after[key_of_query(query)]),
        same_entry(after[key_of_query(query)], CacheEntry { response, timestamp: stored }),
        key_of_query(other_query) == key_of_query(query),
        is_fresh(stored, now, ttl_secs),
    ensures
        same_option(lookup(after, key_of_query(other_query), now, ttl_secs), Some(mark_cached(response))),
        after_lookup(after, key_of_query(other_query), now, ttl_secs) == after,
{
}

/// Storing under one key leaves lookups of every other key as they were.
pub proof fn lemma_write_other_key(
    contents: Map<Seq<char>, CacheEntry>,
    k: Seq<char>,
    other: Seq<char>,
    e: CacheEntry,
    now: u64,
    ttl_secs: u64,
)
    requires
        k != other,
    ensures
        lookup(contents.insert(k, e), other, now, ttl_secs) == lookup(contents, other, now, ttl_secs),
{
}

/// An expired entry is never served, and the lookup drops it.
pub proof fn lemma_expired_not_served(
    contents: Map<Seq<char>, CacheEntry>,
    k: Seq<char>,
    now: u64,
    ttl_secs: u64,
)
    requires
        contents.contains_key(k),
        !is_fresh(contents[k].timestamp, now, ttl_secs),
    ensures
        lookup(contents, k, now, ttl_secs) is None,
        !after_lookup(contents, k, now, ttl_secs).contains_key(k),
{
}

/// Queries that agree once trimmed and lowercased share a cache entry.
pub proof fn lemma_key_normalizes(q1: Seq<char>, q2: Seq<char>)
    requires
        lowercase(trim_seq(q1)) == lowercase(trim_seq(q2)),
    ensures
        key_of_query(q1) == key_of_query(q2),
{
}

/// With a time to live of zero nothing is ever fresh.
pub proof fn lemma_zero_ttl_never_fresh(stored: u64, now: u64)
    ensures
        !is_fresh(stored, now, 0),
{
}

} // verus!

verus! {

/// The entry for key `k` is the same after as before.
pub open spec fn keeps_entry(
    before: Map<Seq<char>, CacheEntry>,
    after: Map<Seq<char>, CacheEntry>,
    k: Seq<char>,
) -> bool {
    &&& after.contains_key(k) == before.contains_key(k)
    &&& before.contains_key(k) ==> after[k] == before[k]
}

/// Storing, promoting or looking up another key keeps the entry for `k`:
/// `set_at` and `promote` insert at their own key, `get_at` looks up its own.
pub proof fn lemma_other_keys_untouched(
    m: Map<Seq<char>, CacheEntry>,
    k: Seq<char>,
    other: Seq<char>,
    e: CacheEntry,
    now: u64,
    ttl_secs: u64,
)
    requires
        k != other,
    ensures
        keeps_entry(m, m.insert(other, e), k),
        keeps_entry(m, after_lookup(m, other, now, ttl_secs), k),
{
}

/// One step of the memory tier between storing key `k` at `t0` and reading
/// it at `t`: an operation that keeps the entry for `k` (one on another
/// key), or a lookup of `k` itself at a time from `t0` to `t`.
pub open spec fn quiet_step(
    before: Map<Seq<char>, CacheEntry>,
    after: Map<Seq<char>, CacheEntry>,
    k: Seq<char>,
    t0: u64,
    t: u64,
    ttl_secs: u64,
) -> bool {
    ||| keeps_entry(before, after, k)
    ||| exists|t1: u64| t0 <= t1 <= t && after == #[trigger] after_lookup(before, k, t1, ttl_secs)
}

proof fn lemma_quiet_history(
    states: Seq<Map<Seq<char>, CacheEntry>>,
    k: Seq<char>,
    t0: u64,
    t: u64,
    ttl_secs: u64,
)
    requires
        states.len() > 0,
        states[0].contains_key(k),
        states[0][k].timestamp == t0,
        t0 <= t,
        forall|i: int|
            0 <= i < states.len() - 1 ==> quiet_step(#[trigger] states[i], states[i + 1], k, t0, t, ttl_secs),
    ensures
        (states.last().contains_key(k) && states.last()[k] == states[0][k]) || (
        !states.last().contains_key(k) && t0 + ttl_secs <= t),
    decreases states.len(),
{
    if states.len() > 1 {
        let p = states.drop_last();
        assert forall|i: int| 0 <= i < p.len() - 1 implies quiet_step(
            #[trigger] p[i],
            p[i + 1],
            k,
            t0,
            t,
            ttl_secs,
        ) by {
            assert(p[i] == states[i]);
            assert(quiet_step(states[i], states[i + 1], k, t0, t, ttl_secs));
        }
        lemma_quiet_history(p, k, t0, t, ttl_secs);
        let n = states.len() - 2;
        let before = states[n];
        let after = states.last();
        assert(p.last() == before);
        assert(quiet_step(states[n], states[n + 1], k, t0, t, ttl_secs));
        if !keeps_entry(before, after, k) {
            let t1 = choose|t1: u64| t0 <= t1 <= t && after == #[trigger] after_lookup(before, k, t1, ttl_secs);
            if before.contains_key(k) && !is_fresh(before[k].timestamp, t1, ttl_secs) {
                assert(before[k].timestamp == t0);
                assert(vstd::wrapping::u64_specs::wrapping_sub(t1, t0) == t1 - t0);
            }
        }
    }
}

/// Read after write over any history: once a response `r` is stored for key
/// `k` at `t0` (as `set_at` stores it), and later steps are quiet for `k`,
/// a lookup of `k` at any `t` from `t0` up to `t0 + ttl_secs` serves `r`
/// marked as cached, and a lookup at or after `t0 + ttl_secs` serves nothing.
pub proof fn lemma_read_after_write_history(
    states: Seq<Map<Seq<char>, CacheEntry>>,
    k: Seq<char>,
    r: SearchResponse,
    t0: u64,
    t: u64,
    ttl_secs: u64,
)
    requires
        states.len() > 0,
        states[0].contains_key(k),
        same_entry(states[0][k], CacheEntry { response: r, timestamp: t0 }),
        t0 <= t,
        forall|i: int|
            0 <= i < states.len() - 1 ==> quiet_step(#[trigger] states[i], states[i + 1], k, t0, t, ttl_secs),
    ensures
        t < t0 + ttl_secs ==> (lookup(states.last(), k, t, ttl_secs) matches Some(x)
            && same_response(x, mark_cached(r))),
        t0 + ttl_secs <= t ==> lookup(states.last(), k, t, ttl_secs) is None,
{
    lemma_quiet_history(states, k, t0, t, ttl_secs);
    assert(vstd::wrapping::u64_specs::wrapping_sub(t, t0) == t - t0);
}

} // verus!
