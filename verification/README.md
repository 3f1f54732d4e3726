# search_mcp

A web-search aggregation service (an MCP server with `search`,
`search_status` and `search_batch` tools) whose core is verified with Verus.

## Layout

- `src/` — the verified library.
  - `text.rs`: character-level string operations (trim, replace, split,
    join, decimal numerals) with specifications over `Seq<char>`.
  - `types.rs`: requests, results, responses, categories and time ranges.
    Scores are fixed-point integers: `SCORE_SCALE` (1 000 000) is 1.0.
  - `fusion.rs`: URL normalization, deduplication with an agreement bonus,
    stable ranking by score, and the laws that the fused list has distinct
    URLs, descending scores and at most the requested length.
  - `cache.rs`: the in-memory cache tier (a `DashMap`), cache keys
    (SHA-256 of the normalized query, in hex), expiry, and the
    read-after-write laws.
  - `backends/`: one module per engine (Brave, Exa, Tavily, SearXNG,
    DuckDuckGo) that builds the engine's request and reads its parsed
    answer; `mod.rs` holds the router (plans, cheapest-first ordering, the
    run through the chosen backends) and its laws.
  - `server.rs`: tool parameters, batch splitting, response assembly, and
    `SearchFlow`, the step-by-step course of one search.
- `app/` — the program: command line, SQLite persistent tier, HTTP and
  JSON, and the MCP server, driving the library's steps.
- `tests/` — tests of the library.

## Configuration

`BRAVE_API_KEY`, `EXA_API_KEY`, `TAVILY_API_KEY` and `SEARXNG_URL` enable
the corresponding engines; DuckDuckGo is always available. `--cache-dir`
and `--cache-ttl` set where and for how long responses are cached.
