//! Web search aggregation: the verified core of a search service that queries
//! several engines, routes by cost, fuses and deduplicates results, and caches
//! responses.

pub mod text;
pub mod types;
pub mod fusion;
pub mod cache;
pub mod backends;
pub mod server;
