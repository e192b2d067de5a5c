//! A resilient caching layer in front of a remote, rate-limited blockchain
//! RPC endpoint.  It answers "is slot S confirmed?" queries from two bounded
//! in-memory caches (a FIFO window of recently confirmed slots and an LRU
//! cache of individually looked-up slots), guards the remote endpoint with a
//! circuit breaker, retries transient failures with exponential backoff, and
//! keeps the window fresh through a background polling cycle.

pub mod cache;
pub mod circuit_breaker;
pub mod config;
pub mod metrics;
pub mod rpc;
pub mod service;
pub mod utils;
