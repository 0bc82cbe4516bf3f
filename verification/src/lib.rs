//! Caching and search core for a manga catalog API: deterministic cache-key
//! derivation, a TTL key-value cache with corruption self-healing, a search
//! service with read-through/write-through caching, and a sliding-window
//! rate limiter.
pub mod cache;
pub mod codec;
pub mod filtering;
pub mod keys;
pub mod limiter;
pub mod manga;
pub mod pagination;
pub mod params;
pub mod search;
pub mod stats_text;
pub mod store;
pub mod text;
pub mod validate;
