//! Concurrent-state core of a small HTTP proxy: a fixed-TTL response cache
//! and a per-client sliding-window rate limiter. Both components keep time as
//! plain millisecond counts, so every admission and expiry decision is stated
//! and proved over those counts; the process clock only supplies them.

pub mod cache;
mod clock;
pub mod config;
pub mod rate_limit;
