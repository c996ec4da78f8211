//! Core of a small API-aggregation service: a time-to-live cache, a
//! feed-merging engine, a bounded recent-items queue, and the glue that
//! assembles their outputs into one response payload.

pub mod aggregator;
pub mod auth;
pub mod cache;
pub mod errors;
pub mod letterboxd;
pub mod queue;
pub mod redirect;
pub mod spotify;
pub mod text;
