//! Reconciliation engine for live transit feeds: per-feed incremental
//! diffing of vehicle positions against trip schedules, cross-feed merge
//! with recency tie-breaking, and a round-robin scheduler that drains
//! queued operations under a caller-driven tick.

pub mod entities;
pub mod feed;
pub mod geo;
pub mod proto;
pub mod static_data;
pub mod stop;
