//! Distribution of live account-state updates to streaming subscribers.
//!
//! The crate keeps a durable record of updates per entity key, a TTL-bounded
//! read-through cache in front of it, a subscription index from keys to
//! sessions, and a registry of per-session bounded delivery queues.  The
//! `server` module ties them together: ingestion persists an update, caches
//! it, and fans it out to every subscribed session; the session protocol
//! lets a client subscribe, receive an immediate snapshot, and then a live
//! feed.  Every operation is specified against a mathematical model of the
//! whole state, and the cross-operation guarantees are proved in `laws`.

pub mod account;
pub mod config;
pub mod store;
pub mod cache;
pub mod index;
pub mod registry;
pub mod server;
pub mod laws;
pub mod flow;
