//! The decisions of the two I/O-facing procedures, as functions from a
//! gateway's reply to the next step.  A driver working against real
//! gateways performs a call, hands the reply in, and follows the step
//! handed back; every branch taken is decided here.  A gateway error is
//! handed in as an absent reply: the cache-aside read treats cache and
//! store errors as misses, and the ingestion pipeline aborts on a store
//! error.

use vstd::prelude::*;
use crate::account::{AccountUpdate, Source};

verus! {

/// The next step of a cache-aside read after the cache gateway replied.
pub enum ResolveStep {
    /// The cache missed or erred: ask the durable store.
    CheckStore,
    /// The answer is known; nothing more is asked of any gateway.
    Finished(Option<(AccountUpdate, Source)>),
}

/// What remains of a cache-aside read after the store gateway replied:
/// the answer, and the value to write back to the cache, if any.  The
/// write-back is best effort: its failure never fails the read.
pub struct ResolveOutcome {
    pub answer: Option<(AccountUpdate, Source)>,
    pub write_back: Option<AccountUpdate>,
}

/// Decides a cache-aside read from the cache gateway's reply: a hit
/// answers from the cache and asks nothing more; a miss — or an error,
/// handed in as a miss — falls through to the store.
pub fn resolve_after_cache(reply: Option<AccountUpdate>) -> (r: ResolveStep)
    ensures
        reply matches Some(u) ==> (r matches ResolveStep::Finished(a) && a matches Some(p)
            && p.0 == u && p.1 == Source::Cache),
        reply is None ==> r is CheckStore,
{
    match reply {
        Some(u) => ResolveStep::Finished(Some((u, Source::Cache))),
        None => ResolveStep::CheckStore,
    }
}

/// Decides a cache-aside read from the store gateway's reply, after the
/// cache missed: a hit answers from the store and is written back to
/// the cache; a miss — or an error, handed in as a miss — answers
/// absent, and nothing is written anywhere.
pub fn resolve_after_store(reply: Option<AccountUpdate>) -> (r: ResolveOutcome)
    ensures
        reply matches Some(u) ==> ((r.answer matches Some(p) && p.0@ == u@ && p.1
            == Source::Database) && (r.write_back matches Some(w) && w@ == u@)),
        reply is None ==> r.answer is None && r.write_back is None,
{
    match reply {
        Some(u) => {
            let copy = u.duplicate();
            ResolveOutcome { answer: Some((u, Source::Database)), write_back: Some(copy) }
        },
        None => ResolveOutcome { answer: None, write_back: None },
    }
}

/// The remainder of the ingestion pipeline after the store gateway
/// replied to the insert.
pub enum IngestStep {
    /// The update is durable: cache it, then broadcast it — the
    /// broadcast runs whether or not the cache write succeeds.
    CacheAndBroadcast(AccountUpdate),
    /// The store rejected the update: neither the cache nor any
    /// subscriber may see it.
    Aborted,
}

/// Decides the ingestion pipeline from the store gateway's reply to the
/// insert: only a durable update goes on to the cache and the
/// broadcast; a store failure — handed in as an absent reply — aborts
/// this update and this update only.
pub fn ingest_after_persist(persisted: Option<AccountUpdate>) -> (r: IngestStep)
    ensures
        persisted matches Some(u) ==> (r matches IngestStep::CacheAndBroadcast(v) && v == u),
        persisted is None ==> r is Aborted,
{
    match persisted {
        Some(u) => IngestStep::CacheAndBroadcast(u),
        None => IngestStep::Aborted,
    }
}

} // verus!
