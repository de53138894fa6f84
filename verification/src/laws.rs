//! The guarantees that hold across operations, proved over the server's
//! transition functions: what a resolve may answer, what a subscriber
//! is owed after an ingest, and what unsubscribing or disconnecting
//! rules out.

use vstd::prelude::*;
use crate::account::{EnvelopeModel, NewUpdateModel, RequestModel, Source, UpdateModel, stored_from};
use crate::cache::{
    CACHE_TTL_SECONDS, cache_find, cache_idx_of, cache_live, cache_set_model,
    lemma_cache_find_set, lemma_cache_idx,
};
use crate::index::{
    has_sub, lemma_sub_add, lemma_sub_add_idempotent, lemma_sub_remove, lemma_sub_retain,
    lemma_sub_retain_idempotent, sub_add_model, sub_remove_model, sub_retain_model,
};
use crate::registry::{
    CHANNEL_CAPACITY, lemma_reg_enqueue, lemma_reg_idx, lemma_reg_remove, mailbox, reg_has,
    reg_remove_model, reg_wf,
};
use crate::server::{
    ServerModel, advance_model, cleanup_model, deliver_upto, handle_subscription_model,
    ingest_model, lemma_deliver, publish_model, realtime_envelope, resolve_model, server_wf,
    sub_in_prefix, subscribe_model,
};
use crate::store::{
    latest_spec, lemma_latest_is_max, lemma_latest_push_newest, store_has_key,
};

verus! {

/// A key for which no update was ever stored resolves to absent, and
/// the miss mutates neither the store nor the cache — nor anything
/// else.
pub proof fn lemma_resolve_never_inserted(m: ServerModel, key: Seq<char>)
    requires
        server_wf(m),
        forall|i: int|
            0 <= i < m.store.records.len() ==> (#[trigger] m.store.records[i]).pubkey != key,
    ensures
        resolve_model(m, key).1 is None,
        resolve_model(m, key).0 == m,
{
    lemma_cache_idx(m.cache, key);
    if cache_idx_of(m.cache, key) != -1 {
        let i = cache_idx_of(m.cache, key);
        assert(store_has_key(m.store.records, m.cache[i].key));
        let w = choose|w: int|
            0 <= w < m.store.records.len() && (#[trigger] m.store.records[w]).pubkey
                == m.cache[i].key;
        assert(false);
    }
    assert(cache_live(m.cache, key, m.now) is None);
    lemma_latest_is_max(m.store.records, key);
    if store_has_key(m.store.records, key) {
        let w = choose|w: int|
            0 <= w < m.store.records.len() && (#[trigger] m.store.records[w]).pubkey == key;
        assert(false);
    }
}

/// After a successful ingest of an update at least as new as every
/// stored one of its key, resolving the key answers exactly that update
/// from the cache until the entry's expiry window elapses; from then on
/// the store answers an equal record and the cache is repopulated with
/// it.
pub proof fn lemma_ingest_then_resolve(m: ServerModel, nu: NewUpdateModel, t: i64)
    requires
        server_wf(m),
        m.store.next_id < u64::MAX,
        forall|i: int|
            0 <= i < m.store.records.len() && (#[trigger] m.store.records[i]).pubkey == nu.pubkey
                ==> m.store.records[i].slot <= nu.slot,
    ensures
        ({
            let rec = stored_from(nu, m.store.next_id, m.now);
            let s2 = advance_model(ingest_model(m, nu), t);
            &&& (s2.now < m.now + CACHE_TTL_SECONDS ==> resolve_model(s2, nu.pubkey) == (
            s2,
            Some((rec, Source::Cache)),
            ))
            &&& (s2.now >= m.now + CACHE_TTL_SECONDS ==> resolve_model(s2, nu.pubkey) == (
            (ServerModel { cache: cache_set_model(s2.cache, nu.pubkey, rec, s2.now), ..s2 }),
            Some((rec, Source::Database)),
            ))
        }),
{
    let rec = stored_from(nu, m.store.next_id, m.now);
    let s1 = ingest_model(m, nu);
    let s2 = advance_model(s1, t);
    lemma_cache_find_set(m.cache, nu.pubkey, rec, m.now, nu.pubkey);
    assert(s1.cache == cache_set_model(m.cache, nu.pubkey, rec, m.now));
    assert(cache_find(s2.cache, nu.pubkey) matches Some(e) && e.value == rec
        && e.expires_at == m.now + CACHE_TTL_SECONDS);
    if s2.now < m.now + CACHE_TTL_SECONDS {
        assert(cache_live(s2.cache, nu.pubkey, s2.now) == Some(rec));
    } else {
        assert(cache_live(s2.cache, nu.pubkey, s2.now) is None);
        lemma_latest_push_newest(m.store.records, nu.pubkey, rec);
        assert(s2.store.records == m.store.records.push(rec));
        assert(latest_spec(s2.store.records, nu.pubkey) == Some(rec));
    }
}

/// A session that subscribes to a key and — with room in its queue —
/// sees an update for that key ingested receives an envelope carrying
/// exactly that update.  (With its queue already full at the fan-out,
/// the envelope would be dropped: delivery is at-most-once.)
pub proof fn lemma_subscribe_then_ingest_delivers(m: ServerModel, sid: u64, nu: NewUpdateModel)
    requires
        server_wf(m),
        reg_has(m.sessions, sid),
        m.store.next_id < u64::MAX,
        mailbox(subscribe_model(m, sid, nu.pubkey).sessions, sid).len() < CHANNEL_CAPACITY,
    ensures
        ({
            let s1 = subscribe_model(m, sid, nu.pubkey);
            let s2 = ingest_model(s1, nu);
            let rec = stored_from(nu, s1.store.next_id, s1.now);
            let env = realtime_envelope(nu.pubkey, rec);
            exists|i: int|
                0 <= i < mailbox(s2.sessions, sid).len() && mailbox(s2.sessions, sid)[i] == env
        }),
{
    let key = nu.pubkey;
    let s1 = subscribe_model(m, sid, key);
    lemma_sub_add(m.subs, key, sid);
    assert(s1.subs == sub_add_model(m.subs, key, sid));
    assert(has_sub(s1.subs, key, sid));
    assert(reg_wf(s1.sessions) && reg_has(s1.sessions, sid)) by {
        let step = resolve_model(
            ServerModel { subs: sub_add_model(m.subs, key, sid), ..m },
            key,
        );
        assert(step.0.sessions == m.sessions);
        match step.1 {
            Some((u, src)) => {
                lemma_reg_enqueue(
                    m.sessions,
                    sid,
                    EnvelopeModel { pubkey: key, account: u, source: src },
                    sid,
                );
            },
            None => {},
        }
    }
    assert(s1.store == m.store);
    assert(s1.now == m.now);
    let s2 = ingest_model(s1, nu);
    let rec = stored_from(nu, s1.store.next_id, s1.now);
    let env = realtime_envelope(key, rec);
    let n = s1.subs.len() as int;
    lemma_deliver(s1.sessions, s1.subs, n, key, env, sid);
    assert(sub_in_prefix(s1.subs, n, key, sid)) by {
        let a = choose|a: int|
            0 <= a < s1.subs.len() && (#[trigger] s1.subs[a]).key == key && s1.subs[a].session
                == sid;
        assert(0 <= a < n);
    }
    assert(s2.sessions == deliver_upto(s1.sessions, s1.subs, n, key, env));
    assert(mailbox(s2.sessions, sid) == mailbox(s1.sessions, sid).push(env));
    let len = mailbox(s2.sessions, sid).len();
    assert(mailbox(s2.sessions, sid)[len - 1] == env);
}

/// After a session unsubscribes from a key, a fan-out for that key
/// leaves the session's queue untouched: nothing more is delivered to
/// it for that key.
pub proof fn lemma_unsubscribe_stops_delivery(
    m: ServerModel,
    sid: u64,
    req: RequestModel,
    u: UpdateModel,
)
    requires
        server_wf(m),
        req.action == "unsubscribe"@,
    ensures
        handle_subscription_model(m, sid, req) == (ServerModel {
            subs: sub_remove_model(m.subs, req.pubkey, sid),
            ..m
        }),
        ({
            let m1 = handle_subscription_model(m, sid, req);
            let m2 = publish_model(m1, req.pubkey, u);
            mailbox(m2.sessions, sid) == mailbox(m1.sessions, sid)
        }),
{
    let key = req.pubkey;
    assert(req.action != "subscribe"@) by {
        reveal_strlit("subscribe");
        reveal_strlit("unsubscribe");
        assert("subscribe"@.len() == 9);
        assert("unsubscribe"@.len() == 11);
    }
    let m1 = handle_subscription_model(m, sid, req);
    assert(m1.subs == sub_remove_model(m.subs, key, sid));
    lemma_sub_remove(m.subs, key, sid);
    assert(!has_sub(m1.subs, key, sid));
    let env = realtime_envelope(key, u);
    let n = m1.subs.len() as int;
    lemma_deliver(m1.sessions, m1.subs, n, key, env, sid);
    assert(!sub_in_prefix(m1.subs, n, key, sid)) by {
        if sub_in_prefix(m1.subs, n, key, sid) {
            let a = choose|a: int|
                0 <= a < n && (#[trigger] m1.subs[a]).key == key && m1.subs[a].session == sid;
            assert(has_sub(m1.subs, key, sid));
        }
    }
}

/// Disconnecting a session removes it from the registry and from every
/// key's subscribers; the cleanup is idempotent; and a later fan-out
/// for any key still goes through — it neither fails nor delivers
/// anything to the gone session, whose queue stays gone.
pub proof fn lemma_disconnect_cleans(m: ServerModel, sid: u64, key: Seq<char>, u: UpdateModel)
    requires
        server_wf(m),
    ensures
        !reg_has(cleanup_model(m, sid).sessions, sid),
        forall|k: Seq<char>| !has_sub(cleanup_model(m, sid).subs, k, sid),
        cleanup_model(cleanup_model(m, sid), sid) == cleanup_model(m, sid),
        ({
            let m2 = publish_model(cleanup_model(m, sid), key, u);
            &&& !reg_has(m2.sessions, sid)
            &&& mailbox(m2.sessions, sid) == Seq::<EnvelopeModel>::empty()
        }),
{
    let m1 = cleanup_model(m, sid);
    lemma_reg_remove(m.sessions, sid, sid);
    lemma_sub_retain(m.subs, sid);
    assert(forall|k: Seq<char>| !has_sub(m1.subs, k, sid)) by {
        assert(forall|k: Seq<char>, x: u64|
            #[trigger] has_sub(sub_retain_model(m.subs, sid), k, x) ==> x != sid);
    }
    lemma_sub_retain_idempotent(m.subs, sid);
    assert(reg_remove_model(m1.sessions, sid) == m1.sessions);
    let env = realtime_envelope(key, u);
    let n = m1.subs.len() as int;
    assert(reg_wf(m1.sessions));
    lemma_deliver(m1.sessions, m1.subs, n, key, env, sid);
    let m2 = publish_model(m1, key, u);
    assert(!reg_has(m2.sessions, sid));
    assert(mailbox(m2.sessions, sid) =~= Seq::<EnvelopeModel>::empty()) by {
        lemma_reg_idx(m2.sessions, sid);
    }
}

/// Subscribing twice is subscribing once: the second subscription
/// leaves the subscriber set of the key — indeed the whole membership
/// index — exactly as the first left it, with the session a member
/// exactly once.
pub proof fn lemma_subscribe_idempotent(m: ServerModel, sid: u64, key: Seq<char>)
    requires
        server_wf(m),
    ensures
        sub_add_model(sub_add_model(m.subs, key, sid), key, sid) == sub_add_model(
            m.subs,
            key,
            sid,
        ),
        subscribe_model(subscribe_model(m, sid, key), sid, key).subs == subscribe_model(
            m,
            sid,
            key,
        ).subs,
        has_sub(subscribe_model(m, sid, key).subs, key, sid),
{
    lemma_sub_add_idempotent(m.subs, key, sid);
    lemma_sub_add(m.subs, key, sid);
    assert(subscribe_model(m, sid, key).subs == sub_add_model(m.subs, key, sid));
    assert(subscribe_model(subscribe_model(m, sid, key), sid, key).subs == sub_add_model(
        sub_add_model(m.subs, key, sid),
        key,
        sid,
    ));
}

} // verus!
