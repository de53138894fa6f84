//! The server core: durable store, cache, subscription index and
//! connection registry composed behind one state, with the operations the
//! session protocol and the ingestion pipeline perform on it.
//!
//! Every operation's contract equates the new state with a transition
//! function over `ServerModel`, the mathematical value of the whole
//! server; the cross-operation guarantees are proved over those
//! transitions in `laws`.

use vstd::prelude::*;
use crate::account::{
    AccountUpdate, AccountUpdateMessage, EnvelopeModel, NewAccountUpdate, NewUpdateModel, Source,
    SubscriptionRequest, RequestModel, UpdateModel, stored_from, str_eq,
};
use crate::cache::{
    AccountCache, CacheEntryModel, CACHE_TTL_SECONDS, cache_idx_of, cache_live,
    cache_remove_model, cache_set_model, cache_wf, lemma_cache_find_set, lemma_cache_idx,
};
use crate::index::{
    SubscriptionIndex, SubPairModel, has_sub, lemma_sub_add, lemma_sub_remove, lemma_sub_retain,
    sub_add_model, sub_remove_model, sub_retain_model, sub_wf,
};
use crate::registry::{
    ConnectionRegistry, SessionModel, CHANNEL_CAPACITY, enqueue_model, lemma_reg_enqueue,
    lemma_reg_idx, lemma_reg_register, lemma_reg_remove, lemma_reg_pop, mailbox, pop_model,
    reg_has, reg_idx_of, reg_register_model, reg_remove_model, reg_wf,
};
use crate::store::{
    AccountStore, StoreModel, latest_spec, lemma_latest_is_max, store_has_key, store_wf,
};

verus! {

/// The greatest clock value the server accepts: far enough from the
/// integer limit that an expiry time can always be computed.
pub const MAX_CLOCK: i64 = i64::MAX - CACHE_TTL_SECONDS;

/// Mathematical value of the whole server.
#[verifier::ext_equal]
pub ghost struct ServerModel {
    /// The durable record of updates.
    pub store: StoreModel,
    /// The cache entries, each with its expiry time.
    pub cache: Seq<CacheEntryModel>,
    /// The subscription memberships.
    pub subs: Seq<SubPairModel>,
    /// The live sessions with their pending envelopes.
    pub sessions: Seq<SessionModel>,
    /// The identity the next accepted connection receives.
    pub next_client_id: u64,
    /// The server's clock, seconds since the Unix epoch.
    pub now: i64,
}

/// Well-formedness of the whole server: each component is well-formed,
/// the clock is in range, session identities were handed out by the
/// counter, and the cache only ever holds keys the store has seen.
pub open spec fn server_wf(m: ServerModel) -> bool {
    &&& store_wf(m.store)
    &&& cache_wf(m.cache)
    &&& sub_wf(m.subs)
    &&& reg_wf(m.sessions)
    &&& 0 <= m.now <= MAX_CLOCK
    &&& m.next_client_id >= 1
    &&& forall|j: int|
        0 <= j < m.sessions.len() ==> 1 <= (#[trigger] m.sessions[j]).id < m.next_client_id
    &&& forall|i: int|
        0 <= i < m.cache.len() ==> store_has_key(m.store.records, (#[trigger] m.cache[i]).key)
}

/// The envelope a live broadcast delivers.
pub open spec fn realtime_envelope(key: Seq<char>, u: UpdateModel) -> EnvelopeModel {
    EnvelopeModel { pubkey: key, account: u, source: Source::Realtime }
}

/// The sessions after the first `n` memberships have been offered the
/// envelope: each membership of `key` in turn enqueues to its session.
pub open spec fn deliver_upto(
    sessions: Seq<SessionModel>,
    subs: Seq<SubPairModel>,
    n: int,
    key: Seq<char>,
    e: EnvelopeModel,
) -> Seq<SessionModel>
    decreases n,
{
    if n <= 0 {
        sessions
    } else {
        let prev = deliver_upto(sessions, subs, n - 1, key, e);
        if subs[n - 1].key == key {
            enqueue_model(prev, subs[n - 1].session, e)
        } else {
            prev
        }
    }
}

/// Whether one of the first `n` memberships subscribes session `x` to
/// `key`.
pub open spec fn sub_in_prefix(subs: Seq<SubPairModel>, n: int, key: Seq<char>, x: u64) -> bool {
    exists|i: int| 0 <= i < n && (#[trigger] subs[i]).key == key && subs[i].session == x
}

/// What a fan-out changes, seen from session `x`: a session subscribed
/// to the key receives the envelope at the end of its queue — when it is
/// live and its queue has room, else nothing; a session not subscribed
/// keeps its queue; no session appears or disappears.
pub proof fn lemma_deliver(
    sessions: Seq<SessionModel>,
    subs: Seq<SubPairModel>,
    n: int,
    key: Seq<char>,
    e: EnvelopeModel,
    x: u64,
)
    requires
        reg_wf(sessions),
        0 <= n <= subs.len(),
    ensures
        reg_wf(deliver_upto(sessions, subs, n, key, e)),
        deliver_upto(sessions, subs, n, key, e).len() == sessions.len(),
        forall|j: int|
            0 <= j < sessions.len() ==> (#[trigger] deliver_upto(sessions, subs, n, key, e)[j]).id
                == sessions[j].id,
        reg_has(deliver_upto(sessions, subs, n, key, e), x) <==> reg_has(sessions, x),
        !sub_in_prefix(subs, n, key, x) ==> mailbox(deliver_upto(sessions, subs, n, key, e), x)
            == mailbox(sessions, x),
        (sub_wf(subs) && sub_in_prefix(subs, n, key, x)) ==> mailbox(
            deliver_upto(sessions, subs, n, key, e),
            x,
        ) == (if reg_has(sessions, x) && mailbox(sessions, x).len() < CHANNEL_CAPACITY {
            mailbox(sessions, x).push(e)
        } else {
            mailbox(sessions, x)
        }),
    decreases n,
{
    if n > 0 {
        lemma_deliver(sessions, subs, n - 1, key, e, x);
        let prev = deliver_upto(sessions, subs, n - 1, key, e);
        let p = subs[n - 1];
        if p.key == key {
            lemma_reg_enqueue(prev, p.session, e, x);
            lemma_reg_enqueue(prev, p.session, e, p.session);
            if x == p.session {
                assert(sub_in_prefix(subs, n, key, x));
                if sub_wf(subs) {
                    assert(!sub_in_prefix(subs, n - 1, key, x)) by {
                        if sub_in_prefix(subs, n - 1, key, x) {
                            let i = choose|i: int|
                                0 <= i < n - 1 && (#[trigger] subs[i]).key == key
                                    && subs[i].session == x;
                            assert(subs[i] == subs[n - 1]);
                        }
                    }
                }
            } else {
                assert(sub_in_prefix(subs, n, key, x) <==> sub_in_prefix(subs, n - 1, key, x)) by {
                    if sub_in_prefix(subs, n, key, x) {
                        let i = choose|i: int|
                            0 <= i < n && (#[trigger] subs[i]).key == key && subs[i].session == x;
                        assert(i < n - 1);
                    }
                }
            }
        } else {
            assert(sub_in_prefix(subs, n, key, x) <==> sub_in_prefix(subs, n - 1, key, x)) by {
                if sub_in_prefix(subs, n, key, x) {
                    let i = choose|i: int|
                        0 <= i < n && (#[trigger] subs[i]).key == key && subs[i].session == x;
                    assert(i < n - 1);
                }
            }
        }
    }
}

/// The server after a fan-out of `u` to the subscribers of `key`.
pub open spec fn publish_model(m: ServerModel, key: Seq<char>, u: UpdateModel) -> ServerModel {
    ServerModel {
        sessions: deliver_upto(
            m.sessions,
            m.subs,
            m.subs.len() as int,
            key,
            realtime_envelope(key, u),
        ),
        ..m
    }
}

/// The server after a state query for `key`, with the query's answer:
/// the cache answers while it holds a live entry; else the store's
/// latest record answers and is written back to the cache; else the key
/// has no state and nothing changes.
pub open spec fn resolve_model(m: ServerModel, key: Seq<char>) -> (ServerModel, Option<
    (UpdateModel, Source),
>) {
    match cache_live(m.cache, key, m.now) {
        Some(u) => (m, Some((u, Source::Cache))),
        None => match latest_spec(m.store.records, key) {
            Some(u) => (
                ServerModel { cache: cache_set_model(m.cache, key, u, m.now), ..m },
                Some((u, Source::Database)),
            ),
            None => (m, None),
        },
    }
}

/// The server after session `sid` subscribes to `key`: the membership
/// is added, the key's current state is resolved, and a snapshot
/// envelope of it — if there is one — is offered to `sid`'s own queue.
pub open spec fn subscribe_model(m: ServerModel, sid: u64, key: Seq<char>) -> ServerModel {
    let m1 = ServerModel { subs: sub_add_model(m.subs, key, sid), ..m };
    let step = resolve_model(m1, key);
    match step.1 {
        Some((u, src)) => ServerModel {
            sessions: enqueue_model(
                step.0.sessions,
                sid,
                EnvelopeModel { pubkey: key, account: u, source: src },
            ),
            ..step.0
        },
        None => step.0,
    }
}

/// The server after session `sid`'s request is handled: "subscribe" and
/// "unsubscribe" act on the membership; any other action is ignored.
pub open spec fn handle_subscription_model(m: ServerModel, sid: u64, req: RequestModel) -> ServerModel {
    if req.action == "subscribe"@ {
        subscribe_model(m, sid, req.pubkey)
    } else if req.action == "unsubscribe"@ {
        ServerModel { subs: sub_remove_model(m.subs, req.pubkey, sid), ..m }
    } else {
        m
    }
}

/// The server after one decoded update is ingested: persisted first,
/// then cached, then fanned out — in that order, and not at all when the
/// store rejects it (nothing may be cached or broadcast that is not
/// durable).
pub open spec fn ingest_model(m: ServerModel, nu: NewUpdateModel) -> ServerModel {
    if m.store.next_id == u64::MAX {
        m
    } else {
        let rec = stored_from(nu, m.store.next_id, m.now);
        let m1 = ServerModel {
            store: StoreModel {
                records: m.store.records.push(rec),
                next_id: (m.store.next_id + 1) as u64,
            },
            ..m
        };
        let m2 = ServerModel { cache: cache_set_model(m1.cache, nu.pubkey, rec, m.now), ..m1 };
        publish_model(m2, nu.pubkey, rec)
    }
}

/// The server after a connection is accepted, with the session identity
/// it received: the counter's value, registered with an empty queue.
pub open spec fn connect_model(m: ServerModel) -> (ServerModel, Option<u64>) {
    if m.next_client_id == u64::MAX {
        (m, None)
    } else {
        (
            ServerModel {
                sessions: reg_register_model(m.sessions, m.next_client_id),
                next_client_id: (m.next_client_id + 1) as u64,
                ..m
            },
            Some(m.next_client_id),
        )
    }
}

/// The server after session `sid` disconnects: gone from the registry
/// and from every key's subscribers.
pub open spec fn cleanup_model(m: ServerModel, sid: u64) -> ServerModel {
    ServerModel {
        sessions: reg_remove_model(m.sessions, sid),
        subs: sub_retain_model(m.subs, sid),
        ..m
    }
}

/// The clock after it is offered the reading `t`: it never moves
/// backwards and never beyond `MAX_CLOCK`.
pub open spec fn clock_step(now: i64, t: i64) -> i64 {
    if t > now {
        if t > MAX_CLOCK {
            MAX_CLOCK
        } else {
            t
        }
    } else {
        now
    }
}

/// The server after its clock is offered the reading `t`.
pub open spec fn advance_model(m: ServerModel, t: i64) -> ServerModel {
    ServerModel { now: clock_step(m.now, t), ..m }
}

/// The server core.  It owns the four components and the two counters
/// the protocol needs: the session identity counter and the clock.
pub struct WebSocketServer {
    database: AccountStore,
    cache: AccountCache,
    subscriptions: SubscriptionIndex,
    clients: ConnectionRegistry,
    next_client_id: u64,
    now: i64,
}

impl View for WebSocketServer {
    type V = ServerModel;

    closed spec fn view(&self) -> ServerModel {
        ServerModel {
            store: self.database@,
            cache: self.cache@,
            subs: self.subscriptions@,
            sessions: self.clients@,
            next_client_id: self.next_client_id,
            now: self.now,
        }
    }
}

/// Relies on chrono::Utc::now for the machine's wall-clock time, as
/// seconds since the Unix epoch.  Nothing is promised of the value: the
/// clock is the machine's, and the caller copes with any reading.
#[verifier::external_body]
fn now_unix_seconds() -> i64 {
    chrono::Utc::now().timestamp()
}

impl WebSocketServer {
    /// A fresh server: nothing stored, nothing cached, nobody connected,
    /// session identities from 1, the clock at the epoch.
    pub fn new() -> (r: WebSocketServer)
        ensures
            r@.store.records.len() == 0,
            r@.store.next_id == 1,
            r@.cache.len() == 0,
            r@.subs.len() == 0,
            r@.sessions.len() == 0,
            r@.next_client_id == 1,
            r@.now == 0,
            server_wf(r@),
    {
        WebSocketServer {
            database: AccountStore::new(),
            cache: AccountCache::new(),
            subscriptions: SubscriptionIndex::new(),
            clients: ConnectionRegistry::new(),
            next_client_id: 1,
            now: 0,
        }
    }

    /// Offers the clock a reading; it never moves backwards.
    pub fn advance_clock(&mut self, t: i64)
        requires
            server_wf(old(self)@),
        ensures
            final(self)@ == advance_model(old(self)@, t),
            server_wf(final(self)@),
    {
        if t > self.now {
            if t > MAX_CLOCK {
                self.now = MAX_CLOCK;
            } else {
                self.now = t;
            }
        }
    }

    /// Reads the machine clock and offers it to the server's clock.
    pub fn sync_clock(&mut self)
        requires
            server_wf(old(self)@),
        ensures
            server_wf(final(self)@),
            final(self)@.now >= old(self)@.now,
            final(self)@ == advance_model(old(self)@, final(self)@.now),
    {
        let t = now_unix_seconds();
        self.advance_clock(t);
    }

    /// The server's clock.
    pub fn current_time(&self) -> (r: i64)
        ensures
            r == self@.now,
    {
        self.now
    }

    /// Accepts a connection: allocates the next session identity —
    /// strictly increasing, never reused — and registers its empty
    /// delivery queue.  Fails only when the identity space is exhausted.
    pub fn connect_client(&mut self) -> (r: Option<u64>)
        requires
            server_wf(old(self)@),
        ensures
            final(self)@ == connect_model(old(self)@).0,
            r == connect_model(old(self)@).1,
            server_wf(final(self)@),
    {
        if self.next_client_id == u64::MAX {
            return None;
        }
        let id = self.next_client_id;
        self.next_client_id = self.next_client_id + 1;
        self.clients.register(id);
        proof {
            lemma_reg_register(old(self)@.sessions, id, id);
            let t = reg_register_model(old(self)@.sessions, id);
            assert(forall|j: int|
                0 <= j < old(self)@.sessions.len() ==> #[trigger] t[j] == old(self)@.sessions[j]);
        }
        Some(id)
    }

    /// The key's current state, preferring the cache; on a cache miss
    /// the store answers and the cache is repopulated, best effort; a
    /// key neither tier knows has no state, and the miss changes
    /// nothing.
    pub fn get_account_data(&mut self, pubkey: &str) -> (r: Option<(AccountUpdate, Source)>)
        requires
            server_wf(old(self)@),
        ensures
            final(self)@ == resolve_model(old(self)@, pubkey@).0,
            r is None <==> resolve_model(old(self)@, pubkey@).1 is None,
            r matches Some((u, src)) ==> resolve_model(old(self)@, pubkey@).1 == Some((u@, src)),
            server_wf(final(self)@),
    {
        let now = self.now;
        match self.cache.get_account(pubkey, now) {
            Some(u) => Some((u, Source::Cache)),
            None => {
                match self.database.get_latest_account_state(pubkey) {
                    Some(u) => {
                        self.cache.set_account(pubkey, &u, now);
                        proof {
                            lemma_latest_is_max(old(self)@.store.records, pubkey@);
                            let s0 = old(self)@.cache;
                            let t = cache_set_model(s0, pubkey@, u@, now);
                            assert(server_wf(self@)) by {
                                lemma_cache_find_set(s0, pubkey@, u@, now, pubkey@);
                                lemma_cache_idx(s0, pubkey@);
                                let i0 = cache_idx_of(s0, pubkey@);
                                let r0 = cache_remove_model(s0, pubkey@);
                                assert forall|i: int|
                                    0 <= i < t.len() implies store_has_key(
                                    self@.store.records,
                                    (#[trigger] t[i]).key,
                                ) by {
                                    if i < t.len() - 1 {
                                        assert(t[i] == r0[i]);
                                        if i0 == -1 {
                                            assert(r0[i] == s0[i]);
                                        } else {
                                            assert(r0[i] == (if i < i0 {
                                                s0[i]
                                            } else {
                                                s0[i + 1]
                                            }));
                                        }
                                    } else {
                                        assert(t[i].key == pubkey@);
                                    }
                                }
                            }
                        }
                        Some((u, Source::Database))
                    },
                    None => None,
                }
            },
        }
    }

    /// Fans `account` out to every session subscribed to `pubkey`: each
    /// gets one envelope marked as realtime, appended to its queue when
    /// it is live and has room — a session gone or full is skipped, and
    /// one skip affects nobody else.
    pub fn broadcast_account_update(&mut self, pubkey: &str, account: &AccountUpdate)
        requires
            server_wf(old(self)@),
        ensures
            final(self)@ == publish_model(old(self)@, pubkey@, account@),
            server_wf(final(self)@),
    {
        let ghost env = realtime_envelope(pubkey@, account@);
        let n = self.subscriptions.len();
        let mut j: usize = 0;
        while j < n
            invariant
                0 <= j <= n,
                n == self.subscriptions@.len(),
                self@.store == old(self)@.store,
                self@.cache == old(self)@.cache,
                self@.subs == old(self)@.subs,
                self@.next_client_id == old(self)@.next_client_id,
                self@.now == old(self)@.now,
                server_wf(old(self)@),
                env == realtime_envelope(pubkey@, account@),
                self@.sessions == deliver_upto(
                    old(self)@.sessions,
                    old(self)@.subs,
                    j as int,
                    pubkey@,
                    env,
                ),
                reg_wf(self@.sessions),
            decreases n - j,
        {
            let ghost pre = self@.sessions;
            let matches_key = {
                let k = self.subscriptions.key_at(j);
                str_eq(k, pubkey)
            };
            if matches_key {
                let sid = self.subscriptions.session_at(j);
                let msg = AccountUpdateMessage {
                    pubkey: pubkey.to_owned(),
                    account: account.duplicate(),
                    source: Source::Realtime,
                };
                proof {
                    assert(msg@ == env);
                }
                self.clients.enqueue(sid, msg);
            }
            j = j + 1;
        }
        proof {
            lemma_deliver(
                old(self)@.sessions,
                old(self)@.subs,
                n as int,
                pubkey@,
                env,
                0,
            );
            let t = deliver_upto(old(self)@.sessions, old(self)@.subs, n as int, pubkey@, env);
            assert(forall|i: int|
                0 <= i < t.len() ==> 1 <= (#[trigger] t[i]).id < self@.next_client_id) by {
                assert(forall|i: int|
                    0 <= i < t.len() ==> (#[trigger] t[i]).id == old(self)@.sessions[i].id);
            }
        }
    }

    /// Ingests one decoded update: persists it (assigning its identity
    /// and the persistence time), then caches it, then fans it out —
    /// the fan-out and the cache write never precede durability.
    /// Returns the persisted record, or nothing when the store rejected
    /// the update, in which case nothing was cached or broadcast.
    pub fn ingest(&mut self, update: NewAccountUpdate) -> (r: Option<AccountUpdate>)
        requires
            server_wf(old(self)@),
        ensures
            final(self)@ == ingest_model(old(self)@, update@),
            old(self)@.store.next_id < u64::MAX ==> (r matches Some(u) && u@ == stored_from(
                update@,
                old(self)@.store.next_id,
                old(self)@.now,
            )),
            old(self)@.store.next_id == u64::MAX ==> r is None,
            server_wf(final(self)@),
    {
        let key = update.pubkey.clone();
        let now = self.now;
        match self.database.insert_account_update(update, now) {
            None => None,
            Some(rec) => {
                proof {
                    let m = old(self)@;
                    let recm = stored_from(update@, m.store.next_id, m.now);
                    assert(server_wf(self@)) by {
                        assert(forall|i: int|
                            0 <= i < m.store.records.len() ==> #[trigger] self@.store.records[i]
                                == m.store.records[i]);
                        assert forall|i: int|
                            0 <= i < self@.cache.len() implies store_has_key(
                            self@.store.records,
                            (#[trigger] self@.cache[i]).key,
                        ) by {
                            assert(store_has_key(m.store.records, self@.cache[i].key));
                            let w = choose|w: int|
                                0 <= w < m.store.records.len() && (#[trigger] m.store.records[w]).pubkey
                                    == self@.cache[i].key;
                            assert(self@.store.records[w].pubkey == self@.cache[i].key);
                        }
                    }
                }
                self.cache.set_account(key.as_str(), &rec, now);
                proof {
                    let m = old(self)@;
                    let recm = stored_from(update@, m.store.next_id, m.now);
                    assert(server_wf(self@)) by {
                        lemma_cache_find_set(
                            m.cache,
                            update@.pubkey,
                            recm,
                            m.now,
                            update@.pubkey,
                        );
                        let s0 = m.cache;
                        let t = cache_set_model(s0, update@.pubkey, recm, m.now);
                        lemma_cache_idx(s0, update@.pubkey);
                        let i0 = cache_idx_of(s0, update@.pubkey);
                        let r0 = cache_remove_model(s0, update@.pubkey);
                        assert forall|i: int|
                            0 <= i < t.len() implies store_has_key(
                            self@.store.records,
                            (#[trigger] t[i]).key,
                        ) by {
                            if i < t.len() - 1 {
                                assert(t[i] == r0[i]);
                                if i0 == -1 {
                                    assert(r0[i] == s0[i]);
                                } else {
                                    assert(r0[i] == (if i < i0 {
                                        s0[i]
                                    } else {
                                        s0[i + 1]
                                    }));
                                }
                                assert(store_has_key(m.store.records, t[i].key));
                                let w = choose|w: int|
                                    0 <= w < m.store.records.len() && (#[trigger] m.store.records[w]).pubkey
                                        == t[i].key;
                                assert(self@.store.records[w].pubkey == t[i].key);
                            } else {
                                assert(self@.store.records[m.store.records.len() as int].pubkey
                                    == t[i].key);
                            }
                        }
                    }
                }
                self.broadcast_account_update(key.as_str(), &rec);
                Some(rec)
            },
        }
    }

    /// Handles one parsed client request from session `client_id`:
    /// "subscribe" adds the membership and offers the session an
    /// immediate snapshot of the key's current state, if there is one;
    /// "unsubscribe" drops the membership; an unknown action is ignored
    /// and the session continues.
    pub fn handle_subscription(&mut self, client_id: u64, request: SubscriptionRequest)
        requires
            server_wf(old(self)@),
        ensures
            final(self)@ == handle_subscription_model(old(self)@, client_id, request@),
            server_wf(final(self)@),
    {
        if str_eq(request.action.as_str(), "subscribe") {
            self.subscriptions.subscribe(request.pubkey.as_str(), client_id);
            proof {
                lemma_sub_add(old(self)@.subs, request@.pubkey, client_id);
            }
            match self.get_account_data(request.pubkey.as_str()) {
                Some((account, source)) => {
                    let ghost base = self@.sessions;
                    let msg = AccountUpdateMessage {
                        pubkey: request.pubkey.clone(),
                        account: account,
                        source: source,
                    };
                    self.clients.enqueue(client_id, msg);
                    proof {
                        lemma_reg_idx(base, client_id);
                        let i = reg_idx_of(base, client_id);
                        assert(forall|j: int|
                            0 <= j < self@.sessions.len() ==> 1 <= (
                            #[trigger] self@.sessions[j]).id < self@.next_client_id) by {
                            if i != -1 && base[i].queue.len() < CHANNEL_CAPACITY {
                                assert(forall|j: int|
                                    0 <= j < base.len() && j != i ==> #[trigger] self@.sessions[j]
                                        == base[j]);
                                assert(self@.sessions[i].id == base[i].id);
                            }
                        }
                    }
                },
                None => {},
            }
        } else if str_eq(request.action.as_str(), "unsubscribe") {
            self.subscriptions.unsubscribe(request.pubkey.as_str(), client_id);
            proof {
                lemma_sub_remove(old(self)@.subs, request@.pubkey, client_id);
            }
        } else {
        }
    }

    /// Disconnects session `client_id`: removed from the registry and
    /// from every key's subscribers; running it again is a no-op, so a
    /// double-triggered cleanup is harmless.
    pub fn cleanup_client(&mut self, client_id: u64)
        requires
            server_wf(old(self)@),
        ensures
            final(self)@ == cleanup_model(old(self)@, client_id),
            server_wf(final(self)@),
    {
        self.clients.unregister(client_id);
        self.subscriptions.remove_session(client_id);
        proof {
            lemma_reg_remove(old(self)@.sessions, client_id, client_id);
            lemma_sub_retain(old(self)@.subs, client_id);
            let i = reg_idx_of(old(self)@.sessions, client_id);
            let t = reg_remove_model(old(self)@.sessions, client_id);
            if i != -1 {
                lemma_reg_idx(old(self)@.sessions, client_id);
                assert(forall|j: int|
                    0 <= j < t.len() ==> #[trigger] t[j] == (if j < i {
                        old(self)@.sessions[j]
                    } else {
                        old(self)@.sessions[j + 1]
                    }));
            }
        }
    }

    /// Hands session `client_id` its oldest pending envelope, in the
    /// order the envelopes were queued; nothing when the queue is empty
    /// or the session is gone.
    pub fn next_outbound(&mut self, client_id: u64) -> (r: Option<AccountUpdateMessage>)
        requires
            server_wf(old(self)@),
        ensures
            final(self)@ == (ServerModel {
                sessions: pop_model(old(self)@.sessions, client_id).0,
                ..old(self)@
            }),
            r is None <==> pop_model(old(self)@.sessions, client_id).1 is None,
            r matches Some(msg) ==> pop_model(old(self)@.sessions, client_id).1 == Some(msg@),
            server_wf(final(self)@),
    {
        let r = self.clients.next_message(client_id);
        proof {
            lemma_reg_pop(old(self)@.sessions, client_id, client_id);
            let i = reg_idx_of(old(self)@.sessions, client_id);
            let t = pop_model(old(self)@.sessions, client_id).0;
            lemma_reg_idx(old(self)@.sessions, client_id);
            if i != -1 && old(self)@.sessions[i].queue.len() > 0 {
                assert(forall|j: int|
                    0 <= j < t.len() ==> (#[trigger] t[j]).id == old(self)@.sessions[j].id);
            }
        }
        r
    }

    /// Whether session `session` is currently subscribed to `pubkey`.
    pub fn is_subscribed(&self, pubkey: &str, session: u64) -> (r: bool)
        ensures
            r == has_sub(self@.subs, pubkey@, session),
    {
        self.subscriptions.contains_pair(pubkey, session)
    }

    /// Whether session `client_id` is live.
    pub fn has_client(&self, client_id: u64) -> (r: bool)
        ensures
            r == reg_has(self@.sessions, client_id),
    {
        self.clients.has_session(client_id)
    }

    /// How many envelopes are pending for session `client_id`.
    pub fn pending_for(&self, client_id: u64) -> (r: usize)
        ensures
            r == mailbox(self@.sessions, client_id).len(),
    {
        self.clients.pending(client_id)
    }
}

} // verus!
