//! The connection registry: which sessions are live, each with its
//! bounded outbound delivery queue.  Enqueueing never blocks: a full
//! queue, or a session already gone, drops the envelope.

use vstd::prelude::*;
use crate::account::{AccountUpdateMessage, EnvelopeModel};

verus! {

/// How many envelopes a session's delivery queue holds at most; an
/// enqueue beyond it fails fast and the envelope is dropped.
pub const CHANNEL_CAPACITY: usize = 100;

/// Mathematical value of one live session: its identity and pending
/// envelopes, oldest first.
#[verifier::ext_equal]
pub ghost struct SessionModel {
    pub id: u64,
    pub queue: Seq<EnvelopeModel>,
}

struct Session {
    id: u64,
    queue: Vec<AccountUpdateMessage>,
}

impl View for Session {
    type V = SessionModel;

    closed spec fn view(&self) -> SessionModel {
        SessionModel { id: self.id, queue: self.queue@.map_values(|m: AccountUpdateMessage| m@) }
    }
}

/// Well-formedness: one session per identity.
pub open spec fn reg_wf(s: Seq<SessionModel>) -> bool {
    forall|i: int, j: int| 0 <= i < j < s.len() ==> s[i].id != s[j].id
}

/// The position of the session with identity `id`, or -1.
pub open spec fn reg_idx_of(s: Seq<SessionModel>, id: u64) -> int
    decreases s.len(),
{
    if s.len() == 0 {
        -1
    } else if s[0].id == id {
        0
    } else {
        let r = reg_idx_of(s.skip(1), id);
        if r == -1 {
            -1
        } else {
            r + 1
        }
    }
}

/// Whether a session with identity `id` is live.
pub open spec fn reg_has(s: Seq<SessionModel>, id: u64) -> bool {
    reg_idx_of(s, id) != -1
}

/// The pending envelopes of session `id`, oldest first; empty for a
/// session that is not live.
pub open spec fn mailbox(s: Seq<SessionModel>, id: u64) -> Seq<EnvelopeModel> {
    let i = reg_idx_of(s, id);
    if i == -1 {
        Seq::empty()
    } else {
        s[i].queue
    }
}

/// The registry after `id` registers: a fresh session with an empty
/// queue, unless the identity is already live.
pub open spec fn reg_register_model(s: Seq<SessionModel>, id: u64) -> Seq<SessionModel> {
    if reg_has(s, id) {
        s
    } else {
        s.push(SessionModel { id: id, queue: Seq::empty() })
    }
}

/// The registry after `id` unregisters; absent identity is a no-op.
pub open spec fn reg_remove_model(s: Seq<SessionModel>, id: u64) -> Seq<SessionModel> {
    let i = reg_idx_of(s, id);
    if i == -1 {
        s
    } else {
        s.remove(i)
    }
}

/// The registry after an envelope is offered to session `id`: appended
/// to its queue when the session is live and the queue has room, else
/// dropped.
pub open spec fn enqueue_model(s: Seq<SessionModel>, id: u64, e: EnvelopeModel) -> Seq<
    SessionModel,
> {
    let i = reg_idx_of(s, id);
    if i == -1 {
        s
    } else if s[i].queue.len() >= CHANNEL_CAPACITY {
        s
    } else {
        s.update(i, SessionModel { id: id, queue: s[i].queue.push(e) })
    }
}

/// The registry and the envelope handed out when session `id` takes its
/// next pending envelope: the oldest one, removed from its queue.
pub open spec fn pop_model(s: Seq<SessionModel>, id: u64) -> (Seq<SessionModel>, Option<
    EnvelopeModel,
>) {
    let i = reg_idx_of(s, id);
    if i == -1 {
        (s, None)
    } else if s[i].queue.len() == 0 {
        (s, None)
    } else {
        (s.update(i, SessionModel { id: id, queue: s[i].queue.drop_first() }), Some(s[i].queue[0]))
    }
}

/// Where the session with `id` sits: -1 exactly when absent, otherwise a
/// valid position holding the identity, with no earlier one.
pub proof fn lemma_reg_idx(s: Seq<SessionModel>, id: u64)
    ensures
        reg_idx_of(s, id) == -1 <==> (forall|j: int|
            0 <= j < s.len() ==> (#[trigger] s[j]).id != id),
        reg_idx_of(s, id) != -1 ==> {
            &&& 0 <= reg_idx_of(s, id) < s.len()
            &&& s[reg_idx_of(s, id)].id == id
            &&& forall|j: int| 0 <= j < reg_idx_of(s, id) ==> (#[trigger] s[j]).id != id
        },
    decreases s.len(),
{
    if s.len() == 0 {
    } else if s[0].id == id {
    } else {
        lemma_reg_idx(s.skip(1), id);
        let t = s.skip(1);
        assert(forall|j: int| 0 <= j < t.len() ==> #[trigger] t[j] == s[j + 1]);
        let r = reg_idx_of(t, id);
        if r == -1 {
            assert forall|j: int| 0 <= j < s.len() implies (#[trigger] s[j]).id != id by {
                if j > 0 {
                    assert(t[j - 1] == s[j]);
                }
            }
        } else {
            assert(s[r + 1] == t[r]);
            assert forall|j: int| 0 <= j < r + 1 implies (#[trigger] s[j]).id != id by {
                if j > 0 {
                    assert(t[j - 1] == s[j]);
                }
            }
        }
    }
}

/// A scan that saw no session with the identity in the first `i`
/// positions and one at `i` has found its position; a full scan with no
/// match shows absence.
pub proof fn lemma_reg_first_match(s: Seq<SessionModel>, id: u64, i: int)
    requires
        0 <= i <= s.len(),
        forall|j: int| 0 <= j < i ==> (#[trigger] s[j]).id != id,
    ensures
        i < s.len() && s[i].id == id ==> reg_idx_of(s, id) == i,
        i == s.len() ==> reg_idx_of(s, id) == -1,
{
    lemma_reg_idx(s, id);
    if i < s.len() && s[i].id == id {
        let r = reg_idx_of(s, id);
        assert(r != -1);
    }
}

/// Two registries with the same identities in the same positions place
/// every identity at the same position.
pub proof fn lemma_reg_idx_same_ids(s: Seq<SessionModel>, t: Seq<SessionModel>, id: u64)
    requires
        s.len() == t.len(),
        forall|j: int| 0 <= j < s.len() ==> (#[trigger] s[j]).id == t[j].id,
    ensures
        reg_idx_of(s, id) == reg_idx_of(t, id),
    decreases s.len(),
{
    if s.len() > 0 && s[0].id != id {
        lemma_reg_idx_same_ids(s.skip(1), t.skip(1), id);
        assert(forall|j: int| 0 <= j < s.len() - 1 ==> #[trigger] s.skip(1)[j] == s[j + 1]);
        assert(forall|j: int| 0 <= j < t.len() - 1 ==> #[trigger] t.skip(1)[j] == t[j + 1]);
    }
}

/// What registration changes, seen from session `x`: the fresh identity
/// becomes live with an empty queue, and every other session keeps its
/// queue.
pub proof fn lemma_reg_register(s: Seq<SessionModel>, id: u64, x: u64)
    requires
        reg_wf(s),
    ensures
        reg_wf(reg_register_model(s, id)),
        reg_has(reg_register_model(s, id), x) <==> (reg_has(s, x) || x == id),
        mailbox(reg_register_model(s, id), x) == if x == id && !reg_has(s, id) {
            Seq::<EnvelopeModel>::empty()
        } else {
            mailbox(s, x)
        },
{
    lemma_reg_idx(s, id);
    let t = reg_register_model(s, id);
    if !reg_has(s, id) {
        assert(forall|j: int| 0 <= j < s.len() ==> #[trigger] t[j] == s[j]);
        assert(t[s.len() as int] == SessionModel { id: id, queue: Seq::empty() });
        assert(reg_wf(t)) by {
            assert forall|a: int, b: int| 0 <= a < b < t.len() implies t[a].id != t[b].id by {
                if b == s.len() as int {
                    assert(s[a].id != id);
                }
            }
        }
        lemma_reg_idx(s, x);
        lemma_reg_idx(t, x);
        if x == id {
            lemma_reg_first_match(t, x, s.len() as int);
        } else {
            let a = reg_idx_of(s, x);
            if a == -1 {
                assert(forall|j: int| 0 <= j < t.len() ==> (#[trigger] t[j]).id != x);
                assert(reg_idx_of(t, x) == -1);
            } else {
                lemma_reg_first_match(t, x, a);
            }
        }
    }
}

/// What unregistration changes, seen from session `x`: the identity is
/// no longer live and its queue is gone; every other session keeps its
/// queue.  Unregistering again changes nothing.
pub proof fn lemma_reg_remove(s: Seq<SessionModel>, id: u64, x: u64)
    requires
        reg_wf(s),
    ensures
        reg_wf(reg_remove_model(s, id)),
        reg_has(reg_remove_model(s, id), x) <==> (reg_has(s, x) && x != id),
        mailbox(reg_remove_model(s, id), x) == if x == id {
            Seq::<EnvelopeModel>::empty()
        } else {
            mailbox(s, x)
        },
        reg_remove_model(reg_remove_model(s, id), id) == reg_remove_model(s, id),
{
    lemma_reg_idx(s, id);
    let i = reg_idx_of(s, id);
    let t = reg_remove_model(s, id);
    if i == -1 {
        lemma_reg_idx(t, id);
        if x == id {
            lemma_reg_idx(s, x);
        }
    } else {
        assert(forall|j: int| 0 <= j < i ==> #[trigger] t[j] == s[j]);
        assert(forall|j: int| i <= j < t.len() ==> #[trigger] t[j] == s[j + 1]);
        assert(reg_wf(t)) by {
            assert forall|a: int, b: int| 0 <= a < b < t.len() implies t[a].id != t[b].id by {
                assert(t[a] == (if a < i {
                    s[a]
                } else {
                    s[a + 1]
                }));
                assert(t[b] == (if b < i {
                    s[b]
                } else {
                    s[b + 1]
                }));
            }
        }
        lemma_reg_idx(t, x);
        lemma_reg_idx(s, x);
        if x == id {
            if reg_idx_of(t, x) != -1 {
                let p = reg_idx_of(t, x);
                let q = if p < i {
                    p
                } else {
                    p + 1
                };
                assert(s[q].id == x);
                assert(q != i ==> false);
            }
        } else {
            let p = reg_idx_of(s, x);
            if p == -1 {
                assert(forall|j: int| 0 <= j < t.len() ==> (#[trigger] t[j]).id != x);
                assert(reg_idx_of(t, x) == -1);
            } else {
                assert(p != i);
                let p2 = if p < i {
                    p
                } else {
                    p - 1
                };
                assert(t[p2] == s[p]);
                assert(forall|j: int| 0 <= j < p2 ==> (#[trigger] t[j]).id != x) by {
                    assert(forall|j: int|
                        0 <= j < p2 ==> #[trigger] t[j] == (if j < i {
                            s[j]
                        } else {
                            s[j + 1]
                        }));
                }
                lemma_reg_first_match(t, x, p2);
            }
        }
        lemma_reg_idx(t, id);
    }
}

/// What an enqueue changes, seen from session `x`: when the target
/// session is live and has room, exactly its queue grows by the
/// envelope at the end; in every other case, and for every other
/// session, nothing changes.
pub proof fn lemma_reg_enqueue(s: Seq<SessionModel>, id: u64, e: EnvelopeModel, x: u64)
    requires
        reg_wf(s),
    ensures
        reg_wf(enqueue_model(s, id, e)),
        enqueue_model(s, id, e).len() == s.len(),
        forall|j: int|
            0 <= j < s.len() ==> (#[trigger] enqueue_model(s, id, e)[j]).id == s[j].id,
        reg_has(enqueue_model(s, id, e), x) <==> reg_has(s, x),
        mailbox(enqueue_model(s, id, e), x) == if x == id && reg_has(s, id) && mailbox(
            s,
            id,
        ).len() < CHANNEL_CAPACITY {
            mailbox(s, id).push(e)
        } else {
            mailbox(s, x)
        },
{
    lemma_reg_idx(s, id);
    let i = reg_idx_of(s, id);
    let t = enqueue_model(s, id, e);
    if i != -1 && s[i].queue.len() < CHANNEL_CAPACITY {
        assert(t.len() == s.len());
        assert(forall|j: int| 0 <= j < s.len() ==> (#[trigger] t[j]).id == s[j].id);
        lemma_reg_idx_same_ids(s, t, x);
        lemma_reg_idx(s, x);
        lemma_reg_idx(t, x);
        if x == id {
            assert(t[i].queue == s[i].queue.push(e));
        }
        assert(reg_wf(t));
    }
}

/// What taking the next envelope changes, seen from session `x`: the
/// handed-out envelope is the oldest pending one of the session, which
/// loses exactly it; every other session keeps its queue.
pub proof fn lemma_reg_pop(s: Seq<SessionModel>, id: u64, x: u64)
    requires
        reg_wf(s),
    ensures
        reg_wf(pop_model(s, id).0),
        pop_model(s, id).0.len() == s.len(),
        forall|j: int| 0 <= j < s.len() ==> (#[trigger] pop_model(s, id).0[j]).id == s[j].id,
        reg_has(pop_model(s, id).0, x) <==> reg_has(s, x),
        pop_model(s, id).1 == if mailbox(s, id).len() == 0 {
            None::<EnvelopeModel>
        } else {
            Some(mailbox(s, id)[0])
        },
        mailbox(pop_model(s, id).0, x) == if x == id && mailbox(s, id).len() > 0 {
            mailbox(s, id).drop_first()
        } else {
            mailbox(s, x)
        },
{
    lemma_reg_idx(s, id);
    let i = reg_idx_of(s, id);
    let t = pop_model(s, id).0;
    if i != -1 && s[i].queue.len() > 0 {
        assert(t.len() == s.len());
        assert(forall|j: int| 0 <= j < s.len() ==> (#[trigger] t[j]).id == s[j].id);
        lemma_reg_idx_same_ids(s, t, x);
        lemma_reg_idx(s, x);
        lemma_reg_idx(t, x);
        assert(reg_wf(t));
    }
}

/// The connection registry.
pub struct ConnectionRegistry {
    sessions: Vec<Session>,
}

impl View for ConnectionRegistry {
    type V = Seq<SessionModel>;

    closed spec fn view(&self) -> Seq<SessionModel> {
        self.sessions@.map_values(|s: Session| s@)
    }
}

impl ConnectionRegistry {
    /// An empty registry: no session is live.
    pub fn new() -> (r: ConnectionRegistry)
        ensures
            r@.len() == 0,
            reg_wf(r@),
    {
        let r = ConnectionRegistry { sessions: Vec::new() };
        proof {
            assert(r@ =~= Seq::<SessionModel>::empty());
        }
        r
    }

    /// The position of the session with `id`, if live.
    fn find_index(&self, id: u64) -> (r: Option<usize>)
        ensures
            r matches Some(i) ==> {
                &&& reg_idx_of(self@, id) == i
                &&& 0 <= i < self@.len()
                &&& self@[i as int].id == id
                &&& self@.len() == self.sessions@.len()
                &&& self@[i as int] == self.sessions@[i as int]@
            },
            r is None ==> reg_idx_of(self@, id) == -1,
    {
        let n = self.sessions.len();
        let mut i: usize = 0;
        while i < n
            invariant
                0 <= i <= n,
                n == self.sessions.len(),
                self@.len() == n,
                forall|j: int| 0 <= j < self@.len() ==> #[trigger] self@[j] == self.sessions@[j]@,
                forall|j: int| 0 <= j < i ==> (#[trigger] self@[j]).id != id,
            decreases n - i,
        {
            if self.sessions[i].id == id {
                proof {
                    lemma_reg_first_match(self@, id, i as int);
                }
                return Some(i);
            }
            i = i + 1;
        }
        proof {
            lemma_reg_first_match(self@, id, n as int);
        }
        None
    }

    /// Whether the session with `id` is live.
    pub fn has_session(&self, id: u64) -> (r: bool)
        ensures
            r == reg_has(self@, id),
    {
        match self.find_index(id) {
            Some(_) => true,
            None => false,
        }
    }

    /// How many envelopes are pending for session `id`.
    pub fn pending(&self, id: u64) -> (r: usize)
        ensures
            r == mailbox(self@, id).len(),
    {
        match self.find_index(id) {
            None => 0,
            Some(i) => self.sessions[i].queue.len(),
        }
    }

    /// Makes the session with `id` live, with an empty delivery queue; a
    /// second registration of the same identity is a no-op.
    pub fn register(&mut self, id: u64)
        requires
            reg_wf(old(self)@),
        ensures
            final(self)@ == reg_register_model(old(self)@, id),
            reg_wf(final(self)@),
    {
        match self.find_index(id) {
            Some(_) => {},
            None => {
                self.sessions.push(Session { id: id, queue: Vec::new() });
                proof {
                    assert(final(self)@ =~= old(self)@.push(
                        SessionModel { id: id, queue: Seq::empty() },
                    )) by {
                        assert(final(self)@.len() == old(self)@.len() + 1);
                        assert(forall|j: int|
                            0 <= j < old(self)@.len() ==> #[trigger] final(self)@[j] == old(
                                self,
                            )@[j]);
                        assert(final(self)@[old(self)@.len() as int].queue =~= Seq::<
                            EnvelopeModel,
                        >::empty());
                    }
                    lemma_reg_register(old(self)@, id, id);
                }
            },
        }
    }

    /// Removes the session with `id`; an identity that is not live is a
    /// no-op, so the removal is idempotent.
    pub fn unregister(&mut self, id: u64)
        requires
            reg_wf(old(self)@),
        ensures
            final(self)@ == reg_remove_model(old(self)@, id),
            reg_wf(final(self)@),
    {
        match self.find_index(id) {
            None => {},
            Some(i) => {
                self.sessions.remove(i);
                proof {
                    assert(final(self)@ =~= old(self)@.remove(i as int));
                    lemma_reg_remove(old(self)@, id, id);
                }
            },
        }
    }

    /// Offers an envelope to session `id`: appended when the session is
    /// live and its queue has room, else dropped.  Reports whether the
    /// envelope was queued.
    pub fn enqueue(&mut self, id: u64, msg: AccountUpdateMessage) -> (delivered: bool)
        requires
            reg_wf(old(self)@),
        ensures
            final(self)@ == enqueue_model(old(self)@, id, msg@),
            delivered == (reg_has(old(self)@, id) && mailbox(old(self)@, id).len()
                < CHANNEL_CAPACITY),
            reg_wf(final(self)@),
    {
        proof {
            lemma_reg_enqueue(old(self)@, id, msg@, id);
        }
        match self.find_index(id) {
            None => false,
            Some(i) => {
                if self.sessions[i].queue.len() >= CHANNEL_CAPACITY {
                    proof {
                        assert(mailbox(old(self)@, id).len() >= CHANNEL_CAPACITY);
                    }
                    return false;
                }
                let ghost base = self.sessions@;
                let mut sess = self.sessions.remove(i);
                sess.queue.push(msg);
                self.sessions.insert(i, sess);
                proof {
                    base.remove(i as int).insert_ensures(i as int, sess);
                    assert(sess@ == SessionModel {
                        id: id,
                        queue: old(self)@[i as int].queue.push(msg@),
                    }) by {
                        assert(sess.queue@.map_values(|m: AccountUpdateMessage| m@) =~= old(
                            self,
                        )@[i as int].queue.push(msg@));
                    }
                    assert(final(self)@ =~= old(self)@.update(
                        i as int,
                        SessionModel { id: id, queue: old(self)@[i as int].queue.push(msg@) },
                    )) by {
                        assert(forall|j: int|
                            0 <= j < final(self)@.len() ==> #[trigger] final(self)@[j]
                                == self.sessions@[j]@);
                        assert(forall|j: int|
                            0 <= j < i ==> #[trigger] self.sessions@[j] == base[j]);
                        assert(forall|j: int|
                            i < j < self.sessions@.len() ==> #[trigger] self.sessions@[j]
                                == base[j]);
                        assert(self.sessions@[i as int] == sess);
                    }
                }
                true
            },
        }
    }

    /// Hands out the oldest pending envelope of session `id`, removing
    /// it from the queue; nothing for an empty queue or a session that
    /// is not live.
    pub fn next_message(&mut self, id: u64) -> (r: Option<AccountUpdateMessage>)
        requires
            reg_wf(old(self)@),
        ensures
            final(self)@ == pop_model(old(self)@, id).0,
            r is None <==> pop_model(old(self)@, id).1 is None,
            r matches Some(m) ==> pop_model(old(self)@, id).1 == Some(m@),
            reg_wf(final(self)@),
    {
        proof {
            lemma_reg_pop(old(self)@, id, id);
        }
        match self.find_index(id) {
            None => None,
            Some(i) => {
                if self.sessions[i].queue.len() == 0 {
                    return None;
                }
                let ghost base = self.sessions@;
                let mut sess = self.sessions.remove(i);
                let msg = sess.queue.remove(0);
                self.sessions.insert(i, sess);
                proof {
                    base.remove(i as int).insert_ensures(i as int, sess);
                    assert(sess@ == SessionModel {
                        id: id,
                        queue: old(self)@[i as int].queue.drop_first(),
                    }) by {
                        assert(sess.queue@.map_values(|m: AccountUpdateMessage| m@) =~= old(
                            self,
                        )@[i as int].queue.drop_first());
                    }
                    assert(msg@ == old(self)@[i as int].queue[0]);
                    assert(final(self)@ =~= old(self)@.update(
                        i as int,
                        SessionModel { id: id, queue: old(self)@[i as int].queue.drop_first() },
                    )) by {
                        assert(forall|j: int|
                            0 <= j < final(self)@.len() ==> #[trigger] final(self)@[j]
                                == self.sessions@[j]@);
                        assert(forall|j: int|
                            0 <= j < i ==> #[trigger] self.sessions@[j] == base[j]);
                        assert(forall|j: int|
                            i < j < self.sessions@.len() ==> #[trigger] self.sessions@[j]
                                == base[j]);
                        assert(self.sessions@[i as int] == sess);
                    }
                }
                Some(msg)
            },
        }
    }
}

} // verus!
