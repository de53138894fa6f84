//! The subscription index: which sessions currently follow which entity
//! keys.  Membership only — a pair `(key, session)` is present at most
//! once; a key with no subscribers has no entries at all.

use vstd::prelude::*;

verus! {

/// Mathematical value of one subscription: a session following a key.
#[verifier::ext_equal]
pub ghost struct SubPairModel {
    pub key: Seq<char>,
    pub session: u64,
}

struct SubPair {
    key: String,
    session: u64,
}

impl View for SubPair {
    type V = SubPairModel;

    closed spec fn view(&self) -> SubPairModel {
        SubPairModel { key: self.key@, session: self.session }
    }
}

/// Well-formedness: no pair occurs twice.
pub open spec fn sub_wf(s: Seq<SubPairModel>) -> bool {
    forall|i: int, j: int| 0 <= i < j < s.len() ==> s[i] != s[j]
}

/// Whether `session` is subscribed to `key`.
pub open spec fn has_sub(s: Seq<SubPairModel>, key: Seq<char>, session: u64) -> bool {
    exists|i: int|
        0 <= i < s.len() && (#[trigger] s[i]).key == key && s[i].session == session
}

/// The index after `session` subscribes to `key`: unchanged when the
/// pair is already present, else the pair is appended.
pub open spec fn sub_add_model(s: Seq<SubPairModel>, key: Seq<char>, session: u64) -> Seq<
    SubPairModel,
> {
    if has_sub(s, key, session) {
        s
    } else {
        s.push(SubPairModel { key: key, session: session })
    }
}

/// The position of the pair `(key, session)`, or -1.
pub open spec fn sub_idx_of(s: Seq<SubPairModel>, key: Seq<char>, session: u64) -> int
    decreases s.len(),
{
    if s.len() == 0 {
        -1
    } else if s[0].key == key && s[0].session == session {
        0
    } else {
        let r = sub_idx_of(s.skip(1), key, session);
        if r == -1 {
            -1
        } else {
            r + 1
        }
    }
}

/// The index after `session` unsubscribes from `key`: the pair is
/// dropped when present, and nothing else changes.
pub open spec fn sub_remove_model(s: Seq<SubPairModel>, key: Seq<char>, session: u64) -> Seq<
    SubPairModel,
> {
    let i = sub_idx_of(s, key, session);
    if i == -1 {
        s
    } else {
        s.remove(i)
    }
}

/// The index after a session disconnects: every pair of that session is
/// dropped, in one sweep.
pub open spec fn sub_retain_model(s: Seq<SubPairModel>, session: u64) -> Seq<SubPairModel>
    decreases s.len(),
{
    if s.len() == 0 {
        s
    } else {
        let rest = sub_retain_model(s.drop_last(), session);
        if s.last().session == session {
            rest
        } else {
            rest.push(s.last())
        }
    }
}

/// Where the pair `(key, session)` sits: -1 exactly when absent,
/// otherwise a valid position holding the pair, with no earlier one.
pub proof fn lemma_sub_idx(s: Seq<SubPairModel>, key: Seq<char>, session: u64)
    ensures
        sub_idx_of(s, key, session) == -1 <==> !has_sub(s, key, session),
        sub_idx_of(s, key, session) != -1 ==> {
            &&& 0 <= sub_idx_of(s, key, session) < s.len()
            &&& s[sub_idx_of(s, key, session)].key == key
            &&& s[sub_idx_of(s, key, session)].session == session
            &&& forall|j: int|
                0 <= j < sub_idx_of(s, key, session) ==> !((#[trigger] s[j]).key == key
                    && s[j].session == session)
        },
    decreases s.len(),
{
    if s.len() == 0 {
    } else if s[0].key == key && s[0].session == session {
    } else {
        lemma_sub_idx(s.skip(1), key, session);
        let t = s.skip(1);
        assert(forall|j: int| 0 <= j < t.len() ==> #[trigger] t[j] == s[j + 1]);
        let r = sub_idx_of(t, key, session);
        if r == -1 {
            assert forall|j: int|
                0 <= j < s.len() implies !((#[trigger] s[j]).key == key && s[j].session
                == session) by {
                if j > 0 {
                    assert(t[j - 1] == s[j]);
                }
            }
        } else {
            assert(s[r + 1] == t[r]);
            assert forall|j: int|
                0 <= j < r + 1 implies !((#[trigger] s[j]).key == key && s[j].session
                == session) by {
                if j > 0 {
                    assert(t[j - 1] == s[j]);
                }
            }
        }
    }
}

/// A scan that saw no match in the first `i` positions and a match at
/// `i` has found the pair's position; a full scan with no match shows
/// absence.
pub proof fn lemma_sub_first_match(s: Seq<SubPairModel>, key: Seq<char>, session: u64, i: int)
    requires
        0 <= i <= s.len(),
        forall|j: int| 0 <= j < i ==> !((#[trigger] s[j]).key == key && s[j].session == session),
    ensures
        i < s.len() && s[i].key == key && s[i].session == session ==> sub_idx_of(s, key, session)
            == i,
        i == s.len() ==> sub_idx_of(s, key, session) == -1,
{
    lemma_sub_idx(s, key, session);
    if i < s.len() && s[i].key == key && s[i].session == session {
        let r = sub_idx_of(s, key, session);
        assert(has_sub(s, key, session));
        assert(r != -1);
    }
}

/// Subscribing adds exactly the one membership: afterwards the pair is
/// present, every other pair is as before, and no pair is duplicated.
pub proof fn lemma_sub_add(s: Seq<SubPairModel>, key: Seq<char>, session: u64)
    requires
        sub_wf(s),
    ensures
        sub_wf(sub_add_model(s, key, session)),
        forall|k: Seq<char>, x: u64|
            #[trigger] has_sub(sub_add_model(s, key, session), k, x) <==> (has_sub(s, k, x) || (k
                == key && x == session)),
{
    let t = sub_add_model(s, key, session);
    if !has_sub(s, key, session) {
        assert(forall|j: int| 0 <= j < s.len() ==> #[trigger] t[j] == s[j]);
        assert(t[s.len() as int] == SubPairModel { key: key, session: session });
        assert(sub_wf(t)) by {
            assert forall|i: int, j: int| 0 <= i < j < t.len() implies t[i] != t[j] by {
                if j == s.len() as int {
                    if t[i] == t[j] {
                        assert(has_sub(s, key, session));
                    }
                }
            }
        }
        assert forall|k: Seq<char>, x: u64| #[trigger]
            has_sub(t, k, x) implies (has_sub(s, k, x) || (k == key && x == session)) by {
            let i = choose|i: int|
                0 <= i < t.len() && (#[trigger] t[i]).key == k && t[i].session == x;
            if i < s.len() {
                assert(s[i].key == k && s[i].session == x);
            }
        }
        assert forall|k: Seq<char>, x: u64|
            (has_sub(s, k, x) || (k == key && x == session)) implies #[trigger] has_sub(
            t,
            k,
            x,
        ) by {
            if has_sub(s, k, x) {
                let i = choose|i: int|
                    0 <= i < s.len() && (#[trigger] s[i]).key == k && s[i].session == x;
                assert(t[i].key == k && t[i].session == x);
            } else {
                assert(t[s.len() as int].key == k && t[s.len() as int].session == x);
            }
        }
    }
}

/// Unsubscribing removes exactly the one membership: afterwards the pair
/// is absent, and every other pair is as before.
pub proof fn lemma_sub_remove(s: Seq<SubPairModel>, key: Seq<char>, session: u64)
    requires
        sub_wf(s),
    ensures
        sub_wf(sub_remove_model(s, key, session)),
        forall|k: Seq<char>, x: u64|
            #[trigger] has_sub(sub_remove_model(s, key, session), k, x) <==> (has_sub(s, k, x)
                && !(k == key && x == session)),
{
    lemma_sub_idx(s, key, session);
    let i = sub_idx_of(s, key, session);
    let t = sub_remove_model(s, key, session);
    if i == -1 {
        assert forall|k: Seq<char>, x: u64| #[trigger]
            has_sub(t, k, x) implies (has_sub(s, k, x) && !(k == key && x == session)) by {
            if k == key && x == session {
                assert(!has_sub(s, key, session));
            }
        }
    } else {
        assert(forall|j: int| 0 <= j < i ==> #[trigger] t[j] == s[j]);
        assert(forall|j: int| i <= j < t.len() ==> #[trigger] t[j] == s[j + 1]);
        assert(sub_wf(t)) by {
            assert forall|a: int, b: int| 0 <= a < b < t.len() implies t[a] != t[b] by {
                assert(t[a] == (if a < i {
                    s[a]
                } else {
                    s[a + 1]
                }));
                assert(t[b] == (if b < i {
                    s[b]
                } else {
                    s[b + 1]
                }));
            }
        }
        assert forall|k: Seq<char>, x: u64| #[trigger]
            has_sub(t, k, x) implies (has_sub(s, k, x) && !(k == key && x == session)) by {
            let a = choose|a: int|
                0 <= a < t.len() && (#[trigger] t[a]).key == k && t[a].session == x;
            let b = if a < i {
                a
            } else {
                a + 1
            };
            assert(s[b].key == k && s[b].session == x);
            if k == key && x == session {
                if b != i {
                    assert(s[b] == SubPairModel { key: key, session: session });
                    assert(s[i] == SubPairModel { key: key, session: session });
                }
            }
        }
        assert forall|k: Seq<char>, x: u64|
            (has_sub(s, k, x) && !(k == key && x == session)) implies #[trigger] has_sub(
            t,
            k,
            x,
        ) by {
            let a = choose|a: int|
                0 <= a < s.len() && (#[trigger] s[a]).key == k && s[a].session == x;
            assert(a != i);
            if a < i {
                assert(t[a].key == k && t[a].session == x);
            } else {
                assert(t[a - 1] == s[a]);
                assert(t[a - 1].key == k && t[a - 1].session == x);
            }
        }
    }
}

/// A disconnect sweep removes exactly the session's memberships:
/// afterwards no pair of that session remains, and every pair of every
/// other session is as before.
pub proof fn lemma_sub_retain(s: Seq<SubPairModel>, session: u64)
    requires
        sub_wf(s),
    ensures
        sub_wf(sub_retain_model(s, session)),
        forall|k: Seq<char>, x: u64|
            #[trigger] has_sub(sub_retain_model(s, session), k, x) <==> (has_sub(s, k, x) && x
                != session),
    decreases s.len(),
{
    let t = sub_retain_model(s, session);
    if s.len() == 0 {
    } else {
        let d = s.drop_last();
        assert(sub_wf(d)) by {
            assert(forall|j: int| 0 <= j < d.len() ==> #[trigger] d[j] == s[j]);
        }
        lemma_sub_retain(d, session);
        let rest = sub_retain_model(d, session);
        assert forall|k: Seq<char>, x: u64| #[trigger]
            has_sub(s, k, x) implies (has_sub(d, k, x) || (s.last().key == k && s.last().session
            == x)) by {
            let a = choose|a: int|
                0 <= a < s.len() && (#[trigger] s[a]).key == k && s[a].session == x;
            if a < s.len() - 1 {
                assert(d[a].key == k && d[a].session == x);
            }
        }
        assert(forall|j: int| 0 <= j < d.len() ==> #[trigger] d[j] == s[j]);
        if s.last().session == session {
            assert forall|k: Seq<char>, x: u64|
                (has_sub(s, k, x) && x != session) implies #[trigger] has_sub(t, k, x) by {
                assert(has_sub(d, k, x) || (s.last().key == k && s.last().session == x));
            }
        } else {
            assert(forall|j: int| 0 <= j < rest.len() ==> #[trigger] t[j] == rest[j]);
            assert(t.last() == s.last());
            assert(sub_wf(t)) by {
                assert forall|a: int, b: int| 0 <= a < b < t.len() implies t[a] != t[b] by {
                    if b == t.len() - 1 {
                        if t[a] == t[b] {
                            assert(has_sub(rest, s.last().key, s.last().session)) by {
                                assert(rest[a].key == s.last().key && rest[a].session
                                    == s.last().session);
                            }
                            assert(has_sub(d, s.last().key, s.last().session));
                            let c = choose|c: int|
                                0 <= c < d.len() && (#[trigger] d[c]).key == s.last().key
                                    && d[c].session == s.last().session;
                                            assert(s[c].key == s.last().key && s[c].session == s.last().session);
                        }
                    }
                }
            }
            assert forall|k: Seq<char>, x: u64| #[trigger]
                has_sub(t, k, x) implies (has_sub(s, k, x) && x != session) by {
                let a = choose|a: int|
                    0 <= a < t.len() && (#[trigger] t[a]).key == k && t[a].session == x;
                if a < t.len() - 1 {
                    assert(rest[a].key == k && rest[a].session == x);
                    assert(has_sub(rest, k, x));
                } else {
                    assert(s.last().key == k && s.last().session == x);
                    assert(s[s.len() - 1].key == k);
                }
            }
            assert forall|k: Seq<char>, x: u64|
                (has_sub(s, k, x) && x != session) implies #[trigger] has_sub(t, k, x) by {
                assert(has_sub(d, k, x) || (s.last().key == k && s.last().session == x));
                if has_sub(d, k, x) {
                    assert(has_sub(rest, k, x));
                    let a = choose|a: int|
                        0 <= a < rest.len() && (#[trigger] rest[a]).key == k && rest[a].session
                            == x;
                    assert(t[a].key == k && t[a].session == x);
                } else {
                    assert(t[t.len() - 1].key == k && t[t.len() - 1].session == x);
                }
            }
        }
    }
}

/// Sweeping a session out twice is the same as sweeping it once.
pub proof fn lemma_sub_retain_idempotent(s: Seq<SubPairModel>, session: u64)
    ensures
        sub_retain_model(sub_retain_model(s, session), session) == sub_retain_model(s, session),
    decreases s.len(),
{
    if s.len() > 0 {
        lemma_sub_retain_idempotent(s.drop_last(), session);
        if s.last().session != session {
            let rest = sub_retain_model(s.drop_last(), session);
            let t = rest.push(s.last());
            assert(t.drop_last() =~= rest);
            assert(t.last() == s.last());
        }
    }
}

/// Subscribing a second time changes nothing: the first subscription
/// already made the pair present.
pub proof fn lemma_sub_add_idempotent(s: Seq<SubPairModel>, key: Seq<char>, session: u64)
    requires
        sub_wf(s),
    ensures
        sub_add_model(sub_add_model(s, key, session), key, session) == sub_add_model(
            s,
            key,
            session,
        ),
{
    lemma_sub_add(s, key, session);
    assert(has_sub(sub_add_model(s, key, session), key, session));
}

/// The subscription index.
pub struct SubscriptionIndex {
    entries: Vec<SubPair>,
}

impl View for SubscriptionIndex {
    type V = Seq<SubPairModel>;

    closed spec fn view(&self) -> Seq<SubPairModel> {
        self.entries@.map_values(|p: SubPair| p@)
    }
}

impl SubscriptionIndex {
    /// An empty index: nobody is subscribed to anything.
    pub fn new() -> (r: SubscriptionIndex)
        ensures
            r@.len() == 0,
            sub_wf(r@),
    {
        let s = SubscriptionIndex { entries: Vec::new() };
        proof {
            assert(s@ =~= Seq::<SubPairModel>::empty());
        }
        s
    }

    /// How many memberships the index holds.
    pub fn len(&self) -> (r: usize)
        ensures
            r == self@.len(),
    {
        self.entries.len()
    }

    /// The key of the membership at position `i`.
    pub fn key_at(&self, i: usize) -> (r: &str)
        requires
            i < self@.len(),
        ensures
            r@ == self@[i as int].key,
    {
        self.entries[i].key.as_str()
    }

    /// The session of the membership at position `i`.
    pub fn session_at(&self, i: usize) -> (r: u64)
        requires
            i < self@.len(),
        ensures
            r == self@[i as int].session,
    {
        self.entries[i].session
    }

    /// Subscribes `session` to `pubkey`; a second subscription to the
    /// same key is a no-op.
    pub fn subscribe(&mut self, pubkey: &str, session: u64)
        requires
            sub_wf(old(self)@),
        ensures
            final(self)@ == sub_add_model(old(self)@, pubkey@, session),
            sub_wf(final(self)@),
    {
        let key: String = pubkey.to_owned();
        let n = self.entries.len();
        let mut found = false;
        let mut i: usize = 0;
        while i < n
            invariant
                0 <= i <= n,
                n == self.entries.len(),
                self@.len() == n,
                key@ == pubkey@,
                forall|j: int| 0 <= j < self@.len() ==> #[trigger] self@[j] == self.entries@[j]@,
                found == has_sub(self@.take(i as int), pubkey@, session),
            decreases n - i,
        {
            let p = &self.entries[i];
            proof {
                let pre = self@.take(i as int);
                let cur = self@.take(i + 1);
                assert(forall|j: int| 0 <= j < i ==> #[trigger] cur[j] == pre[j]);
                assert(cur[i as int] == self@[i as int]);
                if has_sub(pre, pubkey@, session) {
                    let a = choose|a: int|
                        0 <= a < pre.len() && (#[trigger] pre[a]).key == pubkey@ && pre[a].session
                            == session;
                    assert(cur[a].key == pubkey@ && cur[a].session == session);
                    assert(has_sub(cur, pubkey@, session));
                }
            }
            if p.session == session && p.key == key {
                found = true;
                proof {
                    assert(self@.take(i + 1)[i as int] == self@[i as int]);
                    assert(has_sub(self@.take(i + 1), pubkey@, session));
                }
            } else {
                proof {
                    let pre = self@.take(i as int);
                    let cur = self@.take(i + 1);
                    if has_sub(cur, pubkey@, session) {
                        let a = choose|a: int|
                            0 <= a < cur.len() && (#[trigger] cur[a]).key == pubkey@
                                && cur[a].session == session;
                        if a < i {
                            assert(pre[a].key == pubkey@ && pre[a].session == session);
                        }
                    }
                }
            }
            i = i + 1;
        }
        proof {
            assert(self@.take(n as int) =~= self@);
        }
        if !found {
            let pair = SubPair { key: key, session: session };
            self.entries.push(pair);
            proof {
                assert(final(self)@ =~= old(self)@.push(
                    SubPairModel { key: pubkey@, session: session },
                ));
                lemma_sub_add(old(self)@, pubkey@, session);
            }
        }
    }

    /// Unsubscribes `session` from `pubkey`; absent membership is a
    /// no-op.
    pub fn unsubscribe(&mut self, pubkey: &str, session: u64)
        requires
            sub_wf(old(self)@),
        ensures
            final(self)@ == sub_remove_model(old(self)@, pubkey@, session),
            sub_wf(final(self)@),
    {
        let key: String = pubkey.to_owned();
        let n = self.entries.len();
        let mut i: usize = 0;
        while i < n
            invariant
                0 <= i <= n,
                n == self.entries.len(),
                self@.len() == n,
                sub_wf(self@),
                self@ == old(self)@,
                key@ == pubkey@,
                forall|j: int| 0 <= j < self@.len() ==> #[trigger] self@[j] == self.entries@[j]@,
                forall|j: int|
                    0 <= j < i ==> !((#[trigger] self@[j]).key == pubkey@ && self@[j].session
                        == session),
            decreases n - i,
        {
            let p = &self.entries[i];
            if p.session == session && p.key == key {
                proof {
                    lemma_sub_first_match(self@, pubkey@, session, i as int);
                    lemma_sub_remove(old(self)@, pubkey@, session);
                }
                self.entries.remove(i);
                proof {
                    assert(final(self)@ =~= old(self)@.remove(i as int));
                }
                return ;
            }
            i = i + 1;
        }
        proof {
            lemma_sub_first_match(self@, pubkey@, session, n as int);
            lemma_sub_remove(old(self)@, pubkey@, session);
        }
    }

    /// Removes `session` from every key it is subscribed to; run when the
    /// session disconnects.
    pub fn remove_session(&mut self, session: u64)
        requires
            sub_wf(old(self)@),
        ensures
            final(self)@ == sub_retain_model(old(self)@, session),
            sub_wf(final(self)@),
    {
        let n = self.entries.len();
        let mut kept: Vec<SubPair> = Vec::new();
        let mut i: usize = 0;
        proof {
            assert(old(self)@.take(0) =~= Seq::<SubPairModel>::empty());
            assert(kept@.map_values(|p: SubPair| p@) =~= Seq::<SubPairModel>::empty());
        }
        while i < n
            invariant
                0 <= i <= n,
                n == self.entries.len(),
                self@.len() == n,
                self@ == old(self)@,
                forall|j: int| 0 <= j < self@.len() ==> #[trigger] self@[j] == self.entries@[j]@,
                kept@.map_values(|p: SubPair| p@) == sub_retain_model(
                    self@.take(i as int),
                    session,
                ),
            decreases n - i,
        {
            proof {
                assert(self@.take(i + 1).drop_last() =~= self@.take(i as int));
                assert(self@.take(i + 1).last() == self@[i as int]);
            }
            let p = &self.entries[i];
            if p.session != session {
                let copy = SubPair { key: p.key.clone(), session: p.session };
                kept.push(copy);
                proof {
                    assert(kept@.map_values(|p: SubPair| p@) =~= sub_retain_model(
                        self@.take(i as int),
                        session,
                    ).push(self@[i as int]));
                }
            }
            i = i + 1;
        }
        proof {
            assert(self@.take(n as int) =~= self@);
        }
        self.entries = kept;
        proof {
            lemma_sub_retain(old(self)@, session);
        }
    }

    /// Whether `session` is subscribed to `pubkey`.
    pub fn contains_pair(&self, pubkey: &str, session: u64) -> (r: bool)
        ensures
            r == has_sub(self@, pubkey@, session),
    {
        let key: String = pubkey.to_owned();
        let n = self.entries.len();
        let mut i: usize = 0;
        while i < n
            invariant
                0 <= i <= n,
                n == self.entries.len(),
                self@.len() == n,
                key@ == pubkey@,
                forall|j: int| 0 <= j < self@.len() ==> #[trigger] self@[j] == self.entries@[j]@,
                forall|j: int|
                    0 <= j < i ==> !((#[trigger] self@[j]).key == pubkey@ && self@[j].session
                        == session),
            decreases n - i,
        {
            let p = &self.entries[i];
            if p.session == session && p.key == key {
                proof {
                    assert(self@[i as int].key == pubkey@ && self@[i as int].session == session);
                }
                return true;
            }
            i = i + 1;
        }
        proof {
            if has_sub(self@, pubkey@, session) {
                let a = choose|a: int|
                    0 <= a < self@.len() && (#[trigger] self@[a]).key == pubkey@
                        && self@[a].session == session;
                assert(false);
            }
        }
        false
    }

    /// The sessions currently subscribed to `pubkey`, each exactly once.
    pub fn subscribers_of(&self, pubkey: &str) -> (r: Vec<u64>)
        requires
            sub_wf(self@),
        ensures
            forall|x: u64| r@.contains(x) <==> has_sub(self@, pubkey@, x),
            r@.no_duplicates(),
    {
        let key: String = pubkey.to_owned();
        let n = self.entries.len();
        let mut out: Vec<u64> = Vec::new();
        let mut i: usize = 0;
        while i < n
            invariant
                0 <= i <= n,
                n == self.entries.len(),
                self@.len() == n,
                sub_wf(self@),
                key@ == pubkey@,
                forall|j: int| 0 <= j < self@.len() ==> #[trigger] self@[j] == self.entries@[j]@,
                forall|x: u64| out@.contains(x) <==> has_sub(self@.take(i as int), pubkey@, x),
                out@.no_duplicates(),
            decreases n - i,
        {
            let ghost pre = self@.take(i as int);
            let ghost cur = self@.take(i + 1);
            proof {
                assert(forall|j: int| 0 <= j < i ==> #[trigger] cur[j] == pre[j]);
                assert(forall|j: int| 0 <= j < i ==> #[trigger] pre[j] == self@[j]);
                assert(cur[i as int] == self@[i as int]);
            }
            let p = &self.entries[i];
            if p.key == key {
                proof {
                    if out@.contains(p.session) {
                        assert(has_sub(pre, pubkey@, p.session));
                        let a = choose|a: int|
                            0 <= a < pre.len() && (#[trigger] pre[a]).key == pubkey@
                                && pre[a].session == p@.session;
                        assert(self@[a] == pre[a]);
                        assert(self@[a] == self@[i as int]);
                    }
                }
                let ghost out_pre = out@;
                out.push(p.session);
                proof {
                    assert forall|x: u64| out@.contains(x) implies has_sub(cur, pubkey@, x) by {
                        if x == self@[i as int].session {
                            assert(cur[i as int].key == pubkey@ && cur[i as int].session == x);
                        } else {
                            let b = choose|b: int| 0 <= b < out@.len() && out@[b] == x;
                            assert(b < out_pre.len());
                            assert(out_pre.contains(x));
                            assert(has_sub(pre, pubkey@, x));
                            let a = choose|a: int|
                                0 <= a < pre.len() && (#[trigger] pre[a]).key == pubkey@
                                    && pre[a].session == x;
                            assert(cur[a].key == pubkey@ && cur[a].session == x);
                        }
                    }
                    assert forall|x: u64| has_sub(cur, pubkey@, x) implies out@.contains(x) by {
                        let a = choose|a: int|
                            0 <= a < cur.len() && (#[trigger] cur[a]).key == pubkey@
                                && cur[a].session == x;
                        if a < i {
                            assert(pre[a].key == pubkey@ && pre[a].session == x);
                            assert(has_sub(pre, pubkey@, x));
                            assert(out_pre.contains(x));
                            let b = choose|b: int| 0 <= b < out_pre.len() && out_pre[b] == x;
                            assert(out@[b] == x);
                        } else {
                            assert(out@[out@.len() - 1] == x);
                        }
                    }
                }
            } else {
                proof {
                    assert forall|x: u64| has_sub(cur, pubkey@, x) implies out@.contains(x) by {
                        let a = choose|a: int|
                            0 <= a < cur.len() && (#[trigger] cur[a]).key == pubkey@
                                && cur[a].session == x;
                        if a < i {
                            assert(pre[a].key == pubkey@ && pre[a].session == x);
                        }
                    }
                    assert forall|x: u64| out@.contains(x) implies has_sub(cur, pubkey@, x) by {
                        assert(has_sub(pre, pubkey@, x));
                        let a = choose|a: int|
                            0 <= a < pre.len() && (#[trigger] pre[a]).key == pubkey@
                                && pre[a].session == x;
                        assert(cur[a].key == pubkey@ && cur[a].session == x);
                    }
                }
            }
            i = i + 1;
        }
        proof {
            assert(self@.take(n as int) =~= self@);
        }
        out
    }
}

} // verus!
