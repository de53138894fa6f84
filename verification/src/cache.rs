//! Fast key-value tier in front of the durable store.  Every entry is
//! written with a fixed expiry window; an expired entry is equivalent to
//! absence, never served.

use vstd::prelude::*;
use crate::account::{AccountUpdate, UpdateModel};

verus! {

/// Seconds an entry stays live after it is written.
pub const CACHE_TTL_SECONDS: i64 = 3600;

/// Mathematical value of one cache entry.
#[verifier::ext_equal]
pub ghost struct CacheEntryModel {
    pub key: Seq<char>,
    pub value: UpdateModel,
    pub expires_at: int,
}

struct CacheEntry {
    key: String,
    value: AccountUpdate,
    expires_at: i64,
}

impl View for CacheEntry {
    type V = CacheEntryModel;

    closed spec fn view(&self) -> CacheEntryModel {
        CacheEntryModel { key: self.key@, value: self.value@, expires_at: self.expires_at as int }
    }
}

/// Well-formedness: one entry per key.
pub open spec fn cache_wf(s: Seq<CacheEntryModel>) -> bool {
    forall|i: int, j: int| 0 <= i < j < s.len() ==> s[i].key != s[j].key
}

/// The position of the first entry carrying `key`, or -1.
pub open spec fn cache_idx_of(s: Seq<CacheEntryModel>, key: Seq<char>) -> int
    decreases s.len(),
{
    if s.len() == 0 {
        -1
    } else if s[0].key == key {
        0
    } else {
        let r = cache_idx_of(s.skip(1), key);
        if r == -1 {
            -1
        } else {
            r + 1
        }
    }
}

/// The entry carrying `key`, expired or not.
pub open spec fn cache_find(s: Seq<CacheEntryModel>, key: Seq<char>) -> Option<CacheEntryModel> {
    let i = cache_idx_of(s, key);
    if i == -1 {
        None
    } else {
        Some(s[i])
    }
}

/// The value stored under `key` while its entry has not expired.
pub open spec fn cache_live(s: Seq<CacheEntryModel>, key: Seq<char>, now: i64) -> Option<
    UpdateModel,
> {
    match cache_find(s, key) {
        Some(e) => if e.expires_at > now {
            Some(e.value)
        } else {
            None
        },
        None => None,
    }
}

/// The cache without any entry for `key`.
pub open spec fn cache_remove_model(s: Seq<CacheEntryModel>, key: Seq<char>) -> Seq<
    CacheEntryModel,
> {
    let i = cache_idx_of(s, key);
    if i == -1 {
        s
    } else {
        s.remove(i)
    }
}

/// The cache after `value` is written under `key` at time `now`: the old
/// entry, if any, is replaced, and the expiry window starts over.
pub open spec fn cache_set_model(
    s: Seq<CacheEntryModel>,
    key: Seq<char>,
    value: UpdateModel,
    now: i64,
) -> Seq<CacheEntryModel> {
    cache_remove_model(s, key).push(
        CacheEntryModel { key: key, value: value, expires_at: now + CACHE_TTL_SECONDS },
    )
}

/// Where the first entry of a key sits: -1 exactly when no entry carries
/// the key; otherwise a valid position holding the key, with no earlier
/// one.
pub proof fn lemma_cache_idx(s: Seq<CacheEntryModel>, key: Seq<char>)
    ensures
        cache_idx_of(s, key) == -1 <==> (forall|j: int|
            0 <= j < s.len() ==> (#[trigger] s[j]).key != key),
        cache_idx_of(s, key) != -1 ==> {
            &&& 0 <= cache_idx_of(s, key) < s.len()
            &&& s[cache_idx_of(s, key)].key == key
            &&& forall|j: int| 0 <= j < cache_idx_of(s, key) ==> (#[trigger] s[j]).key != key
        },
    decreases s.len(),
{
    if s.len() == 0 {
    } else if s[0].key == key {
        assert(s[0].key == key);
    } else {
        lemma_cache_idx(s.skip(1), key);
        let t = s.skip(1);
        assert(forall|j: int| 0 <= j < t.len() ==> #[trigger] t[j] == s[j + 1]);
        let r = cache_idx_of(t, key);
        if r == -1 {
            assert forall|j: int| 0 <= j < s.len() implies (#[trigger] s[j]).key != key by {
                if j > 0 {
                    assert(t[j - 1] == s[j]);
                }
            }
        } else {
            assert(s[r + 1] == t[r]);
            assert(s[r + 1].key == key);
            assert forall|j: int| 0 <= j < r + 1 implies (#[trigger] s[j]).key != key by {
                if j > 0 {
                    assert(t[j - 1] == s[j]);
                }
            }
        }
    }
}

/// A scan that saw no entry for the key in the first `i` positions and a
/// matching entry at `i` has found the key's position; a full scan with
/// no match shows absence.
pub proof fn lemma_cache_first_match(s: Seq<CacheEntryModel>, key: Seq<char>, i: int)
    requires
        0 <= i <= s.len(),
        forall|j: int| 0 <= j < i ==> (#[trigger] s[j]).key != key,
    ensures
        i < s.len() && s[i].key == key ==> cache_idx_of(s, key) == i,
        i == s.len() ==> cache_idx_of(s, key) == -1,
    decreases i,
{
    lemma_cache_idx(s, key);
    if i < s.len() && s[i].key == key {
        let r = cache_idx_of(s, key);
        assert(r != -1);
        if r < i {
            assert(s[r].key == key);
        }
        if r > i {
            assert(s[i].key != key);
        }
    }
}

/// What a lookup sees after a removal: nothing under the removed key,
/// and every other key unchanged.
pub proof fn lemma_cache_find_remove(s: Seq<CacheEntryModel>, key: Seq<char>, k: Seq<char>)
    requires
        cache_wf(s),
    ensures
        cache_wf(cache_remove_model(s, key)),
        cache_find(cache_remove_model(s, key), k) == if k == key {
            None::<CacheEntryModel>
        } else {
            cache_find(s, k)
        },
{
    lemma_cache_idx(s, key);
    let i = cache_idx_of(s, key);
    if i == -1 {
        if k == key {
            lemma_cache_idx(s, k);
        }
    } else {
        let r = s.remove(i);
        assert(forall|j: int| 0 <= j < i ==> #[trigger] r[j] == s[j]);
        assert(forall|j: int| i <= j < r.len() ==> #[trigger] r[j] == s[j + 1]);
        assert(cache_wf(r));
        lemma_cache_idx(s, k);
        lemma_cache_idx(r, k);
        if k == key {
            if cache_idx_of(r, k) != -1 {
                let p = cache_idx_of(r, k);
                let q = if p < i {
                    p
                } else {
                    p + 1
                };
                assert(s[q].key == k);
                assert(q != i ==> false);
            }
        } else {
            let p = cache_idx_of(s, k);
            if p == -1 {
                assert(forall|j: int| 0 <= j < r.len() ==> (#[trigger] r[j]).key != k);
                assert(cache_idx_of(r, k) == -1);
            } else {
                assert(s[p].key == k);
                assert(p != i);
                let p2 = if p < i {
                    p
                } else {
                    p - 1
                };
                assert(r[p2] == s[p]);
                assert(forall|j: int| 0 <= j < p2 ==> (#[trigger] r[j]).key != k) by {
                    assert(forall|j: int|
                        0 <= j < p2 ==> #[trigger] r[j] == (if j < i {
                            s[j]
                        } else {
                            s[j + 1]
                        }));
                }
                lemma_cache_first_match(r, k, p2);
            }
        }
    }
}

/// What a lookup sees after a write: the fresh entry under the written
/// key, and every other key unchanged.
pub proof fn lemma_cache_find_set(
    s: Seq<CacheEntryModel>,
    key: Seq<char>,
    value: UpdateModel,
    now: i64,
    k: Seq<char>,
)
    requires
        cache_wf(s),
    ensures
        cache_wf(cache_set_model(s, key, value, now)),
        cache_find(cache_set_model(s, key, value, now), k) == if k == key {
            Some(CacheEntryModel { key: key, value: value, expires_at: now + CACHE_TTL_SECONDS })
        } else {
            cache_find(s, k)
        },
{
    lemma_cache_find_remove(s, key, k);
    lemma_cache_find_remove(s, key, key);
    let r = cache_remove_model(s, key);
    let e = CacheEntryModel { key: key, value: value, expires_at: now + CACHE_TTL_SECONDS };
    let t = r.push(e);
    lemma_cache_idx(r, k);
    lemma_cache_idx(t, k);
    assert(forall|j: int| 0 <= j < r.len() ==> #[trigger] t[j] == r[j]);
    assert(t[t.len() - 1] == e);
    assert(cache_wf(t)) by {
        lemma_cache_idx(r, key);
        assert(forall|j: int| 0 <= j < r.len() ==> (#[trigger] r[j]).key != key);
    }
    if k == key {
        lemma_cache_first_match(t, k, r.len() as int);
    } else {
        let p = cache_idx_of(r, k);
        if p == -1 {
            assert(forall|j: int| 0 <= j < t.len() ==> (#[trigger] t[j]).key != k);
            assert(cache_idx_of(t, k) == -1);
        } else {
            lemma_cache_first_match(t, k, p);
        }
    }
}

/// The cache tier.
pub struct AccountCache {
    entries: Vec<CacheEntry>,
}

impl View for AccountCache {
    type V = Seq<CacheEntryModel>;

    closed spec fn view(&self) -> Seq<CacheEntryModel> {
        self.entries@.map_values(|e: CacheEntry| e@)
    }
}

impl AccountCache {
    /// An empty cache.
    pub fn new() -> (r: AccountCache)
        ensures
            r@.len() == 0,
            cache_wf(r@),
    {
        let c = AccountCache { entries: Vec::new() };
        proof {
            assert(c@ =~= Seq::<CacheEntryModel>::empty());
        }
        c
    }

    /// The position of the entry for `pubkey`, if one exists.
    fn find_index(&self, pubkey: &str) -> (r: Option<usize>)
        ensures
            r matches Some(i) ==> {
                &&& cache_idx_of(self@, pubkey@) == i
                &&& 0 <= i < self@.len()
                &&& self@[i as int].key == pubkey@
                &&& self@.len() == self.entries@.len()
                &&& self@[i as int] == self.entries@[i as int]@
            },
            r is None ==> cache_idx_of(self@, pubkey@) == -1,
    {
        let key: String = pubkey.to_owned();
        let n = self.entries.len();
        let mut i: usize = 0;
        while i < n
            invariant
                0 <= i <= n,
                n == self.entries.len(),
                self@.len() == n,
                key@ == pubkey@,
                forall|j: int| 0 <= j < self@.len() ==> #[trigger] self@[j] == self.entries@[j]@,
                forall|j: int| 0 <= j < i ==> (#[trigger] self@[j]).key != pubkey@,
            decreases n - i,
        {
            if self.entries[i].key == key {
                proof {
                    lemma_cache_first_match(self@, pubkey@, i as int);
                }
                return Some(i);
            }
            i = i + 1;
        }
        proof {
            lemma_cache_first_match(self@, pubkey@, n as int);
        }
        None
    }

    /// The value cached under `pubkey`, when its entry is still live at
    /// `now`.
    pub fn get_account(&self, pubkey: &str, now: i64) -> (r: Option<AccountUpdate>)
        ensures
            r is None <==> cache_live(self@, pubkey@, now) is None,
            r matches Some(u) ==> cache_live(self@, pubkey@, now) == Some(u@),
    {
        match self.find_index(pubkey) {
            None => None,
            Some(i) => {
                let e = &self.entries[i];
                proof {
                    assert(self@[i as int] == self.entries@[i as int]@);
                }
                if e.expires_at > now {
                    Some(e.value.duplicate())
                } else {
                    None
                }
            },
        }
    }

    /// Removes any entry for `pubkey`; nothing else changes.
    fn take_out(&mut self, pubkey: &str)
        ensures
            final(self)@ == cache_remove_model(old(self)@, pubkey@),
    {
        match self.find_index(pubkey) {
            None => {},
            Some(i) => {
                self.entries.remove(i);
                proof {
                    assert(final(self)@ =~= old(self)@.remove(i as int));
                }
            },
        }
    }

    /// Writes `account` under `pubkey` at time `now`; the entry expires
    /// `CACHE_TTL_SECONDS` later, replacing any previous entry for the
    /// key.
    pub fn set_account(&mut self, pubkey: &str, account: &AccountUpdate, now: i64)
        requires
            cache_wf(old(self)@),
            now <= i64::MAX - CACHE_TTL_SECONDS,
        ensures
            final(self)@ == cache_set_model(old(self)@, pubkey@, account@, now),
            cache_wf(final(self)@),
    {
        self.take_out(pubkey);
        let entry = CacheEntry {
            key: pubkey.to_owned(),
            value: account.duplicate(),
            expires_at: now + CACHE_TTL_SECONDS,
        };
        self.entries.push(entry);
        proof {
            assert(final(self)@ =~= cache_set_model(old(self)@, pubkey@, account@, now));
            lemma_cache_find_set(old(self)@, pubkey@, account@, now, pubkey@);
        }
    }

    /// Drops any entry for `pubkey`; reports whether a live entry was
    /// dropped.
    pub fn delete_account(&mut self, pubkey: &str, now: i64) -> (r: bool)
        ensures
            final(self)@ == cache_remove_model(old(self)@, pubkey@),
            r == (cache_live(old(self)@, pubkey@, now) is Some),
    {
        let live = self.exists_account(pubkey, now);
        self.take_out(pubkey);
        live
    }

    /// Whether a live entry for `pubkey` exists at `now`.
    pub fn exists_account(&self, pubkey: &str, now: i64) -> (r: bool)
        ensures
            r == (cache_live(self@, pubkey@, now) is Some),
    {
        match self.find_index(pubkey) {
            None => false,
            Some(i) => {
                proof {
                    assert(self@[i as int] == self.entries@[i as int]@);
                }
                self.entries[i].expires_at > now
            },
        }
    }

    /// Seconds until the entry for `pubkey` expires, or -2 when no live
    /// entry exists (the convention of the cache wire protocol for a
    /// missing key).
    pub fn get_account_ttl(&self, pubkey: &str, now: i64) -> (r: i64)
        requires
            now >= 0,
        ensures
            cache_live(self@, pubkey@, now) is Some ==> r == cache_find(
                self@,
                pubkey@,
            ).unwrap().expires_at - now,
            cache_live(self@, pubkey@, now) is None ==> r == -2,
    {
        match self.find_index(pubkey) {
            None => -2,
            Some(i) => {
                proof {
                    assert(self@[i as int] == self.entries@[i as int]@);
                }
                let e = &self.entries[i];
                if e.expires_at > now {
                    e.expires_at - now
                } else {
                    -2
                }
            },
        }
    }
}

} // verus!
