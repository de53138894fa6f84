//! Append-only durable record of updates.  Inserting assigns the next
//! identity and the persistence time; the latest state of a key is the
//! record with the greatest slot, ties going to the record inserted last.

use vstd::prelude::*;
use crate::account::{AccountUpdate, NewAccountUpdate, UpdateModel, NewUpdateModel, stored_from};

verus! {

/// Mathematical value of the store: the records in insertion order and
/// the identity the next insert will receive.
#[verifier::ext_equal]
pub ghost struct StoreModel {
    pub records: Seq<UpdateModel>,
    pub next_id: u64,
}

/// Well-formedness: identities are assigned in insertion order and stay
/// below the next one to be handed out.
pub open spec fn store_wf(m: StoreModel) -> bool {
    &&& m.next_id >= 1
    &&& forall|i: int| 0 <= i < m.records.len() ==> (#[trigger] m.records[i]).id < m.next_id
    &&& forall|i: int, j: int|
        0 <= i < j < m.records.len() ==> m.records[i].id < m.records[j].id
}

/// Whether some record of `s` carries `key`.
pub open spec fn store_has_key(s: Seq<UpdateModel>, key: Seq<char>) -> bool {
    exists|i: int| 0 <= i < s.len() && (#[trigger] s[i]).pubkey == key
}

/// The current state of `key`: among the records carrying `key`, the one
/// with the greatest slot; of two with equal slots, the one inserted
/// later.
pub open spec fn latest_spec(s: Seq<UpdateModel>, key: Seq<char>) -> Option<UpdateModel>
    decreases s.len(),
{
    if s.len() == 0 {
        None
    } else {
        let last = s.last();
        let rest = latest_spec(s.drop_last(), key);
        if last.pubkey == key {
            match rest {
                None => Some(last),
                Some(b) => if last.slot >= b.slot {
                    Some(last)
                } else {
                    Some(b)
                },
            }
        } else {
            rest
        }
    }
}

/// The latest state of a key is one of its records, carries that key, and
/// has the greatest slot among them; a key with no record has no latest
/// state.
pub proof fn lemma_latest_is_max(s: Seq<UpdateModel>, key: Seq<char>)
    ensures
        latest_spec(s, key) is None <==> !store_has_key(s, key),
        latest_spec(s, key) matches Some(b) ==> {
            &&& exists|i: int| 0 <= i < s.len() && s[i] == b
            &&& b.pubkey == key
            &&& forall|i: int|
                0 <= i < s.len() && (#[trigger] s[i]).pubkey == key ==> s[i].slot <= b.slot
        },
    decreases s.len(),
{
    if s.len() > 0 {
        lemma_latest_is_max(s.drop_last(), key);
        assert(forall|i: int|
            0 <= i < s.len() - 1 ==> #[trigger] s[i] == s.drop_last()[i]);
        if latest_spec(s, key) is Some {
            let b = latest_spec(s, key).unwrap();
            if s.last().pubkey == key && b == s.last() {
                assert(s[s.len() - 1] == b);
            }
        }
        if !store_has_key(s, key) {
            assert(!store_has_key(s.drop_last(), key));
        } else {
            let i = choose|i: int| 0 <= i < s.len() && (#[trigger] s[i]).pubkey == key;
            if i < s.len() - 1 {
                assert(store_has_key(s.drop_last(), key));
            }
        }
    }
}

/// Appending a record whose slot is no less than that of every existing
/// record of its key makes it the latest state of that key.
pub proof fn lemma_latest_push_newest(s: Seq<UpdateModel>, key: Seq<char>, r: UpdateModel)
    requires
        r.pubkey == key,
        forall|i: int|
            0 <= i < s.len() && (#[trigger] s[i]).pubkey == key ==> s[i].slot <= r.slot,
    ensures
        latest_spec(s.push(r), key) == Some(r),
{
    assert(s.push(r).drop_last() =~= s);
    assert(s.push(r).last() == r);
    lemma_latest_is_max(s, key);
}

/// Appending a record of another key leaves a key's latest state as it
/// was.
pub proof fn lemma_latest_push_other(s: Seq<UpdateModel>, key: Seq<char>, r: UpdateModel)
    requires
        r.pubkey != key,
    ensures
        latest_spec(s.push(r), key) == latest_spec(s, key),
{
    assert(s.push(r).drop_last() =~= s);
}

/// The durable store.
pub struct AccountStore {
    records: Vec<AccountUpdate>,
    next_id: u64,
}

impl View for AccountStore {
    type V = StoreModel;

    closed spec fn view(&self) -> StoreModel {
        StoreModel {
            records: self.records@.map_values(|r: AccountUpdate| r@),
            next_id: self.next_id,
        }
    }
}

impl AccountStore {
    /// An empty store; the first record inserted receives identity 1.
    pub fn new() -> (r: AccountStore)
        ensures
            r@.records.len() == 0,
            r@.next_id == 1,
            store_wf(r@),
    {
        let s = AccountStore { records: Vec::new(), next_id: 1 };
        proof {
            assert(s@.records =~= Seq::<UpdateModel>::empty());
        }
        s
    }

    /// Persists a candidate update: assigns the next identity and the
    /// given persistence time, and appends the record.  Fails only when
    /// the identity space is exhausted, and then changes nothing.
    pub fn insert_account_update(&mut self, update: NewAccountUpdate, created_at: i64) -> (r:
        Option<AccountUpdate>)
        requires
            store_wf(old(self)@),
        ensures
            store_wf(final(self)@),
            old(self)@.next_id < u64::MAX ==> {
                &&& r matches Some(u) && u@ == stored_from(update@, old(self)@.next_id, created_at)
                &&& final(self)@.records == old(self)@.records.push(
                    stored_from(update@, old(self)@.next_id, created_at),
                )
                &&& final(self)@.next_id == old(self)@.next_id + 1
            },
            old(self)@.next_id == u64::MAX ==> r is None && final(self)@ == old(self)@,
    {
        if self.next_id == u64::MAX {
            return None;
        }
        let rec = AccountUpdate {
            id: self.next_id,
            pubkey: update.pubkey,
            slot: update.slot,
            account_type: update.account_type,
            owner: update.owner,
            lamports: update.lamports,
            data_json: update.data_json,
            created_at: created_at,
        };
        let out = rec.duplicate();
        self.records.push(rec);
        self.next_id = self.next_id + 1;
        proof {
            assert(self@.records =~= old(self)@.records.push(
                stored_from(update@, old(self)@.next_id, created_at),
            ));
        }
        Some(out)
    }

    /// The latest state of a key, or nothing when no record carries it.
    pub fn get_latest_account_state(&self, pubkey: &str) -> (r: Option<AccountUpdate>)
        ensures
            r is None <==> latest_spec(self@.records, pubkey@) is None,
            r matches Some(u) ==> latest_spec(self@.records, pubkey@) == Some(u@),
    {
        let key: String = pubkey.to_owned();
        let mut best: Option<AccountUpdate> = None;
        let ghost recs = self@.records;
        let mut i: usize = 0;
        proof {
            assert(recs.take(0) =~= Seq::<UpdateModel>::empty());
        }
        while i < self.records.len()
            invariant
                0 <= i <= self.records.len(),
                recs == self@.records,
                recs.len() == self.records.len(),
                forall|j: int| 0 <= j < recs.len() ==> recs[j] == self.records@[j]@,
                key@ == pubkey@,
                best is None <==> latest_spec(recs.take(i as int), pubkey@) is None,
                best matches Some(u) ==> latest_spec(recs.take(i as int), pubkey@) == Some(u@),
            decreases self.records.len() - i,
        {
            let r = &self.records[i];
            proof {
                assert(recs.take(i + 1).drop_last() =~= recs.take(i as int));
                assert(recs.take(i + 1).last() == recs[i as int]);
            }
            if r.pubkey == key {
                let replace = match &best {
                    None => true,
                    Some(b) => r.slot >= b.slot,
                };
                if replace {
                    best = Some(r.duplicate());
                }
            }
            i = i + 1;
        }
        proof {
            assert(recs.take(recs.len() as int) =~= recs);
        }
        best
    }

    /// How many records the store holds.
    pub fn len(&self) -> (r: usize)
        ensures
            r == self@.records.len(),
    {
        self.records.len()
    }

    /// The identity the next successful insert will receive.
    pub fn next_id(&self) -> (r: u64)
        ensures
            r == self@.next_id,
    {
        self.next_id
    }
}

} // verus!
