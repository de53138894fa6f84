use account_socket::account::{AccountUpdate, AccountUpdateMessage, AccountVariant, Source};
use account_socket::cache::AccountCache;
use account_socket::index::SubscriptionIndex;
use account_socket::registry::ConnectionRegistry;
use account_socket::store::AccountStore;

fn record(pubkey: &str, id: u64, slot: u64) -> AccountUpdate {
    AccountUpdate {
        id,
        pubkey: pubkey.to_string(),
        slot,
        account_type: AccountVariant::Pool,
        owner: "O".to_string(),
        lamports: 10,
        data_json: "{}".to_string(),
        created_at: 0,
    }
}

fn envelope(pubkey: &str, slot: u64) -> AccountUpdateMessage {
    AccountUpdateMessage {
        pubkey: pubkey.to_string(),
        account: record(pubkey, 1, slot),
        source: Source::Realtime,
    }
}

fn candidate(pubkey: &str, slot: u64) -> account_socket::account::NewAccountUpdate {
    account_socket::account::NewAccountUpdate {
        pubkey: pubkey.to_string(),
        slot,
        account_type: AccountVariant::Pool,
        owner: "O".to_string(),
        lamports: 10,
        data_json: "{}".to_string(),
    }
}

#[test]
fn store_assigns_increasing_ids() {
    let mut store = AccountStore::new();
    let a = store.insert_account_update(candidate("A", 1), 100).unwrap();
    let b = store.insert_account_update(candidate("B", 1), 101).unwrap();
    assert_eq!(a.id, 1);
    assert_eq!(b.id, 2);
    assert_eq!(a.created_at, 100);
    assert_eq!(store.len(), 2);
    assert_eq!(store.next_id(), 3);
}

#[test]
fn store_latest_picks_greatest_slot() {
    let mut store = AccountStore::new();
    store.insert_account_update(candidate("A", 5), 0).unwrap();
    store.insert_account_update(candidate("A", 9), 0).unwrap();
    store.insert_account_update(candidate("A", 7), 0).unwrap();
    store.insert_account_update(candidate("B", 50), 0).unwrap();
    let latest = store.get_latest_account_state("A").unwrap();
    assert_eq!(latest.slot, 9);
    assert_eq!(latest.id, 2);
    assert!(store.get_latest_account_state("C").is_none());
}

#[test]
fn store_latest_breaks_slot_ties_by_later_insert() {
    let mut store = AccountStore::new();
    store.insert_account_update(candidate("A", 5), 0).unwrap();
    store.insert_account_update(candidate("A", 5), 0).unwrap();
    let latest = store.get_latest_account_state("A").unwrap();
    assert_eq!(latest.id, 2);
}

#[test]
fn cache_entry_expires_after_window() {
    let mut cache = AccountCache::new();
    let rec = record("A", 1, 5);
    cache.set_account("A", &rec, 100);
    assert!(cache.exists_account("A", 100));
    assert_eq!(cache.get_account("A", 100).unwrap(), rec);
    assert_eq!(cache.get_account_ttl("A", 100), 3600);
    assert_eq!(cache.get_account_ttl("A", 3699), 1);
    assert!(cache.get_account("A", 3699).is_some());
    assert!(cache.get_account("A", 3700).is_none());
    assert!(!cache.exists_account("A", 3700));
    assert_eq!(cache.get_account_ttl("A", 3700), -2);
}

#[test]
fn cache_overwrite_restarts_window() {
    let mut cache = AccountCache::new();
    cache.set_account("A", &record("A", 1, 5), 0);
    cache.set_account("A", &record("A", 2, 6), 3000);
    let hit = cache.get_account("A", 3700).unwrap();
    assert_eq!(hit.id, 2);
    assert_eq!(cache.get_account_ttl("A", 3000), 3600);
}

#[test]
fn cache_delete_reports_liveness() {
    let mut cache = AccountCache::new();
    cache.set_account("A", &record("A", 1, 5), 0);
    assert!(cache.delete_account("A", 10));
    assert!(cache.get_account("A", 10).is_none());
    assert!(!cache.delete_account("A", 10));
    cache.set_account("B", &record("B", 2, 5), 0);
    assert!(!cache.delete_account("B", 4000));
}

#[test]
fn index_subscribe_is_idempotent() {
    let mut index = SubscriptionIndex::new();
    index.subscribe("K", 1);
    index.subscribe("K", 1);
    let subs = index.subscribers_of("K");
    assert_eq!(subs.len(), 1);
    assert_eq!(subs[0], 1);
}

#[test]
fn index_prunes_and_isolates_keys() {
    let mut index = SubscriptionIndex::new();
    index.subscribe("K1", 1);
    index.subscribe("K1", 2);
    index.subscribe("K2", 1);
    index.unsubscribe("K1", 1);
    let k1 = index.subscribers_of("K1");
    assert_eq!(k1, vec![2]);
    let k2 = index.subscribers_of("K2");
    assert_eq!(k2, vec![1]);
    index.unsubscribe("K1", 7);
    assert_eq!(index.subscribers_of("K1"), vec![2]);
}

#[test]
fn index_remove_session_sweeps_every_key() {
    let mut index = SubscriptionIndex::new();
    index.subscribe("K1", 1);
    index.subscribe("K2", 1);
    index.subscribe("K2", 2);
    index.remove_session(1);
    assert!(index.subscribers_of("K1").is_empty());
    assert_eq!(index.subscribers_of("K2"), vec![2]);
    assert!(!index.contains_pair("K1", 1));
}

#[test]
fn registry_queue_is_bounded_and_fifo() {
    let mut registry = ConnectionRegistry::new();
    registry.register(1);
    assert!(registry.has_session(1));
    let mut accepted = 0;
    for slot in 0..101u64 {
        if registry.enqueue(1, envelope("K", slot)) {
            accepted += 1;
        }
    }
    assert_eq!(accepted, 100);
    assert_eq!(registry.pending(1), 100);
    let first = registry.next_message(1).unwrap();
    assert_eq!(first.account.slot, 0);
    let second = registry.next_message(1).unwrap();
    assert_eq!(second.account.slot, 1);
    assert_eq!(registry.pending(1), 98);
}

#[test]
fn registry_enqueue_to_absent_session_is_dropped() {
    let mut registry = ConnectionRegistry::new();
    registry.register(1);
    assert!(!registry.enqueue(2, envelope("K", 1)));
    assert_eq!(registry.pending(2), 0);
    assert!(registry.next_message(2).is_none());
}

#[test]
fn registry_unregister_is_idempotent() {
    let mut registry = ConnectionRegistry::new();
    registry.register(1);
    registry.enqueue(1, envelope("K", 1));
    registry.unregister(1);
    assert!(!registry.has_session(1));
    assert_eq!(registry.pending(1), 0);
    registry.unregister(1);
    assert!(!registry.has_session(1));
}
