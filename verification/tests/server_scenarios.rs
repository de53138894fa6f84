use account_socket::account::{AccountVariant, NewAccountUpdate, Source};
use account_socket::server::WebSocketServer;

fn new_update(pubkey: &str, slot: u64, variant: AccountVariant, lamports: u64) -> NewAccountUpdate {
    NewAccountUpdate {
        pubkey: pubkey.to_string(),
        slot,
        account_type: variant,
        owner: "O".to_string(),
        lamports,
        data_json: "{}".to_string(),
    }
}

fn subscribe(server: &mut WebSocketServer, client: u64, pubkey: &str) {
    server.handle_subscription(
        client,
        account_socket::account::SubscriptionRequest {
            action: "subscribe".to_string(),
            pubkey: pubkey.to_string(),
        },
    );
}

fn unsubscribe(server: &mut WebSocketServer, client: u64, pubkey: &str) {
    server.handle_subscription(
        client,
        account_socket::account::SubscriptionRequest {
            action: "unsubscribe".to_string(),
            pubkey: pubkey.to_string(),
        },
    );
}

#[test]
fn resolve_of_unknown_key_is_absent() {
    let mut server = WebSocketServer::new();
    assert!(server.get_account_data("nobody").is_none());
    assert!(server.get_account_data("nobody").is_none());
}

#[test]
fn ingest_then_resolve_prefers_cache_until_expiry() {
    let mut server = WebSocketServer::new();
    server.advance_clock(1_000);
    let stored = server.ingest(new_update("K", 7, AccountVariant::Pool, 42)).unwrap();
    assert_eq!(stored.id, 1);
    assert_eq!(stored.slot, 7);
    assert_eq!(stored.created_at, 1_000);

    let (hit, source) = server.get_account_data("K").unwrap();
    assert_eq!(hit, stored);
    assert!(matches!(source, Source::Cache));

    server.advance_clock(1_000 + 3_599);
    let (hit, source) = server.get_account_data("K").unwrap();
    assert_eq!(hit, stored);
    assert!(matches!(source, Source::Cache));

    server.advance_clock(1_000 + 3_600);
    let (hit, source) = server.get_account_data("K").unwrap();
    assert_eq!(hit, stored);
    assert!(matches!(source, Source::Database));

    let (hit, source) = server.get_account_data("K").unwrap();
    assert_eq!(hit, stored);
    assert!(matches!(source, Source::Cache));
}

#[test]
fn second_slot_wins() {
    let mut server = WebSocketServer::new();
    let first = server.ingest(new_update("P1", 10, AccountVariant::Pool, 500)).unwrap();
    assert_eq!(first.slot, 10);
    let (hit, source) = server.get_account_data("P1").unwrap();
    assert_eq!(hit.slot, 10);
    assert!(matches!(source, Source::Cache));

    let second = server.ingest(new_update("P1", 11, AccountVariant::Pool, 600)).unwrap();
    assert_eq!(second.id, 2);
    let (hit, _) = server.get_account_data("P1").unwrap();
    assert_eq!(hit.slot, 11);
    assert_eq!(hit, second);

    server.advance_clock(3_600);
    let (hit, source) = server.get_account_data("P1").unwrap();
    assert_eq!(hit.slot, 11);
    assert!(matches!(source, Source::Database));
}

#[test]
fn subscribe_without_state_then_one_realtime_envelope() {
    let mut server = WebSocketServer::new();
    let a = server.connect_client().unwrap();
    assert_eq!(a, 1);
    subscribe(&mut server, a, "P2");
    assert_eq!(server.pending_for(a), 0);

    let stored = server.ingest(new_update("P2", 5, AccountVariant::Position, 9)).unwrap();
    assert_eq!(server.pending_for(a), 1);
    let env = server.next_outbound(a).unwrap();
    assert_eq!(env.pubkey, "P2");
    assert!(matches!(env.source, Source::Realtime));
    assert_eq!(env.account, stored);
    assert!(server.next_outbound(a).is_none());
}

#[test]
fn two_subscribers_each_get_one_identical_envelope() {
    let mut server = WebSocketServer::new();
    let a = server.connect_client().unwrap();
    let b = server.connect_client().unwrap();
    assert_eq!(a, 1);
    assert_eq!(b, 2);
    subscribe(&mut server, a, "P3");
    subscribe(&mut server, b, "P3");

    server.ingest(new_update("P3", 3, AccountVariant::Config, 1)).unwrap();
    assert_eq!(server.pending_for(a), 1);
    assert_eq!(server.pending_for(b), 1);
    let env_a = server.next_outbound(a).unwrap();
    let env_b = server.next_outbound(b).unwrap();
    assert_eq!(env_a.account, env_b.account);
    assert!(matches!(env_a.source, Source::Realtime));
    assert!(matches!(env_b.source, Source::Realtime));
    assert!(server.next_outbound(a).is_none());
    assert!(server.next_outbound(b).is_none());
}

#[test]
fn unsubscribe_stops_delivery() {
    let mut server = WebSocketServer::new();
    let a = server.connect_client().unwrap();
    subscribe(&mut server, a, "K");
    unsubscribe(&mut server, a, "K");
    assert!(!server.is_subscribed("K", a));

    server.ingest(new_update("K", 1, AccountVariant::Vesting, 2)).unwrap();
    assert_eq!(server.pending_for(a), 0);
    assert!(server.next_outbound(a).is_none());
}

#[test]
fn disconnect_cleans_registry_and_index() {
    let mut server = WebSocketServer::new();
    let a = server.connect_client().unwrap();
    subscribe(&mut server, a, "K1");
    subscribe(&mut server, a, "K2");
    assert!(server.has_client(a));
    assert!(server.is_subscribed("K1", a));

    server.cleanup_client(a);
    assert!(!server.has_client(a));
    assert!(!server.is_subscribed("K1", a));
    assert!(!server.is_subscribed("K2", a));

    server.cleanup_client(a);
    assert!(!server.has_client(a));

    server.ingest(new_update("K1", 1, AccountVariant::TokenBadge, 3)).unwrap();
    assert_eq!(server.pending_for(a), 0);
    assert!(server.next_outbound(a).is_none());
}

#[test]
fn subscribe_twice_keeps_one_membership() {
    let mut server = WebSocketServer::new();
    let a = server.connect_client().unwrap();
    subscribe(&mut server, a, "K");
    subscribe(&mut server, a, "K");
    assert!(server.is_subscribed("K", a));

    server.ingest(new_update("K", 1, AccountVariant::ClaimFeeOperator, 4)).unwrap();
    assert_eq!(server.pending_for(a), 1);
}

#[test]
fn subscribe_with_existing_state_sends_snapshot() {
    let mut server = WebSocketServer::new();
    let stored = server.ingest(new_update("K", 9, AccountVariant::Pool, 5)).unwrap();
    let a = server.connect_client().unwrap();
    subscribe(&mut server, a, "K");
    let env = server.next_outbound(a).unwrap();
    assert_eq!(env.account, stored);
    assert!(matches!(env.source, Source::Cache));

    subscribe(&mut server, a, "K");
    let env2 = server.next_outbound(a).unwrap();
    assert_eq!(env2.account, stored);
}

#[test]
fn unknown_action_is_ignored() {
    let mut server = WebSocketServer::new();
    let a = server.connect_client().unwrap();
    server.handle_subscription(
        a,
        account_socket::account::SubscriptionRequest {
            action: "ping".to_string(),
            pubkey: "K".to_string(),
        },
    );
    assert!(!server.is_subscribed("K", a));
    assert_eq!(server.pending_for(a), 0);
}

#[test]
fn per_session_order_is_fifo() {
    let mut server = WebSocketServer::new();
    let a = server.connect_client().unwrap();
    subscribe(&mut server, a, "K");
    server.ingest(new_update("K", 1, AccountVariant::Pool, 1)).unwrap();
    server.ingest(new_update("K", 2, AccountVariant::Pool, 2)).unwrap();
    let first = server.next_outbound(a).unwrap();
    let second = server.next_outbound(a).unwrap();
    assert_eq!(first.account.slot, 1);
    assert_eq!(second.account.slot, 2);
}

#[test]
fn sync_clock_moves_forward_only() {
    let mut server = WebSocketServer::new();
    server.sync_clock();
    let t1 = server.current_time();
    assert!(t1 >= 0);
    server.sync_clock();
    assert!(server.current_time() >= t1);
    server.ingest(new_update("K", 1, AccountVariant::Pool, 1)).unwrap();
    let (hit, _) = server.get_account_data("K").unwrap();
    assert_eq!(hit.created_at, server.current_time());
}

#[test]
fn slow_consumer_overflow_is_dropped_and_ingestion_continues() {
    let mut server = WebSocketServer::new();
    let a = server.connect_client().unwrap();
    subscribe(&mut server, a, "K");
    for slot in 1..=105u64 {
        server.ingest(new_update("K", slot, AccountVariant::Pool, slot)).unwrap();
    }
    assert_eq!(server.pending_for(a), 100);
    let first = server.next_outbound(a).unwrap();
    assert_eq!(first.account.slot, 1);
    let (hit, _) = server.get_account_data("K").unwrap();
    assert_eq!(hit.slot, 105);
}
