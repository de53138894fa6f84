use account_socket::account::{AccountUpdate, AccountVariant, Source};
use account_socket::config::{parse_bounded, ConfigError, ServiceConfig};
use account_socket::flow::{ingest_after_persist, resolve_after_cache, resolve_after_store, IngestStep, ResolveStep};

fn record(pubkey: &str) -> AccountUpdate {
    AccountUpdate {
        id: 1,
        pubkey: pubkey.to_string(),
        slot: 4,
        account_type: AccountVariant::Pool,
        owner: "O".to_string(),
        lamports: 10,
        data_json: "{}".to_string(),
        created_at: 0,
    }
}

#[test]
fn parse_bounded_accepts_plain_decimals() {
    assert_eq!(parse_bounded("8080", 65535), Some(8080));
    assert_eq!(parse_bounded("0", 65535), Some(0));
    assert_eq!(parse_bounded("+123", 65535), Some(123));
    assert_eq!(parse_bounded("0065535", 65535), Some(65535));
}

#[test]
fn parse_bounded_rejects_junk_and_overflow() {
    assert_eq!(parse_bounded("", 65535), None);
    assert_eq!(parse_bounded("+", 65535), None);
    assert_eq!(parse_bounded("-1", 65535), None);
    assert_eq!(parse_bounded("12a", 65535), None);
    assert_eq!(parse_bounded("65536", 65535), None);
    assert_eq!(parse_bounded("99999999999999999999", 65535), None);
}

#[test]
fn config_defaults_fill_in() {
    let config = ServiceConfig::build(
        Some("http://rpc".to_string()),
        None,
        None,
        None,
        Some("sqlite://db".to_string()),
        None,
    )
    .unwrap();
    assert_eq!(config.rpc_url, "http://rpc");
    assert_eq!(config.websocket.host, "127.0.0.1");
    assert_eq!(config.websocket.port, 8080);
    assert_eq!(config.redis.url, "redis://127.0.0.1:6379");
    assert_eq!(config.database.url, "sqlite://db");
    assert_eq!(config.database.max_connections, 10);
}

#[test]
fn config_explicit_values_are_kept() {
    let config = ServiceConfig::build(
        Some("http://rpc".to_string()),
        Some("0.0.0.0".to_string()),
        Some("9001".to_string()),
        Some("redis://elsewhere:6379".to_string()),
        Some("sqlite://db".to_string()),
        Some("32".to_string()),
    )
    .unwrap();
    assert_eq!(config.websocket.host, "0.0.0.0");
    assert_eq!(config.websocket.port, 9001);
    assert_eq!(config.redis.url, "redis://elsewhere:6379");
    assert_eq!(config.database.max_connections, 32);
}

#[test]
fn config_missing_rpc_url_is_rejected() {
    let err = ServiceConfig::build(None, None, None, None, Some("db".to_string()), None)
        .unwrap_err();
    assert!(matches!(err, ConfigError::MissingEnvVar("RPC_URL")));
}

#[test]
fn config_missing_database_url_is_rejected() {
    let err = ServiceConfig::build(Some("rpc".to_string()), None, None, None, None, None)
        .unwrap_err();
    assert!(matches!(err, ConfigError::MissingEnvVar("DATABASE_URL")));
}

#[test]
fn config_bad_port_is_rejected() {
    let err = ServiceConfig::build(
        Some("rpc".to_string()),
        None,
        Some("70000".to_string()),
        None,
        Some("db".to_string()),
        None,
    )
    .unwrap_err();
    assert!(matches!(err, ConfigError::InvalidPort("WEBSOCKET_PORT")));
    let err = ServiceConfig::build(
        Some("rpc".to_string()),
        None,
        Some("ws".to_string()),
        None,
        Some("db".to_string()),
        None,
    )
    .unwrap_err();
    assert!(matches!(err, ConfigError::InvalidPort("WEBSOCKET_PORT")));
}

#[test]
fn config_bad_pool_size_is_rejected() {
    let err = ServiceConfig::build(
        Some("rpc".to_string()),
        None,
        None,
        None,
        Some("db".to_string()),
        Some("ten".to_string()),
    )
    .unwrap_err();
    assert!(matches!(err, ConfigError::InvalidNumber("DATABASE_MAX_CONNECTIONS")));
}

#[test]
fn variant_tags_round_trip() {
    let variants = vec![
        AccountVariant::Pool,
        AccountVariant::Position,
        AccountVariant::Config,
        AccountVariant::ClaimFeeOperator,
        AccountVariant::TokenBadge,
        AccountVariant::Vesting,
    ];
    for v in variants {
        assert_eq!(AccountVariant::from_tag(v.tag()), Some(v));
    }
    assert_eq!(AccountVariant::Pool.tag(), "Pool");
    assert_eq!(AccountVariant::ClaimFeeOperator.tag(), "ClaimFeeOperator");
    assert_eq!(AccountVariant::from_tag("Unknown"), None);
    assert_eq!(AccountVariant::from_tag(""), None);
}

#[test]
fn source_words_match_the_wire() {
    assert_eq!(Source::Cache.as_str(), "cache");
    assert_eq!(Source::Database.as_str(), "database");
    assert_eq!(Source::Realtime.as_str(), "realtime");
}

#[test]
fn resolve_flow_follows_cache_aside() {
    assert!(matches!(resolve_after_cache(None), ResolveStep::CheckStore));
    match resolve_after_cache(Some(record("A"))) {
        ResolveStep::Finished(Some((u, Source::Cache))) => assert_eq!(u.pubkey, "A"),
        _ => panic!("cache hit must finish the read"),
    }
    let outcome = resolve_after_store(Some(record("A")));
    match outcome.answer {
        Some((u, Source::Database)) => assert_eq!(u.pubkey, "A"),
        _ => panic!("store hit must answer from the store"),
    }
    assert_eq!(outcome.write_back.unwrap().pubkey, "A");
    let outcome = resolve_after_store(None);
    assert!(outcome.answer.is_none());
    assert!(outcome.write_back.is_none());
}

#[test]
fn ingest_flow_aborts_only_on_store_failure() {
    assert!(matches!(ingest_after_persist(None), IngestStep::Aborted));
    match ingest_after_persist(Some(record("A"))) {
        IngestStep::CacheAndBroadcast(u) => assert_eq!(u.pubkey, "A"),
        IngestStep::Aborted => panic!("a durable update must go on"),
    }
}
