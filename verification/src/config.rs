//! Service configuration: the endpoints and pool sizes the process is
//! started with.  Values arrive as optional strings (present or absent in
//! the environment); building the configuration validates them and fills
//! the documented defaults in.

use vstd::prelude::*;
use vstd::string::StrSliceExecFns;

verus! {

/// Everything the service needs to start.
#[derive(Debug)]
pub struct ServiceConfig {
    pub rpc_url: String,
    pub websocket: WebSocketConfig,
    pub redis: RedisConfig,
    pub database: DatabaseConfig,
}

/// Listen address of the streaming endpoint.
#[derive(Debug)]
pub struct WebSocketConfig {
    pub host: String,
    pub port: u16,
}

/// Connection URL of the cache.
#[derive(Debug)]
pub struct RedisConfig {
    pub url: String,
}

/// Connection URL and pool size of the durable store.
#[derive(Debug)]
pub struct DatabaseConfig {
    pub url: String,
    pub max_connections: u32,
}

/// A configuration value that was absent or malformed; the payload names
/// the offending setting.
#[derive(Debug)]
pub enum ConfigError {
    MissingEnvVar(&'static str),
    InvalidPort(&'static str),
    InvalidNumber(&'static str),
}

/// Whether a character is a decimal digit (ASCII 48 through 57).
pub open spec fn is_dec_digit(c: char) -> bool {
    48 <= c as u32 && c as u32 <= 57
}

/// The numeric value of a decimal digit.
pub open spec fn digit_val(c: char) -> int {
    c as u32 - 48
}

/// Whether every character of `s` is a decimal digit.
pub open spec fn all_digits(s: Seq<char>) -> bool {
    forall|i: int| 0 <= i < s.len() ==> is_dec_digit(#[trigger] s[i])
}

/// The number a digit string denotes, most significant digit first.
pub open spec fn dec_value(s: Seq<char>) -> int
    decreases s.len(),
{
    if s.len() == 0 {
        0
    } else {
        dec_value(s.drop_last()) * 10 + digit_val(s.last())
    }
}

/// A number with an optional leading plus sign stripped.
pub open spec fn strip_plus(s: Seq<char>) -> Seq<char> {
    if s.len() > 0 && s[0] == '+' {
        s.drop_first()
    } else {
        s
    }
}

/// The value an unsigned decimal string parses to, when it is non-empty,
/// all digits after an optional leading plus, and no greater than `max`.
pub open spec fn parse_bounded_view(s: Seq<char>, max: u64) -> Option<u64> {
    let t = strip_plus(s);
    if t.len() > 0 && all_digits(t) && dec_value(t) <= max {
        Some(dec_value(t) as u64)
    } else {
        None
    }
}

proof fn lemma_dec_value_nonneg(s: Seq<char>)
    requires
        all_digits(s),
    ensures
        dec_value(s) >= 0,
    decreases s.len(),
{
    if s.len() > 0 {
        lemma_dec_value_nonneg(s.drop_last());
    }
}

proof fn lemma_dec_prefix_le(s: Seq<char>, j: int)
    requires
        all_digits(s),
        0 <= j <= s.len(),
    ensures
        dec_value(s.take(j)) <= dec_value(s),
    decreases s.len() - j,
{
    if j == s.len() {
        assert(s.take(j) =~= s);
    } else {
        lemma_dec_prefix_le(s, j + 1);
        assert(s.take(j + 1).drop_last() =~= s.take(j));
        assert(all_digits(s.take(j))) by {
            assert(forall|i: int|
                0 <= i < j ==> #[trigger] s.take(j)[i] == s[i] && is_dec_digit(s[i]));
        }
        lemma_dec_value_nonneg(s.take(j));
        assert(dec_value(s.take(j + 1)) == dec_value(s.take(j)) * 10 + digit_val(s.take(j + 1).last()));
        assert(digit_val(s.take(j + 1).last()) >= 0);
    }
}

/// Parses an unsigned decimal string of value at most `max`: an optional
/// leading plus, then one or more digits.  Anything else, or a value over
/// `max`, is rejected.
pub fn parse_bounded(s: &str, max: u64) -> (r: Option<u64>)
    requires
        max <= u32::MAX as u64,
    ensures
        r == parse_bounded_view(s@, max),
{
    let n = s.unicode_len();
    let ghost t: Seq<char> = strip_plus(s@);
    let mut start: usize = 0;
    if n > 0 && s.get_char(0) == '+' {
        start = 1;
    }
    proof {
        assert(t =~= s@.skip(start as int));
    }
    if n == start {
        return None;
    }
    let mut acc: u64 = 0;
    let mut i: usize = start;
    while i < n
        invariant
            start <= i <= n,
            n == s@.len(),
            start <= 1,
            n > start,
            t == strip_plus(s@),
            t == s@.skip(start as int),
            t.len() == n - start,
            max <= u32::MAX as u64,
            forall|k: int| 0 <= k < i - start ==> is_dec_digit(#[trigger] t[k]),
            acc == dec_value(t.take(i - start)),
            acc <= max,
        decreases n - i,
    {
        let c = s.get_char(i);
        let cu = c as u32;
        if cu < 48 || cu > 57 {
            proof {
                assert(t[i - start] == s@[i as int]);
                assert(!is_dec_digit(t[i - start]));
            }
            return None;
        }
        let d = (cu - 48) as u64;
        let ghost k: int = i - start;
        proof {
            assert(t[k] == s@[i as int]);
            assert(t.take(k + 1).drop_last() =~= t.take(k));
            assert(t.take(k + 1).last() == t[k]);
        }
        let next = acc * 10 + d;
        if next > max {
            proof {
                assert(dec_value(t.take(k + 1)) == next);
                if all_digits(t) {
                    lemma_dec_prefix_le(t, k + 1);
                }
            }
            return None;
        }
        acc = next;
        i = i + 1;
    }
    proof {
        assert(t.take(n - start) =~= t);
    }
    Some(acc)
}

/// Mathematical value of a service configuration.
#[verifier::ext_equal]
pub ghost struct ConfigModel {
    pub rpc_url: Seq<char>,
    pub websocket_host: Seq<char>,
    pub websocket_port: u16,
    pub redis_url: Seq<char>,
    pub database_url: Seq<char>,
    pub database_max_connections: u32,
}

impl View for ServiceConfig {
    type V = ConfigModel;

    open spec fn view(&self) -> ConfigModel {
        ConfigModel {
            rpc_url: self.rpc_url@,
            websocket_host: self.websocket.host@,
            websocket_port: self.websocket.port,
            redis_url: self.redis.url@,
            database_url: self.database.url@,
            database_max_connections: self.database.max_connections,
        }
    }
}

impl ServiceConfig {
    /// Builds a configuration from optional raw settings, as read from the
    /// process environment.  The RPC and database URLs are required; the
    /// listen host and port default to 127.0.0.1:8080, the cache URL to a
    /// local instance, and the pool size to 10.  A port or pool size that
    /// is present but not a number in range is rejected.
    pub fn build(
        rpc_url: Option<String>,
        websocket_host: Option<String>,
        websocket_port: Option<String>,
        redis_url: Option<String>,
        database_url: Option<String>,
        database_max_connections: Option<String>,
    ) -> (r: Result<ServiceConfig, ConfigError>)
        ensures
            r is Ok <==> {
                &&& rpc_url is Some
                &&& database_url is Some
                &&& (websocket_port is Some ==> parse_bounded_view(
                    websocket_port.unwrap()@,
                    u16::MAX as u64,
                ) is Some)
                &&& (database_max_connections is Some ==> parse_bounded_view(
                    database_max_connections.unwrap()@,
                    u32::MAX as u64,
                ) is Some)
            },
            r matches Ok(c) ==> {
                &&& c@.rpc_url == rpc_url.unwrap()@
                &&& c@.websocket_host == if websocket_host is Some {
                    websocket_host.unwrap()@
                } else {
                    "127.0.0.1"@
                }
                &&& c@.websocket_port == if websocket_port is Some {
                    parse_bounded_view(websocket_port.unwrap()@, u16::MAX as u64).unwrap() as u16
                } else {
                    8080u16
                }
                &&& c@.redis_url == if redis_url is Some {
                    redis_url.unwrap()@
                } else {
                    "redis://127.0.0.1:6379"@
                }
                &&& c@.database_url == database_url.unwrap()@
                &&& c@.database_max_connections == if database_max_connections is Some {
                    parse_bounded_view(
                        database_max_connections.unwrap()@,
                        u32::MAX as u64,
                    ).unwrap() as u32
                } else {
                    10u32
                }
            },
            rpc_url is None ==> (r matches Err(e) && e matches ConfigError::MissingEnvVar(v)
                && v@ == "RPC_URL"@),
            (rpc_url is Some && (websocket_port matches Some(p) && parse_bounded_view(
                p@,
                u16::MAX as u64,
            ) is None)) ==> (r matches Err(e) && e matches ConfigError::InvalidPort(v) && v@
                == "WEBSOCKET_PORT"@),
            rpc_url is Some && (websocket_port is Some ==> parse_bounded_view(
                websocket_port.unwrap()@,
                u16::MAX as u64,
            ) is Some) && database_url is None ==> (r matches Err(e) && e matches
                ConfigError::MissingEnvVar(v) && v@ == "DATABASE_URL"@),
            (rpc_url is Some && (websocket_port is Some ==> parse_bounded_view(
                websocket_port.unwrap()@,
                u16::MAX as u64,
            ) is Some) && database_url is Some && (database_max_connections matches Some(m)
                && parse_bounded_view(m@, u32::MAX as u64) is None)) ==> (r matches Err(e)
                && e matches ConfigError::InvalidNumber(v) && v@
                == "DATABASE_MAX_CONNECTIONS"@),
    {
        let rpc = match rpc_url {
            Some(u) => u,
            None => {
                return Err(ConfigError::MissingEnvVar("RPC_URL"));
            },
        };
        let host = match websocket_host {
            Some(h) => h,
            None => "127.0.0.1".to_owned(),
        };
        let port: u16 = match websocket_port {
            Some(p) => {
                match parse_bounded(p.as_str(), 65535) {
                    Some(v) => v as u16,
                    None => {
                        return Err(ConfigError::InvalidPort("WEBSOCKET_PORT"));
                    },
                }
            },
            None => 8080,
        };
        let redis = match redis_url {
            Some(u) => u,
            None => "redis://127.0.0.1:6379".to_owned(),
        };
        let db_url = match database_url {
            Some(u) => u,
            None => {
                return Err(ConfigError::MissingEnvVar("DATABASE_URL"));
            },
        };
        let max_conn: u32 = match database_max_connections {
            Some(m) => {
                match parse_bounded(m.as_str(), 4294967295) {
                    Some(v) => v as u32,
                    None => {
                        return Err(ConfigError::InvalidNumber("DATABASE_MAX_CONNECTIONS"));
                    },
                }
            },
            None => 10,
        };
        Ok(ServiceConfig {
            rpc_url: rpc,
            websocket: WebSocketConfig { host, port },
            redis: RedisConfig { url: redis },
            database: DatabaseConfig { url: db_url, max_connections: max_conn },
        })
    }
}

} // verus!
