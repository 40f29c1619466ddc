//! Node configuration: its defaults, its checks, and the addresses it names.

use vstd::prelude::*;
use crate::codec::{ascii_lower, to_ascii_lower};
use crate::text::{concat, owned, push_char, str_eq};

verus! {

#[derive(Debug, Clone)]
pub struct ServerConfig {
    pub host: String,
    pub p2p_port: u16,
    pub discovery_port: u16,
    pub shutdown_timeout_seconds: u64,
}

#[derive(Debug, Clone)]
pub struct DatabaseConfig {
    pub path: String,
    pub connection_pool_size: u32,
    pub backup_interval_hours: Option<u64>,
}

#[derive(Debug, Clone)]
pub struct NetworkingConfig {
    pub max_peers: usize,
    pub heartbeat_interval_seconds: u64,
    pub connection_timeout_seconds: u64,
    pub discovery_interval_seconds: u64,
    pub seed_peers: Vec<String>,
}

#[derive(Debug, Clone)]
pub struct PlcConfig {
    pub directory_url: String,
    pub enable_network_calls: bool,
    pub cache_ttl_hours: u64,
    pub handle: Option<String>,
}

#[derive(Debug, Clone)]
pub struct LoggingConfig {
    pub level: String,
    pub format: String,
    pub log_to_file: bool,
    pub file_path: Option<String>,
    pub max_file_size_mb: u64,
}

/// Everything a node is configured with.
#[derive(Debug, Clone)]
pub struct OcmConfig {
    pub server: ServerConfig,
    pub database: DatabaseConfig,
    pub networking: NetworkingConfig,
    pub plc: PlcConfig,
    pub logging: LoggingConfig,
}

/// Why a configuration was rejected.
#[derive(Debug, Clone, Copy, PartialEq, Eq, Structural)]
pub enum ConfigError {
    SamePorts,
    DatabaseDirectoryMissing,
    InvalidLogLevel,
    InvalidDirectoryUrl,
}

/// Whether `url` parses as a URL.
pub uninterp spec fn url_parses(s: Seq<char>) -> bool;

/// Relies on url::Url::parse.
#[verifier::external_body]
fn parse_url(s: &str) -> (r: bool)
    ensures
        r == url_parses(s@),
{
    url::Url::parse(s).is_ok()
}

/// The log levels a node accepts, in lowercase.
pub open spec fn known_level(l: Seq<char>) -> bool {
    l == "trace"@ || l == "debug"@ || l == "info"@ || l == "warn"@ || l == "error"@
}

/// The decimal digits of `n`.
pub open spec fn decimal(n: nat) -> Seq<char>
    decreases n,
{
    if n < 10 {
        seq![(48 + n) as char]
    } else {
        decimal(n / 10).push((48 + n % 10) as char)
    }
}

/// The decimal text of `n`.
pub fn decimal_text(n: u16) -> (r: String)
    ensures
        r@ == decimal(n as nat),
    decreases n,
{
    if n < 10 {
        let mut r = String::new();
        push_char(&mut r, ((48 + n) as u8) as char);
        r
    } else {
        let mut r = decimal_text(n / 10);
        push_char(&mut r, ((48 + n % 10) as u8) as char);
        r
    }
}

impl Default for OcmConfig {
    /// Local host, ports 8080 and 8081, at most 50 peers, 30-second
    /// heartbeats, 60-second discovery, network calls to the directory off,
    /// `info` logging.
    fn default() -> (r: OcmConfig)
        ensures
            r.server.host@ == "127.0.0.1"@,
            r.server.p2p_port == 8080,
            r.server.discovery_port == 8081,
            r.networking.max_peers == 50,
            r.networking.heartbeat_interval_seconds == 30,
            r.networking.discovery_interval_seconds == 60,
            !r.plc.enable_network_calls,
            r.logging.level@ == "info"@,
    {
        OcmConfig {
            server: ServerConfig {
                host: owned("127.0.0.1"),
                p2p_port: 8080,
                discovery_port: 8081,
                shutdown_timeout_seconds: 30,
            },
            database: DatabaseConfig {
                path: owned("data/ocm-impl.db"),
                connection_pool_size: 10,
                backup_interval_hours: Some(24),
            },
            networking: NetworkingConfig {
                max_peers: 50,
                heartbeat_interval_seconds: 30,
                connection_timeout_seconds: 10,
                discovery_interval_seconds: 60,
                seed_peers: Vec::new(),
            },
            plc: PlcConfig {
                directory_url: owned("https://plc.directory"),
                enable_network_calls: false,
                cache_ttl_hours: 24,
                handle: None,
            },
            logging: LoggingConfig {
                level: owned("info"),
                format: owned("pretty"),
                log_to_file: false,
                file_path: None,
                max_file_size_mb: 100,
            },
        }
    }
}

impl OcmConfig {
    /// Checks the configuration, given whether the database's directory
    /// exists: the two ports must differ, the directory must exist, the log
    /// level must be known (ASCII case aside), and with network calls on the
    /// directory URL must parse. The first failing check is reported.
    pub fn validate(&self, database_dir_exists: bool) -> (r: Result<(), ConfigError>)
        ensures
            r == if self.server.p2p_port == self.server.discovery_port {
                Err(ConfigError::SamePorts)
            } else if !database_dir_exists {
                Err(ConfigError::DatabaseDirectoryMissing)
            } else if !known_level(ascii_lower(self.logging.level@)) {
                Err(ConfigError::InvalidLogLevel)
            } else if self.plc.enable_network_calls && !url_parses(self.plc.directory_url@) {
                Err(ConfigError::InvalidDirectoryUrl)
            } else {
                Ok::<(), ConfigError>(())
            },
    {
        if self.server.p2p_port == self.server.discovery_port {
            return Err(ConfigError::SamePorts);
        }
        if !database_dir_exists {
            return Err(ConfigError::DatabaseDirectoryMissing);
        }
        let level = to_ascii_lower(self.logging.level.as_str());
        let l = level.as_str();
        if !(str_eq(l, "trace") || str_eq(l, "debug") || str_eq(l, "info") || str_eq(l, "warn")
            || str_eq(l, "error")) {
            return Err(ConfigError::InvalidLogLevel);
        }
        if self.plc.enable_network_calls && !parse_url(self.plc.directory_url.as_str()) {
            return Err(ConfigError::InvalidDirectoryUrl);
        }
        Ok(())
    }

    /// `host:p2p_port`.
    pub fn server_address(&self) -> (r: String)
        ensures
            r@ == self.server.host@ + ":"@ + decimal(self.server.p2p_port as nat),
    {
        let mut r = concat(self.server.host.as_str(), ":");
        r.append(decimal_text(self.server.p2p_port).as_str());
        r
    }

    /// `host:discovery_port`.
    pub fn discovery_address(&self) -> (r: String)
        ensures
            r@ == self.server.host@ + ":"@ + decimal(self.server.discovery_port as nat),
    {
        let mut r = concat(self.server.host.as_str(), ":");
        r.append(decimal_text(self.server.discovery_port).as_str());
        r
    }
}

} // verus!
