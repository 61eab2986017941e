//! The server's configuration: its defaults, what is valid, and what takes precedence.
//!
//! Defaults are overridden by the configuration file, the file by the environment, and these by the
//! command line. Reading the file and the environment is the program's business.

use crate::text;
use vstd::prelude::*;
use vstd::string::*;

verus! {

/// The longest interval between two syncs of the store. A longer one would make the promise to lose
/// little in a crash meaningless.
pub const SYNC_INTERVAL_MS_MAX: u64 = 5_000;

/// The longest time that a shutdown waits for requests under way.
pub const SHUTDOWN_GRACE_SECS_MAX: u64 = 600;

/// The shortest default ack deadline.
pub const ACK_DEADLINE_SECS_MIN: u32 = 10;

/// The longest default ack deadline.
pub const ACK_DEADLINE_SECS_MAX: u32 = 600;

/// Where the configuration file is looked for when nobody says where it is.
pub const DEFAULT_CONFIG_PATH: &'static str = "/etc/open-pubusb/config.toml";

/// The configuration.
#[derive(Debug, Clone)]
pub struct Config {
    /// `[server]`
    pub server: ServerConfig,
    /// `[storage]`
    pub storage: StorageConfig,
    /// `[delivery]`
    pub delivery: DeliveryConfig,
    /// `[log]`
    pub log: LogConfig,
    /// `[metrics]`
    pub metrics: MetricsConfig,
}

/// `[server]`
#[derive(Debug, Clone)]
pub struct ServerConfig {
    /// Address of the gRPC and REST endpoints.
    pub listen: String,
    /// Address of the health and metrics endpoints.
    pub admin_listen: String,
    /// The largest message that is taken.
    pub max_message_size_bytes: u64,
    /// How long a shutdown waits for requests under way.
    pub shutdown_grace_secs: u64,
    /// Whether gRPC reflection is offered.
    pub enable_reflection: bool,
}

/// `[storage]`
#[derive(Debug, Clone)]
pub struct StorageConfig {
    /// Where data is kept.
    pub data_dir: String,
    /// Whether data is kept in memory only.
    pub ephemeral: bool,
    /// The interval between two syncs of the store.
    pub sync_interval_ms: u64,
    /// The size of the block cache.
    pub cache_size_bytes: u64,
    /// Publishing fails once the store takes this many bytes; 0 is no limit.
    pub max_disk_bytes: u64,
}

/// `[delivery]`
#[derive(Debug, Clone)]
pub struct DeliveryConfig {
    /// How long a pull waits for messages.
    pub pull_max_wait_secs: u64,
    /// How long a stream may stay open.
    pub streaming_pull_max_lifetime_secs: u64,
    /// How long a push endpoint may take to answer.
    pub push_timeout_secs: u64,
    /// How many messages may be out to a push endpoint at once.
    pub push_max_concurrency_per_sub: u32,
    /// The ack deadline of a subscription that does not say.
    pub default_ack_deadline_secs: u32,
    /// The interval between two scans of the leases.
    pub lease_scan_interval_ms: u64,
    /// The interval between two sweeps of expired messages.
    pub retention_sweep_interval_secs: u64,
}

/// `[log]`
#[derive(Debug, Clone)]
pub struct LogConfig {
    /// `json`, `text` or `journald`.
    pub format: String,
    /// What is logged, unless the environment says otherwise.
    pub level: String,
}

/// `[metrics]`
#[derive(Debug, Clone)]
pub struct MetricsConfig {
    /// Whether metrics are offered.
    pub enabled: bool,
}

/// These are the defaults of `[server]`.
pub open spec fn is_default_server(c: ServerConfig) -> bool {
    &&& c.listen@ == "0.0.0.0:8085"@
    &&& c.admin_listen@ == "0.0.0.0:8086"@
    &&& c.max_message_size_bytes == 10_485_760
    &&& c.shutdown_grace_secs == 30
    &&& c.enable_reflection
}

impl Default for ServerConfig {
    fn default() -> (c: Self)
        ensures
            is_default_server(c),
    {
        ServerConfig {
            listen: String::from_str("0.0.0.0:8085"),
            admin_listen: String::from_str("0.0.0.0:8086"),
            max_message_size_bytes: 10_485_760,
            shutdown_grace_secs: 30,
            enable_reflection: true,
        }
    }
}

/// These are the defaults of `[storage]`.
pub open spec fn is_default_storage(c: StorageConfig) -> bool {
    &&& c.data_dir@ == "/var/lib/open-pubusb"@
    &&& !c.ephemeral
    &&& c.sync_interval_ms == 50
    &&& c.cache_size_bytes == 33_554_432
    &&& c.max_disk_bytes == 0
}

impl Default for StorageConfig {
    fn default() -> (c: Self)
        ensures
            is_default_storage(c),
    {
        StorageConfig {
            data_dir: String::from_str("/var/lib/open-pubusb"),
            ephemeral: false,
            sync_interval_ms: 50,
            cache_size_bytes: 33_554_432,
            max_disk_bytes: 0,
        }
    }
}

/// These are the defaults of `[delivery]`.
pub open spec fn is_default_delivery(c: DeliveryConfig) -> bool {
    &&& c.pull_max_wait_secs == 90
    &&& c.streaming_pull_max_lifetime_secs == 1_800
    &&& c.push_timeout_secs == 10
    &&& c.push_max_concurrency_per_sub == 16
    &&& c.default_ack_deadline_secs == 10
    &&& c.lease_scan_interval_ms == 100
    &&& c.retention_sweep_interval_secs == 60
}

impl Default for DeliveryConfig {
    fn default() -> (c: Self)
        ensures
            is_default_delivery(c),
    {
        DeliveryConfig {
            pull_max_wait_secs: 90,
            streaming_pull_max_lifetime_secs: 1_800,
            push_timeout_secs: 10,
            push_max_concurrency_per_sub: 16,
            default_ack_deadline_secs: 10,
            lease_scan_interval_ms: 100,
            retention_sweep_interval_secs: 60,
        }
    }
}

/// These are the defaults of `[log]`.
pub open spec fn is_default_log(c: LogConfig) -> bool {
    &&& c.format@ == "json"@
    &&& c.level@ == "info"@
}

impl Default for LogConfig {
    fn default() -> (c: Self)
        ensures
            is_default_log(c),
    {
        LogConfig { format: String::from_str("json"), level: String::from_str("info") }
    }
}

impl Default for MetricsConfig {
    fn default() -> (c: Self)
        ensures
            c.enabled,
    {
        MetricsConfig { enabled: true }
    }
}

/// These are the defaults.
pub open spec fn is_default(c: Config) -> bool {
    &&& is_default_server(c.server)
    &&& is_default_storage(c.storage)
    &&& is_default_delivery(c.delivery)
    &&& is_default_log(c.log)
    &&& c.metrics.enabled
}

impl Default for Config {
    fn default() -> (c: Self)
        ensures
            is_default(c),
    {
        Config {
            server: ServerConfig::default(),
            storage: StorageConfig::default(),
            delivery: DeliveryConfig::default(),
            log: LogConfig::default(),
            metrics: MetricsConfig::default(),
        }
    }
}

/// Why a configuration cannot be used.
#[derive(Debug)]
pub enum ConfigError {
    /// A value is not valid.
    Invalid {
        /// The key, such as `storage.sync_interval_ms`.
        key: String,
        /// What is wrong.
        message: String,
    },
    /// The file or the environment could not be read.
    Load {
        /// The key, where it is known.
        key: Option<String>,
        /// What is wrong.
        message: String,
    },
}

impl ConfigError {
    /// The key that is at fault, where it is known. It always is for a value that is not valid.
    pub fn config_key(&self) -> (r: Option<&str>)
        ensures
            match *self {
                ConfigError::Invalid { key, .. } => r is Some && r->Some_0@ == key@,
                ConfigError::Load { key: Some(key), .. } => r is Some && r->Some_0@ == key@,
                ConfigError::Load { key: None, .. } => r is None,
            },
    {
        match self {
            ConfigError::Invalid { key, .. } => Some(key.as_str()),
            ConfigError::Load { key, .. } => match key {
                Some(key) => Some(key.as_str()),
                None => None,
            },
        }
    }

    /// The text for the operator.
    pub fn to_string(&self) -> (r: String)
        ensures
            r@ == match *self {
                ConfigError::Invalid { key, message } => "invalid config key '"@ + key@ + "': "@
                    + message@,
                ConfigError::Load { message, .. } => message@,
            },
    {
        match self {
            ConfigError::Invalid { key, message } => text::cat4(
                "invalid config key '",
                key.as_str(),
                "': ",
                message.as_str(),
            ),
            ConfigError::Load { message, .. } => message.clone(),
        }
    }
}

/// The log formats there are.
pub open spec fn is_log_format(format: Seq<char>) -> bool {
    format == "json"@ || format == "text"@ || format == "journald"@
}

/// The log formats there are.
pub fn valid_log_formats() -> (r: Vec<&'static str>)
    ensures
        r@.len() == 3,
        r@[0]@ == "json"@,
        r@[1]@ == "text"@,
        r@[2]@ == "journald"@,
{
    vec!["json", "text", "journald"]
}

/// `must be in low..=high (got n)`
pub open spec fn range_message(low: nat, high: nat, n: nat) -> Seq<char> {
    "must be in "@ + text::dec(low) + "..="@ + text::dec(high) + (" (got "@ + text::dec(n) + ")"@)
}

/// The first thing that is wrong with a configuration: the key and the message.
pub open spec fn first_problem(c: Config) -> Option<(Seq<char>, Seq<char>)> {
    if !(1 <= c.storage.sync_interval_ms <= SYNC_INTERVAL_MS_MAX) {
        Some(
            (
                "storage.sync_interval_ms"@,
                range_message(1, 5_000, c.storage.sync_interval_ms as nat),
            ),
        )
    } else if !(1 <= c.server.shutdown_grace_secs <= SHUTDOWN_GRACE_SECS_MAX) {
        Some(
            (
                "server.shutdown_grace_secs"@,
                range_message(1, 600, c.server.shutdown_grace_secs as nat),
            ),
        )
    } else if c.delivery.pull_max_wait_secs == 0 {
        Some(("delivery.pull_max_wait_secs"@, "must be > 0"@))
    } else if c.delivery.push_timeout_secs == 0 {
        Some(("delivery.push_timeout_secs"@, "must be > 0"@))
    } else if !(ACK_DEADLINE_SECS_MIN <= c.delivery.default_ack_deadline_secs
        <= ACK_DEADLINE_SECS_MAX) {
        Some(
            (
                "delivery.default_ack_deadline_secs"@,
                range_message(10, 600, c.delivery.default_ack_deadline_secs as nat),
            ),
        )
    } else if !is_log_format(c.log.format@) {
        Some(
            (
                "log.format"@,
                "must be one of [\"json\", \"text\", \"journald\"] (got '"@ + c.log.format@
                    + "')"@,
            ),
        )
    } else if text::is_blank(c.log.level@) {
        Some(("log.level"@, "must not be empty"@))
    } else if !c.storage.ephemeral && text::is_blank(c.storage.data_dir@) {
        Some(("storage.data_dir"@, "must not be empty when storage.ephemeral = false"@))
    } else {
        None
    }
}

fn out_of_range(key: &str, low: u64, high: u64, n: u64) -> (e: ConfigError)
    ensures
        e matches ConfigError::Invalid { key: k, message } && k@ == key@ && message@
            == range_message(low as nat, high as nat, n as nat),
{
    let low = text::u64_text(low);
    let high = text::u64_text(high);
    let n = text::u64_text(n);
    let got = text::cat3(" (got ", n.as_str(), ")");
    ConfigError::Invalid {
        key: String::from_str(key),
        message: text::cat5("must be in ", low.as_str(), "..=", high.as_str(), got.as_str()),
    }
}

fn problem(key: &str, message: &str) -> (e: ConfigError)
    ensures
        e matches ConfigError::Invalid { key: k, message: m } && k@ == key@ && m@ == message@,
{
    ConfigError::Invalid { key: String::from_str(key), message: String::from_str(message) }
}

impl Config {
    /// Whether every value can be used. The error names the first that cannot.
    pub fn validate(&self) -> (r: Result<(), ConfigError>)
        ensures
            match first_problem(*self) {
                Some((key, message)) => r matches Err(ConfigError::Invalid { key: k, message: m })
                    && k@ == key && m@ == message,
                None => r is Ok,
            },
    {
        if self.storage.sync_interval_ms == 0 || self.storage.sync_interval_ms
            > SYNC_INTERVAL_MS_MAX {
            return Err(
                out_of_range(
                    "storage.sync_interval_ms",
                    1,
                    SYNC_INTERVAL_MS_MAX,
                    self.storage.sync_interval_ms,
                ),
            );
        }
        if self.server.shutdown_grace_secs == 0 || self.server.shutdown_grace_secs
            > SHUTDOWN_GRACE_SECS_MAX {
            return Err(
                out_of_range(
                    "server.shutdown_grace_secs",
                    1,
                    SHUTDOWN_GRACE_SECS_MAX,
                    self.server.shutdown_grace_secs,
                ),
            );
        }
        if self.delivery.pull_max_wait_secs == 0 {
            return Err(problem("delivery.pull_max_wait_secs", "must be > 0"));
        }
        if self.delivery.push_timeout_secs == 0 {
            return Err(problem("delivery.push_timeout_secs", "must be > 0"));
        }
        if self.delivery.default_ack_deadline_secs < ACK_DEADLINE_SECS_MIN
            || self.delivery.default_ack_deadline_secs > ACK_DEADLINE_SECS_MAX {
            return Err(
                out_of_range(
                    "delivery.default_ack_deadline_secs",
                    ACK_DEADLINE_SECS_MIN as u64,
                    ACK_DEADLINE_SECS_MAX as u64,
                    self.delivery.default_ack_deadline_secs as u64,
                ),
            );
        }
        let format = self.log.format.as_str();
        if !(text::str_equal(format, "json") || text::str_equal(format, "text")
            || text::str_equal(format, "journald")) {
            let message = text::cat3(
                "must be one of [\"json\", \"text\", \"journald\"] (got '",
                format,
                "')",
            );
            return Err(problem("log.format", message.as_str()));
        }
        if text::blank(self.log.level.as_str()) {
            return Err(problem("log.level", "must not be empty"));
        }
        if !self.storage.ephemeral && text::blank(self.storage.data_dir.as_str()) {
            return Err(
                problem("storage.data_dir", "must not be empty when storage.ephemeral = false"),
            );
        }
        Ok(())
    }
}

/// The defaults are valid.
pub proof fn law_defaults_are_valid(c: Config)
    requires
        is_default(c),
    ensures
        first_problem(c) is None,
{
    reveal_strlit("info");
    reveal_strlit("/var/lib/open-pubusb");
    assert(c.log.level@[0] == 'i');
    assert(!text::is_white_space(c.log.level@[0]));
    assert(c.storage.data_dir@[0] == '/');
    assert(!text::is_white_space(c.storage.data_dir@[0]));
}

/// What is logged: what the environment says in `RUST_LOG`, else what the configuration says.
pub fn effective_log_filter(cfg: &LogConfig, rust_log: Option<String>) -> (r: String)
    ensures
        r@ == match rust_log {
            Some(filter) => filter@,
            None => cfg.level@,
        },
{
    match rust_log {
        Some(filter) => filter,
        None => cfg.level.clone(),
    }
}

/// Puts what the command line says over the configuration.
pub fn apply_cli_overrides(
    cfg: Config,
    listen: Option<String>,
    admin_listen: Option<String>,
    data_dir: Option<String>,
    ephemeral: bool,
) -> (r: Config)
    ensures
        r == (Config {
            server: ServerConfig {
                listen: match listen {
                    Some(v) => v,
                    None => cfg.server.listen,
                },
                admin_listen: match admin_listen {
                    Some(v) => v,
                    None => cfg.server.admin_listen,
                },
                ..cfg.server
            },
            storage: StorageConfig {
                data_dir: match data_dir {
                    Some(v) => v,
                    None => cfg.storage.data_dir,
                },
                ephemeral: ephemeral || cfg.storage.ephemeral,
                ..cfg.storage
            },
            ..cfg
        }),
{
    let mut cfg = cfg;
    if let Some(v) = listen {
        cfg.server.listen = v;
    }
    if let Some(v) = admin_listen {
        cfg.server.admin_listen = v;
    }
    if let Some(v) = data_dir {
        cfg.storage.data_dir = v;
    }
    if ephemeral {
        cfg.storage.ephemeral = true;
    }
    cfg
}

/// Which configuration file is read: the one that the command line names, else the one that the
/// environment names, else the default one if it is there.
pub fn resolve_config(
    cli_flag: Option<String>,
    environment: Option<String>,
    default_exists: bool,
) -> (r: Option<String>)
    ensures
        match (cli_flag, environment) {
            (Some(path), _) => r == Some(path),
            (None, Some(path)) => r == Some(path),
            (None, None) => if default_exists {
                r is Some && r->Some_0@ == DEFAULT_CONFIG_PATH@
            } else {
                r is None
            },
        },
{
    match cli_flag {
        Some(path) => Some(path),
        None => match environment {
            Some(path) => Some(path),
            None => if default_exists {
                Some(String::from_str(DEFAULT_CONFIG_PATH))
            } else {
                None
            },
        },
    }
}

} // verus!
