//! What the server can be configured to, and what it is without being configured.

use crate::config;
use crate::config::Config;
use crate::lifecycle;
use crate::lifecycle::Action;
use crate::text;
use vstd::prelude::*;

verus! {

/// A configuration can be used exactly if its values are in range.
pub proof fn law_configurations(c: Config)
    ensures
        config::first_problem(c) is None <==> {
            &&& 1 <= c.storage.sync_interval_ms <= 5_000
            &&& 1 <= c.server.shutdown_grace_secs <= 600
            &&& c.delivery.pull_max_wait_secs > 0
            &&& c.delivery.push_timeout_secs > 0
            &&& 10 <= c.delivery.default_ack_deadline_secs <= 600
            &&& c.log.format@ == "json"@ || c.log.format@ == "text"@ || c.log.format@ == "journald"@
            &&& !text::is_blank(c.log.level@)
            &&& c.storage.ephemeral || !text::is_blank(c.storage.data_dir@)
        },
{
}

/// The values where nothing is configured.
pub proof fn law_defaults(c: Config)
    requires
        config::is_default(c),
    ensures
        c.server.listen@ == "0.0.0.0:8085"@,
        c.server.admin_listen@ == "0.0.0.0:8086"@,
        c.server.max_message_size_bytes == 10 * 1024 * 1024,
        c.server.shutdown_grace_secs == 30,
        c.server.enable_reflection,
        c.storage.data_dir@ == "/var/lib/open-pubusb"@,
        !c.storage.ephemeral,
        c.storage.sync_interval_ms == 50,
        c.storage.cache_size_bytes == 32 * 1024 * 1024,
        c.storage.max_disk_bytes == 0,
        c.delivery.pull_max_wait_secs == 90,
        c.delivery.streaming_pull_max_lifetime_secs == 30 * 60,
        c.delivery.push_timeout_secs == 10,
        c.delivery.push_max_concurrency_per_sub == 16,
        c.delivery.default_ack_deadline_secs == 10,
        c.delivery.lease_scan_interval_ms == 100,
        c.delivery.retention_sweep_interval_secs == 60,
        c.log.format@ == "json"@,
        c.log.level@ == "info"@,
        c.metrics.enabled,
{
}

/// With which code the process exits when a step fails: 2 where the configuration is at fault, 1 where
/// the machine is, and 0 after a clean run; from any other failure it goes on.
pub proof fn law_exit_codes(a: Action)
    ensures
        lifecycle::code_on_failure(a) == match a {
            Action::ReadListenAddress | Action::ReadAdminAddress | Action::StartServer
            | Action::StartAdmin => Some(2u8),
            Action::StartLogging | Action::OpenStore => Some(1u8),
            _ => None,
        },
        lifecycle::EXIT_OK == 0,
{
}

/// A failure of the storage engine is reported as one of a resource if the disk is full, and else as
/// an internal one.
pub proof fn law_storage_errors(message: Seq<char>)
    ensures
        crate::store::format::storage_error_view(true, message) is ResourceExhausted,
        crate::store::format::storage_error_view(false, message) is Internal,
{
}

} // verus!
