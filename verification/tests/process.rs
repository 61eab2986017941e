use open_pubusb::config::{
    apply_cli_overrides, effective_log_filter, resolve_config, valid_log_formats, Config,
    ConfigError, LogConfig, ACK_DEADLINE_SECS_MAX, ACK_DEADLINE_SECS_MIN, DEFAULT_CONFIG_PATH,
    SYNC_INTERVAL_MS_MAX,
};
use open_pubusb::lifecycle;
use open_pubusb::lifecycle::{Action, Plan, EXIT_CONFIG, EXIT_OK, EXIT_RUNTIME};
use open_pubusb::metrics::{
    describe_all, record_acked, record_dead_lettered, record_delivered, record_expired,
    record_grpc_request, record_published, record_push_request, CardinalityGuard, MetricKind,
    CARDINALITY_LIMIT,
};
use open_pubusb::shutdown::ReadyState;

// -- configuration

#[test]
fn default_config_is_valid() {
    let cfg = Config::default();
    assert!(cfg.validate().is_ok());
    assert_eq!(cfg.server.listen, "0.0.0.0:8085");
    assert_eq!(cfg.server.admin_listen, "0.0.0.0:8086");
    assert_eq!(cfg.server.max_message_size_bytes, 10_485_760);
    assert_eq!(cfg.server.shutdown_grace_secs, 30);
    assert!(cfg.server.enable_reflection);
    assert_eq!(cfg.storage.data_dir, "/var/lib/open-pubusb");
    assert!(!cfg.storage.ephemeral);
    assert_eq!(cfg.storage.sync_interval_ms, 50);
    assert_eq!(cfg.storage.cache_size_bytes, 33_554_432);
    assert_eq!(cfg.storage.max_disk_bytes, 0);
    assert_eq!(cfg.delivery.pull_max_wait_secs, 90);
    assert_eq!(cfg.delivery.streaming_pull_max_lifetime_secs, 1_800);
    assert_eq!(cfg.delivery.push_timeout_secs, 10);
    assert_eq!(cfg.delivery.push_max_concurrency_per_sub, 16);
    assert_eq!(cfg.delivery.default_ack_deadline_secs, 10);
    assert_eq!(cfg.delivery.lease_scan_interval_ms, 100);
    assert_eq!(cfg.delivery.retention_sweep_interval_secs, 60);
    assert_eq!(cfg.log.format, "json");
    assert_eq!(cfg.log.level, "info");
    assert!(cfg.metrics.enabled);
}

#[test]
fn sync_interval_ms_zero_is_invalid() {
    let mut cfg = Config::default();
    cfg.storage.sync_interval_ms = 0;
    let err = cfg.validate().unwrap_err();
    assert_eq!(err.config_key(), Some("storage.sync_interval_ms"));
}

#[test]
fn sync_interval_ms_over_max_is_invalid() {
    let mut cfg = Config::default();
    cfg.storage.sync_interval_ms = SYNC_INTERVAL_MS_MAX + 1;
    assert!(cfg.validate().is_err());
}

#[test]
fn shutdown_grace_secs_zero_is_invalid() {
    let mut cfg = Config::default();
    cfg.server.shutdown_grace_secs = 0;
    let err = cfg.validate().unwrap_err();
    assert_eq!(err.config_key(), Some("server.shutdown_grace_secs"));
}

#[test]
fn shutdown_grace_secs_over_600_is_invalid() {
    let mut cfg = Config::default();
    cfg.server.shutdown_grace_secs = 601;
    assert!(cfg.validate().is_err());
}

#[test]
fn pull_max_wait_secs_zero_is_invalid() {
    let mut cfg = Config::default();
    cfg.delivery.pull_max_wait_secs = 0;
    let err = cfg.validate().unwrap_err();
    assert_eq!(err.config_key(), Some("delivery.pull_max_wait_secs"));
}

#[test]
fn push_timeout_secs_zero_is_invalid() {
    let mut cfg = Config::default();
    cfg.delivery.push_timeout_secs = 0;
    let err = cfg.validate().unwrap_err();
    assert_eq!(err.config_key(), Some("delivery.push_timeout_secs"));
}

#[test]
fn ack_deadline_below_min_is_invalid() {
    let mut cfg = Config::default();
    cfg.delivery.default_ack_deadline_secs = ACK_DEADLINE_SECS_MIN - 1;
    let err = cfg.validate().unwrap_err();
    assert_eq!(err.config_key(), Some("delivery.default_ack_deadline_secs"));
}

#[test]
fn ack_deadline_above_max_is_invalid() {
    let mut cfg = Config::default();
    cfg.delivery.default_ack_deadline_secs = ACK_DEADLINE_SECS_MAX + 1;
    assert!(cfg.validate().is_err());
}

#[test]
fn ack_deadline_bounds_are_inclusive() {
    let mut cfg = Config::default();
    cfg.delivery.default_ack_deadline_secs = ACK_DEADLINE_SECS_MIN;
    assert!(cfg.validate().is_ok());
    cfg.delivery.default_ack_deadline_secs = ACK_DEADLINE_SECS_MAX;
    assert!(cfg.validate().is_ok());
}

#[test]
fn log_format_invalid_value_is_invalid() {
    let mut cfg = Config::default();
    cfg.log.format = "xml".to_string();
    let err = cfg.validate().unwrap_err();
    assert_eq!(err.config_key(), Some("log.format"));
}

#[test]
fn log_format_accepts_all_documented_values() {
    for fmt in valid_log_formats() {
        let mut cfg = Config::default();
        cfg.log.format = fmt.to_string();
        assert!(cfg.validate().is_ok(), "format '{fmt}' should be valid");
    }
}

#[test]
fn log_level_empty_is_invalid() {
    let mut cfg = Config::default();
    cfg.log.level = "  ".to_string();
    let err = cfg.validate().unwrap_err();
    assert_eq!(err.config_key(), Some("log.level"));
}

#[test]
fn data_dir_empty_with_non_ephemeral_is_invalid() {
    let mut cfg = Config::default();
    cfg.storage.ephemeral = false;
    cfg.storage.data_dir = "".to_string();
    let err = cfg.validate().unwrap_err();
    assert_eq!(err.config_key(), Some("storage.data_dir"));
}

#[test]
fn data_dir_empty_with_ephemeral_is_valid() {
    let mut cfg = Config::default();
    cfg.storage.ephemeral = true;
    cfg.storage.data_dir = "".to_string();
    assert!(cfg.validate().is_ok());
}

#[test]
fn effective_log_filter_prefers_rust_log() {
    let cfg = LogConfig { format: "json".to_string(), level: "info".to_string() };
    let filter =
        effective_log_filter(&cfg, Some("debug,open_pubusb::delivery=trace".to_string()));
    assert_eq!(filter, "debug,open_pubusb::delivery=trace");
}

#[test]
fn effective_log_filter_falls_back_to_log_level() {
    let cfg = LogConfig { format: "json".to_string(), level: "warn".to_string() };
    assert_eq!(effective_log_filter(&cfg, None), "warn");
}

#[test]
fn messages_name_the_value_and_the_key() {
    let mut cfg = Config::default();
    cfg.storage.sync_interval_ms = 9_000;
    let err = cfg.validate().unwrap_err();
    assert_eq!(
        err.to_string(),
        "invalid config key 'storage.sync_interval_ms': must be in 1..=5000 (got 9000)"
    );
    let mut cfg = Config::default();
    cfg.log.format = "xml".to_string();
    assert_eq!(
        cfg.validate().unwrap_err().to_string(),
        "invalid config key 'log.format': must be one of [\"json\", \"text\", \"journald\"] \
         (got 'xml')"
    );
    let load = ConfigError::Load { key: None, message: "missing field".to_string() };
    assert_eq!(load.config_key(), None);
    assert_eq!(load.to_string(), "missing field");
}

#[test]
fn the_command_line_overrides_the_configuration() {
    let cfg = apply_cli_overrides(
        Config::default(),
        Some("127.0.0.1:1".to_string()),
        None,
        Some("/tmp/d".to_string()),
        true,
    );
    assert_eq!(cfg.server.listen, "127.0.0.1:1");
    assert_eq!(cfg.server.admin_listen, "0.0.0.0:8086");
    assert_eq!(cfg.storage.data_dir, "/tmp/d");
    assert!(cfg.storage.ephemeral);
}

#[test]
fn the_configuration_file_is_looked_for_in_order() {
    let flag = Some("a".to_string());
    let env = Some("b".to_string());
    assert_eq!(resolve_config(flag, env, true), Some("a".to_string()));
    assert_eq!(resolve_config(None, Some("b".to_string()), true), Some("b".to_string()));
    assert_eq!(resolve_config(None, None, true), Some(DEFAULT_CONFIG_PATH.to_string()));
    assert_eq!(resolve_config(None, None, false), None);
}

// -- readiness

#[test]
fn starts_at_starting() {
    let state = ReadyState::new();
    assert_eq!(state.load(), ReadyState::STARTING);
    assert!(!state.is_ready());
    assert!(!state.is_draining());
}

#[test]
fn set_ready_transitions_to_ready() {
    let mut state = ReadyState::new();
    state.set_ready();
    assert!(state.is_ready());
    assert!(!state.is_draining());
    assert_eq!(state.load(), ReadyState::READY);
}

#[test]
fn set_draining_transitions_to_draining() {
    let mut state = ReadyState::new();
    state.set_ready();
    state.set_draining();
    assert!(state.is_draining());
    assert!(!state.is_ready());
    assert_eq!(state.load(), ReadyState::DRAINING);
}

// -- metrics

#[test]
fn recording_helpers_do_not_panic_without_a_recorder() {
    let published = record_published("projects/p/topics/t");
    assert_eq!(published.name, "open_pubusb_messages_published_total");
    assert_eq!(published.labels, vec![("topic", "projects/p/topics/t".to_string())]);
    let delivered = record_delivered("projects/p/subscriptions/s", "pull");
    assert_eq!(delivered.name, "open_pubusb_messages_delivered_total");
    assert_eq!(
        delivered.labels,
        vec![
            ("subscription", "projects/p/subscriptions/s".to_string()),
            ("mode", "pull".to_string()),
        ]
    );
    let guard = CardinalityGuard::new();
    assert!(guard.should_label(1));
    assert!(!guard.should_label(CARDINALITY_LIMIT + 1));
}

#[test]
fn every_event_has_its_counter() {
    assert_eq!(record_acked("s").name, "open_pubusb_messages_acked_total");
    assert_eq!(record_expired("s").name, "open_pubusb_messages_expired_total");
    assert_eq!(record_dead_lettered("s").name, "open_pubusb_messages_dead_lettered_total");
    let grpc = record_grpc_request("Publish", "OK");
    assert_eq!(grpc.name, "open_pubusb_grpc_requests_total");
    assert_eq!(grpc.labels[1], ("code", "OK".to_string()));
    let push = record_push_request("s", "ok");
    assert_eq!(push.name, "open_pubusb_push_requests_total");
    assert_eq!(push.labels[1], ("result", "ok".to_string()));
}

#[test]
fn sixteen_metrics_are_described() {
    let all = describe_all();
    assert_eq!(all.len(), 16);
    assert_eq!(all[0].name, "open_pubusb_topics");
    assert_eq!(all[0].kind, MetricKind::Gauge);
    assert_eq!(all[9].kind, MetricKind::Histogram);
    assert_eq!(all[15].name, "open_pubusb_metrics_truncated");
    let guard = CardinalityGuard::new();
    assert_eq!(guard.truncated(CARDINALITY_LIMIT), 0);
    assert_eq!(guard.truncated(CARDINALITY_LIMIT + 1), 1);
}

// -- lifecycle

fn run_without_failures(plan: &Plan) -> Vec<Action> {
    let mut actions = vec![lifecycle::first()];
    while !matches!(actions[actions.len() - 1], Action::Exit(_)) {
        actions.push(lifecycle::next(plan, actions[actions.len() - 1], true));
    }
    actions
}

#[test]
fn the_default_plan_runs_every_action_in_order() {
    let mut cfg = Config::default();
    let plan = lifecycle::plan(&cfg);
    assert_eq!(plan, Plan { on_disk: true, metrics: true, admin: true });
    assert_eq!(
        run_without_failures(&plan),
        vec![
            Action::StartLogging,
            Action::OpenStore,
            Action::ReadListenAddress,
            Action::InstallRecorder,
            Action::ReadAdminAddress,
            Action::StartServer,
            Action::StartAdmin,
            Action::StartLoops,
            Action::ReportServing,
            Action::SetReady,
            Action::NotifyReady,
            Action::AwaitSignal,
            Action::SetDraining,
            Action::ReportNotServing,
            Action::NotifyStopping,
            Action::Drain,
            Action::AwaitLoops,
            Action::SyncStore,
            Action::Exit(EXIT_OK),
        ]
    );
    cfg.server.admin_listen = "  ".to_string();
    cfg.metrics.enabled = false;
    cfg.storage.ephemeral = true;
    let plan = lifecycle::plan(&cfg);
    assert_eq!(plan, Plan { on_disk: false, metrics: false, admin: false });
    let actions = run_without_failures(&plan);
    assert_eq!(actions.len(), 16);
    assert!(!actions.contains(&Action::InstallRecorder));
    assert!(!actions.contains(&Action::ReadAdminAddress));
    assert!(!actions.contains(&Action::StartAdmin));
}

#[test]
fn failures_end_the_process_or_are_survived() {
    let plan = Plan { on_disk: true, metrics: true, admin: true };
    for action in [Action::StartLogging, Action::OpenStore] {
        assert_eq!(lifecycle::next(&plan, action, false), Action::Exit(EXIT_RUNTIME));
    }
    for action in [
        Action::ReadListenAddress,
        Action::ReadAdminAddress,
        Action::StartServer,
        Action::StartAdmin,
    ] {
        assert_eq!(lifecycle::next(&plan, action, false), Action::Exit(EXIT_CONFIG));
    }
    assert_eq!(
        lifecycle::next(&plan, Action::InstallRecorder, false),
        Action::ReadAdminAddress
    );
    assert_eq!(lifecycle::next(&plan, Action::Drain, false), Action::AwaitLoops);
    assert_eq!(lifecycle::next(&plan, Action::SyncStore, false), Action::Exit(EXIT_OK));
    assert_eq!(lifecycle::next(&plan, Action::Exit(2), true), Action::Exit(2));
    assert_eq!((EXIT_OK, EXIT_RUNTIME, EXIT_CONFIG), (0, 1, 2));
}
