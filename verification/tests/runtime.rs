use greentic_pack::config::ConfigArgs;
use greentic_pack::runtime::{
    apply_cli_overrides, override_format_for_path, override_layer, override_layer_format, ConfigFormat,
    ConnectionKind, NetworkPolicy, OfflineError, RuntimeState,
};

fn state(connection: Option<ConnectionKind>) -> RuntimeState {
    RuntimeState {
        cache_dir: "/var/cache/greentic".to_string(),
        connection,
        warnings: vec!["from config".to_string()],
    }
}

#[test]
fn network_policy_follows_connection() {
    assert_eq!(state(None).network_policy(), NetworkPolicy::Online);
    assert_eq!(state(Some(ConnectionKind::Online)).network_policy(), NetworkPolicy::Online);
    assert_eq!(state(Some(ConnectionKind::Offline)).network_policy(), NetworkPolicy::Offline);
}

#[test]
fn require_online_refuses_offline() {
    assert_eq!(state(None).require_online("fetch component"), Ok(()));
    let err = state(Some(ConnectionKind::Offline)).require_online("fetch component").unwrap_err();
    assert_eq!(err, OfflineError { action: "fetch component".to_string() });
    assert_eq!(err.message(), "network operation blocked in offline mode: fetch component");
}

#[test]
fn offline_flag_forces_offline_and_warns() {
    let s = apply_cli_overrides(state(Some(ConnectionKind::Online)), true, None);
    assert_eq!(s.network_policy(), NetworkPolicy::Offline);
    assert!(s.require_online("pull").is_err());
    assert_eq!(
        s.warnings().to_vec(),
        vec!["from config".to_string(), "offline forced by CLI --offline flag".to_string()]
    );
    assert_eq!(s.cache_dir(), "/var/cache/greentic");
}

#[test]
fn no_overrides_keep_state() {
    let s = apply_cli_overrides(state(None), false, None);
    assert_eq!(s, state(None));
}

#[test]
fn cache_dir_override_replaces() {
    let s = apply_cli_overrides(state(None), false, Some("/tmp/cache".to_string()));
    assert_eq!(s.cache_dir(), "/tmp/cache");
    assert_eq!(s.network_policy(), NetworkPolicy::Online);
    assert_eq!(s.warnings().len(), 1);
}

#[test]
fn override_format_by_extension() {
    assert_eq!(override_layer_format(Some("json")), ConfigFormat::Json);
    assert_eq!(override_layer_format(Some("JSON")), ConfigFormat::Json);
    assert_eq!(override_layer_format(Some("Json")), ConfigFormat::Json);
    assert_eq!(override_layer_format(Some("toml")), ConfigFormat::Toml);
    assert_eq!(override_layer_format(Some("jsonc")), ConfigFormat::Toml);
    assert_eq!(override_layer_format(Some("")), ConfigFormat::Toml);
    assert_eq!(override_layer_format(None), ConfigFormat::Toml);
}

#[test]
fn override_format_by_path() {
    assert_eq!(override_format_for_path("config/override.json"), ConfigFormat::Json);
    assert_eq!(override_format_for_path("override.JSON"), ConfigFormat::Json);
    assert_eq!(override_format_for_path("override.toml"), ConfigFormat::Toml);
    assert_eq!(override_format_for_path("override"), ConfigFormat::Toml);
    assert_eq!(override_format_for_path(".json"), ConfigFormat::Toml);
    assert_eq!(override_format_for_path("dir.json/override"), ConfigFormat::Toml);
}

#[test]
fn config_args_are_empty() {
    assert_eq!(ConfigArgs {}, ConfigArgs {});
}

#[test]
fn override_layer_reads_json_by_extension() {
    assert!(override_layer("/etc/greentic/override.json", "{}").is_ok());
    assert!(override_layer("override.JSON", "{}").is_ok());
    assert_eq!(
        override_layer("/etc/greentic/override.json", "not json").unwrap_err(),
        ConfigFormat::Json
    );
}

#[test]
fn override_layer_reads_toml_otherwise() {
    assert!(override_layer("/etc/greentic/override.toml", "").is_ok());
    assert!(override_layer("override", "").is_ok());
    assert_eq!(override_layer("override.toml", "= broken").unwrap_err(), ConfigFormat::Toml);
    assert_eq!(override_layer("override.yaml", "{").unwrap_err(), ConfigFormat::Toml);
}

#[test]
fn override_format_with_directories() {
    assert_eq!(override_format_for_path("/etc/greentic/override.json"), ConfigFormat::Json);
    assert_eq!(override_format_for_path("./cfg/override.Json"), ConfigFormat::Json);
    assert_eq!(override_format_for_path("/etc/greentic/override.toml"), ConfigFormat::Toml);
}

#[test]
fn override_format_for_unusual_paths() {
    assert_eq!(override_format_for_path(":x.json"), ConfigFormat::Json);
    assert_eq!(override_format_for_path("cfg/a:b.JSON"), ConfigFormat::Json);
    assert_eq!(override_format_for_path("C:\\cfg\\o.json"), ConfigFormat::Json);
    assert_eq!(override_format_for_path("a.b.toml"), ConfigFormat::Toml);
    assert!(override_layer(":x.json", "{}").is_ok());
}
