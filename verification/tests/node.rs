use gaia_rag::client::{config_with_overrides, GaiaNodeClient, StartNodeRequest};
use gaia_rag::node::{
    config_from_home, ensure_can_start, ensure_can_stop, start_args, GaiaError, GaiaNodeConfig,
    GaiaNodeStatus,
};

#[test]
fn client_keeps_its_settings() {
    let client = GaiaNodeClient::new(
        "http://localhost:8080/v1".to_string(),
        "SECRET-REDACTED".to_string(),
        "llama".to_string(),
    );
    assert_eq!(client.base_url, "http://localhost:8080/v1");
    assert_eq!(client.api_key, "SECRET-REDACTED");
    assert_eq!(client.model, "llama");
}

#[test]
fn default_config_points_at_gaianet_dir() {
    let config = GaiaNodeConfig::default();
    assert_eq!(config.network, "mainnet");
    assert!(!config.verbose);
    assert!(config.data_dir.ends_with("/.gaianet"));
}

#[test]
fn config_from_known_home() {
    let config = config_from_home(Some("/home/someone".to_string()));
    assert_eq!(config.data_dir, "/home/someone/.gaianet");
    assert_eq!(config.network, "mainnet");
    let fallback = config_from_home(None);
    assert_eq!(fallback.data_dir, "/tmp/.gaianet");
}

#[test]
fn start_request_overrides_apply() {
    let base = config_from_home(None);
    let req = StartNodeRequest { network: Some("testnet".to_string()), data_dir: None };
    let config = config_with_overrides(&req, base.clone());
    assert_eq!(config.network, "testnet");
    assert_eq!(config.data_dir, "/tmp/.gaianet");
    let req2 = StartNodeRequest { network: None, data_dir: Some("/data".to_string()) };
    let config2 = config_with_overrides(&req2, base);
    assert_eq!(config2.network, "mainnet");
    assert_eq!(config2.data_dir, "/data");
}

#[test]
fn start_arguments_match_config() {
    let config = GaiaNodeConfig {
        data_dir: "/var/gaia".to_string(),
        network: "testnet".to_string(),
        verbose: false,
    };
    let args = start_args(&config);
    assert_eq!(args, vec!["start", "--data-dir", "/var/gaia", "--network", "testnet"]);
    let loud = GaiaNodeConfig { verbose: true, ..config };
    let args2 = start_args(&loud);
    assert_eq!(
        args2,
        vec!["start", "--data-dir", "/var/gaia", "--network", "testnet", "--verbose"]
    );
}

#[test]
fn only_a_stopped_node_may_start() {
    assert!(ensure_can_start(&GaiaNodeStatus::Stopped).is_ok());
    let err = ensure_can_start(&GaiaNodeStatus::Running).unwrap_err();
    assert!(matches!(err, GaiaError::InvalidState(_)));
    assert_eq!(err.message(), "Invalid state: Node is already running");
    assert!(ensure_can_start(&GaiaNodeStatus::Starting).is_err());
}

#[test]
fn only_a_running_node_may_stop() {
    assert!(ensure_can_stop(&GaiaNodeStatus::Running).is_ok());
    assert!(ensure_can_stop(&GaiaNodeStatus::Starting).is_ok());
    let err = ensure_can_stop(&GaiaNodeStatus::Stopped).unwrap_err();
    assert_eq!(err.message(), "Invalid state: Node is not running");
}

#[test]
fn status_text_forms() {
    assert_eq!(GaiaNodeStatus::Running.describe(), "Running");
    assert_eq!(GaiaNodeStatus::Starting.describe(), "Starting");
    assert_eq!(GaiaNodeStatus::Stopped.describe(), "Stopped");
    assert_eq!(
        GaiaNodeStatus::Syncing { current_height: 105, target_height: 2390 }.describe(),
        "Syncing (current_height: 105, target_height: 2390)"
    );
    assert_eq!(
        GaiaNodeStatus::Error("boom".to_string()).describe(),
        "Error: boom"
    );
}

#[test]
fn error_text_forms() {
    assert_eq!(GaiaError::Io("lost".to_string()).message(), "IO error: lost");
    assert_eq!(GaiaError::CommandFailed("exit 1".to_string()).message(), "Command failed: exit 1");
    assert_eq!(GaiaError::ParseError("bad".to_string()).message(), "Parse error: bad");
    assert_eq!(
        GaiaError::InitializationFailed("none".to_string()).message(),
        "Initialization failed: none"
    );
    assert_eq!(GaiaError::Internal("oops".to_string()).message(), "Internal error: oops");
}
