//! The configuration.

use dv_hls_gateway::config::{AppConfig, AuthConfig, KeyApiConfig, ServerConfig};

#[test]
fn config_defaults_keep_server_port_but_leave_key_api_unset() {
    let config = AppConfig::default();
    assert_eq!(config.server.host, "0.0.0.0");
    assert_eq!(config.server.port, 37201);
    assert!(config.auth.key.starts_with("dvhls-"));
    assert!(config.key_api.url.is_empty());
    assert!(config.key_api.require_endpoint().is_err());
}

#[test]
fn config_accepts_minimal_json_with_key_api() {
    let config = AppConfig {
        server: ServerConfig {
            port: 38080,
            ..ServerConfig::default()
        },
        auth: AuthConfig {
            key: "panel-secret".to_string(),
        },
        key_api: KeyApiConfig {
            url: "http://key-api.example.invalid/keys".to_string(),
            token: "secret".to_string(),
            ..KeyApiConfig::default()
        },
    };

    assert_eq!(config.server.host, "0.0.0.0");
    assert_eq!(config.server.port, 38080);
    assert_eq!(config.auth.effective_key(), "panel-secret");
    assert_eq!(
        config.key_api.require_endpoint().unwrap(),
        (
            "http://key-api.example.invalid/keys".to_string(),
            "secret".to_string()
        )
    );
    assert_eq!(config.key_api.attempts, 12);
}
