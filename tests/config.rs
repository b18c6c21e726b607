use srt_translate::config::{Config, ConfigError};

#[test]
fn config_with_both_fields() {
    let c = Config::from_fields(Some("SECRET-REDACTED".to_string()), Some("https://api.example.com/v1".to_string()))
        .ok()
        .expect("config");
    assert_eq!(c.api_key, "SECRET-REDACTED");
    assert_eq!(c.endpoint, "https://api.example.com/v1");
}

#[test]
fn config_missing_api_key() {
    let r = Config::from_fields(None, Some("https://api.example.com".to_string()));
    assert_eq!(r.err(), Some(ConfigError::MissingApiKey));
    assert_eq!(Config::from_fields(None, None).err(), Some(ConfigError::MissingApiKey));
    assert_eq!(ConfigError::MissingApiKey.message(), "Missing API key");
}

#[test]
fn config_missing_endpoint() {
    let r = Config::from_fields(Some("k".to_string()), None);
    assert_eq!(r.err(), Some(ConfigError::MissingEndpoint));
    assert_eq!(ConfigError::MissingEndpoint.message(), "Missing endpoint");
}

#[test]
fn config_from_toml_document() {
    let c = Config::from_toml("[settings]\napi_key = \"SECRET-REDACTED\"\nendpoint = \"https://api.example.com/v1/chat/completions\"\n")
        .ok()
        .expect("config");
    assert_eq!(c.api_key, "SECRET-REDACTED");
    assert_eq!(c.endpoint, "https://api.example.com/v1/chat/completions");
}

#[test]
fn config_from_toml_reports_missing_values() {
    assert_eq!(Config::from_toml("[settings]\nendpoint = \"e\"\n").err(), Some(ConfigError::MissingApiKey));
    assert_eq!(Config::from_toml("[settings]\napi_key = \"k\"\n").err(), Some(ConfigError::MissingEndpoint));
    assert_eq!(Config::from_toml("api_key = \"k\"\nendpoint = \"e\"\n").err(), Some(ConfigError::MissingApiKey));
    assert_eq!(Config::from_toml("[settings]\napi_key = 3\nendpoint = \"e\"\n").err(), Some(ConfigError::MissingApiKey));
}

#[test]
fn config_from_toml_rejects_malformed_text() {
    assert_eq!(Config::from_toml("[settings\napi_key = ").err(), Some(ConfigError::Syntax));
    assert_eq!(ConfigError::Syntax.message(), "Malformed configuration");
}

#[test]
fn config_from_toml_refuses_deep_nesting() {
    let deep = format!("x = {}", "[".repeat(100_000));
    assert_eq!(Config::from_toml(&deep).err(), Some(ConfigError::TooNested));
    let braces = format!("x = {}", "{a = ".repeat(300));
    assert_eq!(Config::from_toml(&braces).err(), Some(ConfigError::TooNested));
    assert_eq!(ConfigError::TooNested.message(), "Configuration nests too deeply");
}

#[test]
fn config_from_toml_bound_is_exact() {
    let at_bound = format!(
        "[settings]\napi_key = \"k\"\nendpoint = \"{}\"\n",
        ".".repeat(srt_translate::config::MAX_OPENERS - 1)
    );
    assert!(Config::from_toml(&at_bound).is_ok());
    let over = format!(
        "[settings]\napi_key = \"k\"\nendpoint = \"{}\"\n",
        ".".repeat(srt_translate::config::MAX_OPENERS)
    );
    assert_eq!(Config::from_toml(&over).err(), Some(ConfigError::TooNested));
    let unparsable_but_shallow = format!("x = {}", "[".repeat(20));
    assert_eq!(Config::from_toml(&unparsable_but_shallow).err(), Some(ConfigError::Syntax));
}
