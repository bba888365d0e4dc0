use drasi_server::json::JsonValue;
use drasi_server::models::{BootstrapProviderConfig, SourceConfig};
use drasi_server::plugin_registry::{PluginKindInfo, PluginRegistry};
use drasi_server::reaction::ReactionConfig;

type Registry = PluginRegistry<&'static str, &'static str, &'static str>;

fn info(kind: &str) -> PluginKindInfo {
    PluginKindInfo {
        kind: kind.to_string(),
        config_version: "1.0.0".to_string(),
        config_schema_json: "{}".to_string(),
        config_schema_name: "Config".to_string(),
    }
}

/// The core plugins a server registers: the noop and application
/// bootstrappers and the application reaction.
fn core_registry() -> Registry {
    let mut registry = Registry::new();
    registry.register_bootstrapper(info("noop"), "noop-bootstrap");
    registry.register_bootstrapper(info("application"), "application-bootstrap");
    registry.register_reaction(info("application"), "application-reaction");
    registry
}

fn source(kind: &str) -> SourceConfig {
    SourceConfig {
        kind: kind.to_string(),
        id: "test".to_string(),
        auto_start: true,
        bootstrap_provider: None,
        config: JsonValue::Object(Vec::new()),
    }
}

fn reaction(kind: &str, queries: Vec<String>) -> ReactionConfig {
    ReactionConfig {
        kind: kind.to_string(),
        id: "test".to_string(),
        queries,
        auto_start: true,
        config: JsonValue::Object(Vec::new()),
    }
}

#[test]
fn test_create_noop_bootstrap_provider() {
    let registry = core_registry();
    let bootstrap_config = BootstrapProviderConfig { kind: "noop".to_string(), config: JsonValue::Object(Vec::new()) };
    let result = registry.bootstrap_descriptor(&bootstrap_config);
    assert!(result.is_ok(), "Failed to find the noop bootstrap provider");
    assert_eq!(*result.unwrap(), "noop-bootstrap");
}

#[test]
fn test_unknown_source_kind_rejected() {
    let registry = core_registry();
    let result = registry.source_descriptor(&source("nonexistent"));
    assert!(result.is_err());
    let err_msg = result.err().unwrap();
    assert!(err_msg.contains("Unknown source kind"), "Unexpected error: {err_msg}");
}

#[test]
fn test_unknown_reaction_kind_rejected() {
    let registry = core_registry();
    let result = registry.reaction_descriptor(&reaction("nonexistent", vec![]));
    assert!(result.is_err());
    let err_msg = result.err().unwrap();
    assert!(err_msg.contains("Unknown reaction kind"), "Unexpected error: {err_msg}");
}

#[test]
fn test_unknown_source_kind_returns_helpful_error() {
    let registry = core_registry();
    let msg = registry.source_descriptor(&source("nosql-fantasy")).err().expect("Expected error");
    assert!(msg.contains("Unknown source kind"), "Error: {msg}");
    assert!(msg.contains("nosql-fantasy"), "Error should include the requested kind: {msg}");
}

#[test]
fn test_unknown_reaction_kind_returns_helpful_error() {
    let registry = core_registry();
    let msg = registry
        .reaction_descriptor(&reaction("email-blast", vec!["q1".to_string()]))
        .err()
        .expect("Expected error");
    assert!(msg.contains("Unknown reaction kind"), "Error: {msg}");
    assert!(msg.contains("email-blast"), "Error: {msg}");
}

#[test]
fn test_unknown_bootstrap_kind_returns_helpful_error() {
    let registry = core_registry();
    let bootstrap_config =
        BootstrapProviderConfig { kind: "imaginary-bootstrap".to_string(), config: JsonValue::Object(Vec::new()) };
    let msg = registry.bootstrap_descriptor(&bootstrap_config).err().expect("Expected error");
    assert!(msg.contains("Unknown bootstrap kind"), "Error: {msg}");
    assert!(msg.contains("imaginary-bootstrap"), "Error: {msg}");
}

#[test]
fn test_empty_registry_rejects_all_sources() {
    let registry = Registry::new();
    let err = registry.source_descriptor(&source("mock")).err().expect("Expected error");
    assert!(err.contains("Unknown source kind"));
}

#[test]
fn test_empty_registry_rejects_all_reactions() {
    let registry = Registry::new();
    let err = registry.reaction_descriptor(&reaction("log", vec![])).err().expect("Expected error");
    assert!(err.contains("Unknown reaction kind"));
}

#[test]
fn unknown_kind_message_lists_available_kinds() {
    let registry = core_registry();
    let msg = registry.reaction_descriptor(&reaction("log", vec![])).err().unwrap();
    assert_eq!(msg, r#"Unknown reaction kind: 'log'. Available: ["application"]"#);
}
