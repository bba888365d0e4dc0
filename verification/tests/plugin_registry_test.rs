use drasi_server::plugin_registry::{PluginKindInfo, PluginRegistry};

/// The information a mock source descriptor reports about itself.
fn mock_source(kind: &str) -> PluginKindInfo {
    PluginKindInfo {
        kind: kind.to_string(),
        config_version: "1.0.0".to_string(),
        config_schema_json: r#"{"MockSourceConfig":{"type":"object","properties":{"host":{"type":"string"}}}}"#
            .to_string(),
        config_schema_name: "MockSourceConfig".to_string(),
    }
}

/// The information a mock reaction descriptor reports about itself.
fn mock_reaction(kind: &str) -> PluginKindInfo {
    PluginKindInfo {
        kind: kind.to_string(),
        config_version: "1.0.0".to_string(),
        config_schema_json: r#"{"MockReactionConfig":{"type":"object"}}"#.to_string(),
        config_schema_name: "MockReactionConfig".to_string(),
    }
}

type Registry = PluginRegistry<&'static str, &'static str, &'static str>;

#[test]
fn test_new_registry_is_empty() {
    let registry = Registry::new();
    assert!(registry.is_empty());
    assert_eq!(registry.descriptor_count(), 0);
}

#[test]
fn test_register_source() {
    let mut registry = Registry::new();
    registry.register_source(mock_source("mock"), "mock-descriptor");

    assert_eq!(registry.source_kinds(), vec!["mock"]);
    assert!(registry.get_source("mock").is_some());
    assert!(registry.get_source("nonexistent").is_none());
    assert_eq!(registry.descriptor_count(), 1);
}

#[test]
fn test_register_reaction() {
    let mut registry = Registry::new();
    registry.register_reaction(mock_reaction("log"), "log-descriptor");

    assert_eq!(registry.reaction_kinds(), vec!["log"]);
    assert!(registry.get_reaction("log").is_some());
}

#[test]
fn test_source_plugin_infos() {
    let mut registry = Registry::new();
    registry.register_source(mock_source("mock"), "mock-descriptor");

    let infos = registry.source_plugin_infos();
    assert_eq!(infos.len(), 1);
    assert_eq!(infos[0].kind, "mock");
    assert_eq!(infos[0].config_version, "1.0.0");
    assert!(infos[0].config_schema_json.contains("object"));
}

#[test]
fn test_duplicate_kind_replaces() {
    let mut registry = Registry::new();
    registry.register_source(mock_source("mock"), "first");
    registry.register_source(mock_source("mock"), "second");

    assert_eq!(registry.source_kinds(), vec!["mock"]);
    assert_eq!(registry.descriptor_count(), 1);
    assert_eq!(registry.get_source("mock"), Some(&"second"));
}

#[test]
fn test_debug_output() {
    let mut registry = Registry::new();
    registry.register_source(mock_source("postgres"), "postgres-descriptor");
    registry.register_reaction(mock_reaction("log"), "log-descriptor");

    let debug = registry.describe();
    assert!(debug.contains("postgres"));
    assert!(debug.contains("log"));
    assert_eq!(debug, r#"PluginRegistry { sources: ["postgres"], reactions: ["log"], bootstrappers: [] }"#);
}

#[test]
fn test_kinds_are_sorted() {
    let mut registry = Registry::new();
    registry.register_source(mock_source("zeta"), "z");
    registry.register_source(mock_source("alpha"), "a");
    registry.register_source(mock_source("beta"), "b");

    assert_eq!(registry.source_kinds(), vec!["alpha", "beta", "zeta"]);
}

#[test]
fn bootstrappers_are_kept_apart_from_sources() {
    let mut registry = Registry::new();
    registry.register_bootstrapper(mock_source("postgres"), "bootstrap");
    assert!(registry.get_source("postgres").is_none());
    assert_eq!(registry.get_bootstrapper("postgres"), Some(&"bootstrap"));
    assert_eq!(registry.bootstrapper_kinds(), vec!["postgres"]);
    assert_eq!(registry.bootstrapper_plugin_infos().len(), 1);
    assert!(!registry.is_empty());
}
