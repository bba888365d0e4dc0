use drasi_server::config::{DrasiServerConfig, PluginDependency};
use drasi_server::loader::from_yaml_str;
use drasi_server::models::ConfigValue;
use drasi_server::resolve::Env;
use drasi_server::state_store::StateStoreConfig;

fn parse(yaml: &str) -> DrasiServerConfig {
    from_yaml_str(yaml).unwrap()
}

fn no_env() -> Env {
    Env::new(Vec::new())
}

// ==================== persist_index tests ====================

#[test]
fn test_persist_index_default_is_false() {
    let config = DrasiServerConfig::default();
    assert!(!config.persist_index, "persist_index should default to false");
}

#[test]
fn test_persist_index_deserialize_true() {
    let yaml = r#"
            id: test-server
            host: 0.0.0.0
            port: 8080
            persistIndex: true
        "#;

    let config = parse(yaml);
    assert!(config.persist_index, "persist_index should be true when explicitly set");
}

#[test]
fn test_persist_index_deserialize_false() {
    let yaml = r#"
            id: test-server
            host: 0.0.0.0
            port: 8080
            persistIndex: false
        "#;

    let config = parse(yaml);
    assert!(!config.persist_index, "persist_index should be false when explicitly set");
}

#[test]
fn test_persist_index_defaults_when_omitted() {
    let yaml = r#"
            id: test-server
            host: 0.0.0.0
            port: 8080
        "#;

    let config = parse(yaml);
    assert!(!config.persist_index, "persist_index should default to false when omitted from YAML");
}

#[test]
fn test_persist_index_serialization_roundtrip_true() {
    let config = DrasiServerConfig { api_version: None, persist_index: true, ..Default::default() };

    let yaml = config.to_yaml().unwrap();
    assert!(yaml.contains("persistIndex: true"), "Serialized YAML should contain 'persistIndex: true'");

    let deserialized = parse(&yaml);
    assert!(deserialized.persist_index, "Deserialized config should have persist_index = true");
}

#[test]
fn test_persist_index_serialization_roundtrip_false() {
    let config = DrasiServerConfig { api_version: None, persist_index: false, ..Default::default() };

    let yaml = config.to_yaml().unwrap();
    let deserialized = parse(&yaml);
    assert!(!deserialized.persist_index, "Deserialized config should have persist_index = false");
}

#[test]
fn test_persist_index_with_other_settings() {
    let yaml = r#"
            id: my-production-server
            host: 192.168.1.100
            port: 9090
            logLevel: debug
            persistConfig: false
            persistIndex: true
            sources: []
            queries: []
            reactions: []
        "#;

    let config = parse(yaml);
    assert!(config.persist_index);
    assert!(!config.persist_config);
    match &config.log_level {
        ConfigValue::Static(level) => assert_eq!(level, "debug"),
        _ => panic!("Expected static log_level"),
    }
}

#[test]
fn test_persist_config_default_is_true() {
    let config = DrasiServerConfig::default();
    assert!(config.persist_config, "persist_config should default to true");
}

// ==================== DrasiServerConfig validation tests ====================

#[test]
fn test_config_validation_succeeds_with_persist_index() {
    let yaml = r#"
            id: test-server
            host: 0.0.0.0
            port: 8080
            logLevel: info
            persistIndex: true
        "#;

    let config = parse(yaml);
    assert!(
        config.validate(&no_env(), false).is_ok(),
        "Config with persist_index: true should validate successfully"
    );
}

#[test]
fn test_save_to_file_includes_persist_index() {
    let config = DrasiServerConfig { api_version: None, persist_index: true, ..Default::default() };

    let content = config.to_yaml().unwrap();
    assert!(content.contains("persistIndex: true"), "Saved file should contain persistIndex setting");
}

// ==================== state_store tests ====================

#[test]
fn test_state_store_default_is_none() {
    let config = DrasiServerConfig::default();
    assert!(config.state_store.is_none(), "state_store should default to None");
}

#[test]
fn test_state_store_deserialize_redb() {
    let yaml = r#"
            id: test-server
            host: 0.0.0.0
            port: 8080
            stateStore:
              kind: redb
              path: ./data/state.redb
        "#;

    let config = parse(yaml);
    assert!(config.state_store.is_some());
    let state_store = config.state_store.unwrap();
    assert_eq!(state_store.kind(), "redb");
}

#[test]
fn test_state_store_defaults_when_omitted() {
    let yaml = r#"
            id: test-server
            host: 0.0.0.0
            port: 8080
        "#;

    let config = parse(yaml);
    assert!(config.state_store.is_none(), "state_store should default to None when omitted from YAML");
}

#[test]
fn types_test_state_store_serialization_roundtrip() {
    let config = DrasiServerConfig {
        api_version: None,
        state_store: Some(StateStoreConfig::redb("./data/test.redb".to_string())),
        ..Default::default()
    };

    let yaml = config.to_yaml().unwrap();
    assert!(yaml.contains("stateStore:"), "Serialized YAML should contain 'stateStore:'");
    assert!(yaml.contains("kind: redb"), "Serialized YAML should contain 'kind: redb'");

    let deserialized = parse(&yaml);
    assert!(deserialized.state_store.is_some(), "Deserialized config should have state_store");
    assert_eq!(deserialized.state_store.as_ref().unwrap().kind(), "redb");
}

#[test]
fn types_test_state_store_with_env_var_path() {
    let yaml = r#"
            id: test-server
            host: 0.0.0.0
            port: 8080
            stateStore:
              kind: redb
              path: ${STATE_STORE_PATH:-./data/default.redb}
        "#;

    let config = parse(yaml);
    assert!(config.state_store.is_some());
}

#[test]
fn test_state_store_with_other_settings() {
    let yaml = r#"
            id: my-production-server
            host: 192.168.1.100
            port: 9090
            logLevel: debug
            persistConfig: false
            persistIndex: true
            stateStore:
              kind: redb
              path: /var/lib/drasi/state.redb
            sources: []
            queries: []
            reactions: []
        "#;

    let config = parse(yaml);
    assert!(config.state_store.is_some());
    assert!(config.persist_index);
    assert!(!config.persist_config);
}

#[test]
fn test_state_store_in_instance_config() {
    let yaml = r#"
            id: multi-instance-server
            host: 0.0.0.0
            port: 8080
            instances:
              - id: instance-1
                persistIndex: true
                stateStore:
                  kind: redb
                  path: ./data/instance1.redb
                sources: []
                queries: []
                reactions: []
              - id: instance-2
                persistIndex: false
                sources: []
                queries: []
                reactions: []
        "#;

    let config = parse(yaml);
    assert_eq!(config.instances.len(), 2);
    assert!(config.instances[0].state_store.is_some());
    assert_eq!(config.instances[0].state_store.as_ref().unwrap().kind(), "redb");
    assert!(config.instances[1].state_store.is_none());
}

#[test]
fn test_resolved_instance_includes_state_store() {
    let yaml = r#"
            id: test-server
            host: 0.0.0.0
            port: 8080
            stateStore:
              kind: redb
              path: ./data/state.redb
        "#;

    let config = parse(yaml);
    let resolved = config.resolved_instances(&no_env()).unwrap();

    assert_eq!(resolved.len(), 1);
    assert!(resolved[0].state_store.is_some());
    assert_eq!(resolved[0].state_store.as_ref().unwrap().kind(), "redb");
}

#[test]
fn test_config_validation_succeeds_with_state_store() {
    let yaml = r#"
            id: test-server
            host: 0.0.0.0
            port: 8080
            logLevel: info
            stateStore:
              kind: redb
              path: ./data/state.redb
        "#;

    let config = parse(yaml);
    assert!(config.validate(&no_env(), false).is_ok(), "Config with state_store should validate successfully");
}

#[test]
fn test_save_to_file_includes_state_store() {
    let config = DrasiServerConfig {
        api_version: None,
        state_store: Some(StateStoreConfig::redb("./data/saved.redb".to_string())),
        ..Default::default()
    };

    let content = config.to_yaml().unwrap();
    assert!(content.contains("stateStore:"), "Saved file should contain stateStore setting");
    assert!(content.contains("kind: redb"), "Saved file should contain kind: redb");
}

#[test]
fn test_save_to_file_omits_none_state_store() {
    let config = DrasiServerConfig { api_version: None, state_store: None, ..Default::default() };

    let content = config.to_yaml().unwrap();
    assert!(!content.contains("stateStore:"), "Saved file should not contain stateStore when None");
}

// ==================== plugin registry config tests ====================

#[test]
fn test_plugin_registry_defaults() {
    let config = DrasiServerConfig::default();
    assert_eq!(config.plugin_registry, Some("ghcr.io/drasi-project".to_string()));
    assert!(!config.auto_install_plugins);
    assert!(config.plugins.is_empty());
}

#[test]
fn test_plugin_registry_deserialization() {
    let yaml = r#"
            id: test-server
            host: 0.0.0.0
            port: 8080
            pluginRegistry: ghcr.io/my-org
            autoInstallPlugins: true
            plugins:
              - ref: source/postgres
              - ref: source/http:0.1.7
              - ref: ghcr.io/acme-corp/custom-source:1.0.0
        "#;

    let config = parse(yaml);
    assert_eq!(config.plugin_registry, Some("ghcr.io/my-org".to_string()));
    assert!(config.auto_install_plugins);
    assert_eq!(config.plugins.len(), 3);
    assert_eq!(config.plugins[0].reference, "source/postgres");
    assert_eq!(config.plugins[1].reference, "source/http:0.1.7");
    assert_eq!(config.plugins[2].reference, "ghcr.io/acme-corp/custom-source:1.0.0");
}

#[test]
fn test_plugin_registry_serialization_roundtrip() {
    let config = DrasiServerConfig {
        api_version: None,
        plugin_registry: Some("ghcr.io/custom".to_string()),
        auto_install_plugins: true,
        plugins: vec![PluginDependency { reference: "source/postgres:0.1.8".to_string() }],
        ..Default::default()
    };

    let yaml = config.to_yaml().unwrap();
    assert!(yaml.contains("pluginRegistry:"));
    assert!(yaml.contains("autoInstallPlugins: true"));
    assert!(yaml.contains("source/postgres:0.1.8"));

    let deserialized = parse(&yaml);
    assert_eq!(deserialized.plugin_registry, Some("ghcr.io/custom".to_string()));
    assert!(deserialized.auto_install_plugins);
    assert_eq!(deserialized.plugins.len(), 1);
}

#[test]
fn test_plugin_registry_omitted_in_yaml_uses_defaults() {
    let yaml = r#"
            id: test-server
            host: 0.0.0.0
            port: 8080
        "#;

    let config = parse(yaml);
    assert_eq!(config.plugin_registry, Some("ghcr.io/drasi-project".to_string()));
    assert!(!config.auto_install_plugins);
    assert!(config.plugins.is_empty());
}
