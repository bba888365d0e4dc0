use drasi_server::config::DrasiServerConfig;
use drasi_server::loader::from_yaml_str;
use drasi_server::models::ConfigValue;
use drasi_server::state_store::StateStoreConfig;

fn parse(yaml: &str) -> DrasiServerConfig {
    from_yaml_str(yaml).expect("Failed to parse config")
}

#[test]
fn test_state_store_config_redb_helper() {
    let config = StateStoreConfig::redb("./data/test.redb".to_string());
    assert_eq!(config.kind(), "redb");
}

#[test]
fn test_state_store_config_deserialization() {
    let yaml = r#"
        id: test-server
        host: 127.0.0.1
        port: 8080
        stateStore:
          kind: redb
          path: ./data/state.redb
    "#;

    let config = parse(yaml);
    assert!(config.state_store.is_some(), "state_store should be present");
    assert_eq!(config.state_store.as_ref().unwrap().kind(), "redb");
}

#[test]
fn test_state_store_config_default() {
    let yaml = r#"
        id: test-server
        host: 127.0.0.1
        port: 8080
    "#;

    let config = parse(yaml);
    assert!(config.state_store.is_none(), "state_store should default to None when not specified in config");
}

#[test]
fn test_state_store_with_full_config() {
    let yaml = r#"
        id: production-server
        host: 0.0.0.0
        port: 9090
        logLevel: debug
        persistConfig: true
        persistIndex: true
        stateStore:
          kind: redb
          path: /var/lib/drasi/state.redb
        sources: []
        queries: []
        reactions: []
    "#;

    let config = parse(yaml);

    assert!(config.state_store.is_some());
    assert_eq!(config.state_store.as_ref().unwrap().kind(), "redb");
    assert!(config.persist_index);
    assert!(config.persist_config);

    match &config.port {
        ConfigValue::Static(port) => assert_eq!(*port, 9090),
        _ => panic!("Expected static port value"),
    }
}

#[test]
fn state_store_test_test_state_store_serialization_roundtrip() {
    let original = DrasiServerConfig {
        api_version: None,
        state_store: Some(StateStoreConfig::redb("./data/test.redb".to_string())),
        ..Default::default()
    };

    let yaml = original.to_yaml().expect("Failed to serialize config");

    assert!(yaml.contains("stateStore:"), "Serialized config should contain 'stateStore:'");
    assert!(yaml.contains("kind: redb"), "Serialized config should contain 'kind: redb'");

    let deserialized = parse(&yaml);

    assert!(deserialized.state_store.is_some(), "Deserialized config should have state_store");
    assert_eq!(deserialized.state_store.as_ref().unwrap().kind(), "redb");
}

#[test]
fn state_store_test_test_state_store_with_env_var_path() {
    let yaml = r#"
        id: test-server
        host: 127.0.0.1
        port: 8080
        stateStore:
          kind: redb
          path: ${STATE_STORE_PATH:-./data/default.redb}
    "#;

    let config = parse(yaml);
    assert!(config.state_store.is_some());
}

#[test]
fn test_multi_instance_state_store_config() {
    let yaml = r#"
        id: multi-instance-server
        host: 0.0.0.0
        port: 8080
        instances:
          - id: instance-1
            persistIndex: true
            stateStore:
              kind: redb
              path: ./data/instance1-state.redb
            sources: []
            queries: []
            reactions: []
          - id: instance-2
            persistIndex: false
            stateStore:
              kind: redb
              path: ./data/instance2-state.redb
            sources: []
            queries: []
            reactions: []
          - id: instance-3
            persistIndex: false
            sources: []
            queries: []
            reactions: []
    "#;

    let config = parse(yaml);
    assert_eq!(config.instances.len(), 3);
    assert!(config.instances[0].state_store.is_some());
    assert!(config.instances[1].state_store.is_some());
    assert!(config.instances[2].state_store.is_none());

    match (&config.instances[0].state_store, &config.instances[1].state_store) {
        (Some(StateStoreConfig::Redb { path: p1 }), Some(StateStoreConfig::Redb { path: p2 })) => {
            if let (ConfigValue::Static(path1), ConfigValue::Static(path2)) = (p1, p2) {
                assert_ne!(path1, path2, "Instances should have different state store paths");
            }
        }
        _ => panic!("Expected both instances to have Redb state stores"),
    }
}
