use drasi_server::config::DrasiServerConfig;
use drasi_server::loader::{from_yaml_str, LoadError};
use drasi_server::models::{ConfigValue, DecodeError, Field};

#[test]
fn test_load_single_instance_config_format() {
    let config_yaml = r#"
id: my-server
host: localhost
port: 9090
logLevel: info
persistConfig: true
persistIndex: true
sources:
  - kind: mock
    id: test-source
    autoStart: true
queries:
  - id: test-query
    query: "MATCH (n) RETURN n"
    queryLanguage: Cypher
    sources:
      - sourceId: test-source
reactions:
  - kind: log
    id: test-reaction
    queries:
      - test-query
    autoStart: true
instances: []
"#;

    let config: DrasiServerConfig = from_yaml_str(config_yaml).expect("Failed to parse config");

    assert!(config.instances.is_empty(), "instances should be empty for single-instance format");
    assert_eq!(config.sources.len(), 1, "Should have 1 source at root");
    assert_eq!(config.queries.len(), 1, "Should have 1 query at root");
    assert_eq!(config.reactions.len(), 1, "Should have 1 reaction at root");
    assert!(config.persist_index, "persist_index should be true");
    assert!(config.persist_config, "persist_config should be true");
    assert_eq!(config.sources[0].id(), "test-source");
    assert_eq!(config.queries[0].id, "test-query");
    assert_eq!(config.reactions[0].id(), "test-reaction");
}

#[test]
fn test_load_multi_instance_config_format() {
    let config_yaml = r#"
host: 0.0.0.0
port: 8080
logLevel: debug
persistConfig: true
sources: []
queries: []
reactions: []
instances:
  - id: analytics
    persistIndex: true
    sources:
      - kind: mock
        id: analytics-source
        autoStart: true
    queries:
      - id: analytics-query
        query: "MATCH (n) RETURN n"
        queryLanguage: Cypher
        sources:
          - sourceId: analytics-source
    reactions:
      - kind: log
        id: analytics-reaction
        queries:
          - analytics-query
        autoStart: true
  - id: monitoring
    persistIndex: false
    sources:
      - kind: mock
        id: monitoring-source
        autoStart: false
    queries:
      - id: monitoring-query
        query: "MATCH (m) RETURN m"
        queryLanguage: Cypher
        sources:
          - sourceId: monitoring-source
    reactions: []
"#;

    let config: DrasiServerConfig = from_yaml_str(config_yaml).expect("Failed to parse config");

    assert_eq!(config.instances.len(), 2, "Should have 2 instances");
    assert!(config.sources.is_empty(), "Root sources should be empty");
    assert!(config.queries.is_empty(), "Root queries should be empty");
    assert!(config.reactions.is_empty(), "Root reactions should be empty");

    let analytics = &config.instances[0];
    match &analytics.id {
        ConfigValue::Static(id) => assert_eq!(id, "analytics"),
        _ => panic!("Expected static id"),
    }
    assert!(analytics.persist_index, "analytics should have persist_index=true");
    assert_eq!(analytics.sources.len(), 1);
    assert_eq!(analytics.queries.len(), 1);
    assert_eq!(analytics.reactions.len(), 1);

    let monitoring = &config.instances[1];
    match &monitoring.id {
        ConfigValue::Static(id) => assert_eq!(id, "monitoring"),
        _ => panic!("Expected static id"),
    }
    assert!(!monitoring.persist_index, "monitoring should have persist_index=false");
    assert_eq!(monitoring.sources.len(), 1);
    assert_eq!(monitoring.queries.len(), 1);
    assert_eq!(monitoring.reactions.len(), 0);
}

#[test]
fn loader_errors_name_the_failing_part() {
    // Not YAML at all.
    assert!(matches!(from_yaml_str("key: [unclosed"), Err(LoadError::Syntax(_))));
    // A template that does not compile.
    let bad_template = r#"
reactions:
  - kind: log
    id: r
    queries: [q]
    defaultTemplate:
      added:
        template: "{{x"
"#;
    assert!(matches!(from_yaml_str(bad_template), Err(LoadError::Template(_))));
    // A tagged value has no JSON form.
    assert!(matches!(from_yaml_str("id: !Tagged value"), Err(LoadError::Decode(DecodeError::NotJson))));
    // The document is not a map.
    assert!(matches!(from_yaml_str("- a\n- b"), Err(LoadError::Decode(DecodeError::NotAMap))));
    // A repeated list item that is not a map is reported with its position.
    match from_yaml_str("sources: [1]") {
        Err(LoadError::Decode(DecodeError::InItem { field, index, cause })) => {
            assert_eq!(field, Field::Sources);
            assert_eq!(index, 0);
            assert_eq!(*cause, DecodeError::NotAMap);
        }
        _ => panic!("expected an item error"),
    }
    // Values of the wrong type.
    assert!(matches!(
        from_yaml_str("persistConfig: yes please"),
        Err(LoadError::Decode(DecodeError::InvalidType(Field::PersistConfig)))
    ));
    assert!(matches!(from_yaml_str("port: 70000"), Err(LoadError::Decode(DecodeError::InvalidType(Field::Port)))));
    // A query without its query text.
    match from_yaml_str("queries:\n  - id: q") {
        Err(LoadError::Decode(DecodeError::InItem { field, index, cause })) => {
            assert_eq!(field, Field::Queries);
            assert_eq!(index, 0);
            assert_eq!(*cause, DecodeError::MissingField(Field::Query));
        }
        _ => panic!("expected an item error"),
    }
}

#[test]
fn loader_defaults_and_nulls() {
    let config = from_yaml_str("{}").unwrap();
    assert_eq!(config.host, ConfigValue::Static("0.0.0.0".to_string()));
    assert_eq!(config.port, ConfigValue::Static(8080));
    assert_eq!(config.log_level, ConfigValue::Static("info".to_string()));
    assert!(config.persist_config);
    assert_eq!(config.plugin_registry, Some("ghcr.io/drasi-project".to_string()));
    assert!(matches!(config.id, ConfigValue::Static(ref s) if s.len() == 36));
    // An explicit null registry means no registry.
    let config = from_yaml_str("pluginRegistry: null").unwrap();
    assert_eq!(config.plugin_registry, None);
    // Instances without ids get fresh ones, different from each other.
    let config = from_yaml_str("instances:\n  - persistIndex: true\n  - persistIndex: false").unwrap();
    assert_ne!(config.instances[0].id, config.instances[1].id);
}

#[test]
fn written_configuration_reads_back() {
    let yaml = r#"
apiVersion: drasi.io/v1
id: server-1
host: "${HOST:-0.0.0.0}"
port: 9000
logLevel: debug
persistConfig: false
defaultPriorityQueueCapacity: 5000
sources:
  - kind: mock
    id: s1
queries:
  - id: q1
    query: "MATCH (n) RETURN n"
reactions:
  - kind: log
    id: r1
    queries: [q1]
plugins:
  - ref: source/postgres:0.1.8
trustedIdentities:
  - issuer: https://token.actions.githubusercontent.com
    subjectPattern: https://github.com/drasi-project/*
"#;
    let config = from_yaml_str(yaml).unwrap();
    let again = from_yaml_str(&config.to_yaml().unwrap()).unwrap();
    assert_eq!(config, again);
}
