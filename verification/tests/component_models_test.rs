use drasi_server::json::{parse_json, write_json, JsonValue};
use drasi_server::models::{BootstrapProviderConfig, ConfigValue, DecodeError, Field, SourceConfig};
use drasi_server::reaction::ReactionConfig;
use drasi_server::state_store::StateStoreConfig;
use drasi_server::writer::store_to_json;
use drasi_server::yaml::{parse_yaml, yaml_to_json};

fn entries(v: JsonValue) -> Vec<(String, JsonValue)> {
    match v {
        JsonValue::Object(e) => e,
        _ => panic!("expected a map"),
    }
}

fn json(text: &str) -> Vec<(String, JsonValue)> {
    entries(parse_json(text).unwrap())
}

fn yaml(text: &str) -> Vec<(String, JsonValue)> {
    entries(yaml_to_json(&parse_yaml(text).unwrap()).unwrap())
}

fn get<'a>(v: &'a JsonValue, k: &str) -> &'a JsonValue {
    match v {
        JsonValue::Object(e) => &e.iter().find(|(x, _)| x == k).unwrap_or_else(|| panic!("no key {k}")).1,
        _ => panic!("expected a map"),
    }
}

fn at(v: &JsonValue, i: usize) -> &JsonValue {
    match v {
        JsonValue::Array(items) => &items[i],
        _ => panic!("expected a list"),
    }
}

fn text(v: &JsonValue) -> &str {
    match v {
        JsonValue::String(s) => s.as_str(),
        other => panic!("expected a string, got {other:?}"),
    }
}

fn number(v: &JsonValue) -> &str {
    match v {
        JsonValue::Number(s) => s.as_str(),
        other => panic!("expected a number, got {other:?}"),
    }
}

fn source(text: &str) -> Result<SourceConfig, DecodeError> {
    SourceConfig::from_entries(&json(text))
}

fn reaction(text: &str) -> Result<ReactionConfig, DecodeError> {
    ReactionConfig::from_entries(&json(text))
}

fn store(text: &str) -> Result<StateStoreConfig, DecodeError> {
    StateStoreConfig::from_entries(&json(text))
}

// ==================== Bootstrap providers ====================

#[test]
fn test_missing_kind_field() {
    let result = BootstrapProviderConfig::from_json(parse_json(r#"{"filePaths": ["/test.jsonl"]}"#).unwrap());
    assert!(result.is_err());
    let err = result.unwrap_err();
    assert_eq!(err, DecodeError::MissingField(Field::Kind));
    assert!(err.message().contains("missing field `kind`"));
}

#[test]
fn test_yaml_deserialization() {
    let text = r#"
kind: scriptfile
filePaths:
  - /data/file1.jsonl
  - /data/file2.jsonl
"#;
    let config =
        BootstrapProviderConfig::from_json(yaml_to_json(&parse_yaml(text).unwrap()).unwrap()).unwrap();
    assert_eq!(config.kind(), "scriptfile");
    assert_eq!(self::text(at(get(&config.config, "filePaths"), 0)), "/data/file1.jsonl");
    assert_eq!(self::text(at(get(&config.config, "filePaths"), 1)), "/data/file2.jsonl");
}

#[test]
fn test_serialization_roundtrip() {
    let config = BootstrapProviderConfig {
        kind: "scriptfile".to_string(),
        config: JsonValue::Object(vec![(
            "filePaths".to_string(),
            JsonValue::Array(vec![JsonValue::String("/test.jsonl".to_string())]),
        )]),
    };
    let written = write_json(&JsonValue::Object(config.to_entries())).unwrap();
    assert!(written.contains("\"kind\":\"scriptfile\""));
    assert!(written.contains("\"filePaths\""));

    let deserialized = BootstrapProviderConfig::from_json(parse_json(&written).unwrap()).unwrap();
    assert_eq!(config, deserialized);
}

// ==================== Sources ====================

#[test]
fn test_source_deserialize_mock_minimal() {
    let source = source(r#"{ "kind": "mock", "id": "test-source" }"#).unwrap();
    assert_eq!(source.id(), "test-source");
    assert!(source.auto_start());
}

#[test]
fn test_source_deserialize_auto_start_defaults_true() {
    let source = source(r#"{ "kind": "mock", "id": "test-source" }"#).unwrap();
    assert!(source.auto_start());
}

#[test]
fn test_source_deserialize_auto_start_explicit_false() {
    let source = source(r#"{ "kind": "mock", "id": "test-source", "autoStart": false }"#).unwrap();
    assert!(!source.auto_start());
}

#[test]
fn test_source_deserialize_http_valid() {
    let source = source(
        r#"{
            "kind": "http",
            "id": "http-source",
            "autoStart": true,
            "host": "localhost",
            "port": 8080,
            "timeoutMs": 5000
        }"#,
    )
    .unwrap();
    assert_eq!(source.id(), "http-source");
    assert_eq!(source.kind(), "http");
}

#[test]
fn test_source_deserialize_grpc_valid() {
    let source =
        source(r#"{ "kind": "grpc", "id": "grpc-source", "endpoint": "http://localhost:50051" }"#).unwrap();
    assert_eq!(source.id(), "grpc-source");
    assert_eq!(source.kind(), "grpc");
}

#[test]
fn test_source_deserialize_postgres_valid() {
    let source = source(
        r#"{
            "kind": "postgres",
            "id": "pg-source",
            "host": "localhost",
            "port": 5432,
            "database": "testdb",
            "user": "postgres",
            "password": "secret",
            "slotName": "test_slot",
            "publicationName": "test_pub"
        }"#,
    )
    .unwrap();
    assert_eq!(source.id(), "pg-source");
    assert_eq!(source.kind(), "postgres");
}

#[test]
fn test_source_deserialize_platform_valid() {
    let source = source(
        r#"{
            "kind": "platform",
            "id": "platform-source",
            "redisUrl": "redis://localhost:6379",
            "streamKey": "events"
        }"#,
    )
    .unwrap();
    assert_eq!(source.id(), "platform-source");
    assert_eq!(source.kind(), "platform");
}

#[test]
fn test_source_deserialize_missing_kind() {
    let result = source(r#"{ "id": "test-source" }"#);
    assert!(result.is_err());
    assert_eq!(result.unwrap_err(), DecodeError::MissingField(Field::Kind));
}

#[test]
fn test_source_deserialize_missing_id() {
    let result = source(r#"{ "kind": "mock" }"#);
    assert!(result.is_err());
    assert_eq!(result.unwrap_err(), DecodeError::MissingField(Field::Id));
}

#[test]
fn test_source_deserialize_unknown_kind_accepted() {
    let source = source(r#"{ "kind": "unknown-source-type", "id": "test-source" }"#).unwrap();
    assert_eq!(source.kind(), "unknown-source-type");
    assert_eq!(source.id(), "test-source");
}

#[test]
fn test_source_deserialize_extra_fields_stored_in_config() {
    let source = source(r#"{ "kind": "mock", "id": "test-source", "extraField": "value" }"#).unwrap();
    assert_eq!(source.id(), "test-source");
    assert_eq!(text(get(&source.config, "extraField")), "value");
}

#[test]
fn test_source_deserialize_unknown_kind_accepted_at_deser() {
    let source = source(r#"{ "kind": "unknown-source-type", "id": "test-source" }"#).unwrap();
    assert_eq!(source.kind(), "unknown-source-type");
    assert_eq!(source.id(), "test-source");
}

#[test]
fn test_source_deserialize_unknown_field_stored_in_config() {
    let source = source(r#"{ "kind": "mock", "id": "test-source", "unknownField": "value" }"#).unwrap();
    assert_eq!(source.id(), "test-source");
    assert_eq!(text(get(&source.config, "unknownField")), "value");
}

#[test]
fn test_source_deserialize_snake_case_auto_start_rejected() {
    let result = source(r#"{ "kind": "mock", "id": "test-source", "auto_start": true }"#);
    assert!(result.is_err());
    // The error names the misspelled field, whose right spelling is `autoStart`.
    let err = result.unwrap_err();
    assert_eq!(err, DecodeError::MisspelledField(Field::AutoStart));
    assert_eq!(Field::AutoStart.name(), "autoStart");
    assert!(err.message().contains("auto_start"));
    assert!(err.message().contains("autoStart"));
}

#[test]
fn test_source_deserialize_snake_case_data_type_stored_in_config() {
    let source = source(r#"{ "kind": "mock", "id": "test-source", "data_type": "sensor" }"#).unwrap();
    assert_eq!(source.id(), "test-source");
    assert_eq!(text(get(&source.config, "data_type")), "sensor");
}

#[test]
fn test_source_deserialize_extra_field_stored_with_kind_context() {
    let source = source(r#"{ "kind": "mock", "id": "my-unique-source", "badField": "value" }"#).unwrap();
    assert_eq!(source.id(), "my-unique-source");
    assert_eq!(source.kind(), "mock");
    assert_eq!(text(get(&source.config, "badField")), "value");
}

#[test]
fn test_source_deserialize_kind_preserved() {
    let source = source(r#"{ "kind": "mock", "id": "test-source", "badField": "value" }"#).unwrap();
    assert_eq!(source.kind(), "mock");
}

#[test]
fn test_source_deserialize_with_bootstrap_provider() {
    let source =
        source(r#"{ "kind": "mock", "id": "test-source", "bootstrapProvider": { "kind": "noop" } }"#).unwrap();
    assert_eq!(source.id(), "test-source");
    assert!(source.bootstrap_provider().is_some());
}

#[test]
fn test_bootstrap_provider_inherits_postgres_fields() {
    let text_in = r#"
kind: postgres
id: source-with-bootstrap
host: localhost
port: 5432
database: drasi
user: drasi_user
password: drasi_pass
slotName: drasi_slot
publicationName: drasi_pub
bootstrapProvider:
  kind: postgres
"#;

    let source = SourceConfig::from_entries(&yaml(text_in)).unwrap();
    let bp = source.bootstrap_provider().expect("Expected bootstrap provider");
    assert_eq!(bp.kind(), "postgres");
    assert_eq!(text(get(&bp.config, "host")), "localhost");
    assert_eq!(number(get(&bp.config, "port")), "5432");
    assert_eq!(text(get(&bp.config, "database")), "drasi");
    assert_eq!(text(get(&bp.config, "user")), "drasi_user");
    assert_eq!(text(get(&bp.config, "password")), "drasi_pass");
    assert_eq!(text(get(&bp.config, "slotName")), "drasi_slot");
    assert_eq!(text(get(&bp.config, "publicationName")), "drasi_pub");
}

#[test]
fn test_bootstrap_provider_postgres_override() {
    let text_in = r#"
kind: postgres
id: source-with-bootstrap
host: localhost
port: 5432
database: drasi
user: drasi_user
password: drasi_pass
slotName: drasi_slot
publicationName: drasi_pub
bootstrapProvider:
  kind: postgres
  database: bootstrap_db
  user: bootstrap_user
"#;

    let source = SourceConfig::from_entries(&yaml(text_in)).unwrap();
    let bp = source.bootstrap_provider().expect("Expected bootstrap provider");
    assert_eq!(bp.kind(), "postgres");
    assert_eq!(text(get(&bp.config, "database")), "bootstrap_db");
    assert_eq!(text(get(&bp.config, "user")), "bootstrap_user");
    assert_eq!(text(get(&bp.config, "password")), "drasi_pass");
}

#[test]
fn test_source_deserialize_yaml_format() {
    let text_in = r#"
kind: mock
id: yaml-source
autoStart: true
dataType:
  type: sensorReading
intervalMs: 1000
"#;

    let source = SourceConfig::from_entries(&yaml(text_in)).unwrap();
    assert_eq!(source.id(), "yaml-source");
    assert!(source.auto_start());
}

// ==================== Reactions ====================

#[test]
fn test_reaction_deserialize_log_valid() {
    let reaction =
        reaction(r#"{ "kind": "log", "id": "test-log", "queries": ["query1", "query2"], "autoStart": true }"#)
            .unwrap();
    assert_eq!(reaction.id(), "test-log");
    assert_eq!(reaction.queries(), &["query1", "query2"]);
    assert!(reaction.auto_start());
    assert_eq!(reaction.kind(), "log");
}

#[test]
fn test_reaction_deserialize_log_minimal() {
    let reaction = reaction(r#"{ "kind": "log", "id": "test-log", "queries": ["query1"] }"#).unwrap();
    assert_eq!(reaction.id(), "test-log");
    assert!(reaction.auto_start());
}

#[test]
fn test_reaction_deserialize_auto_start_defaults_true() {
    let reaction = reaction(r#"{ "kind": "log", "id": "test-log", "queries": ["query1"] }"#).unwrap();
    assert!(reaction.auto_start());
}

#[test]
fn test_reaction_deserialize_auto_start_explicit_false() {
    let reaction =
        reaction(r#"{ "kind": "log", "id": "test-log", "queries": ["query1"], "autoStart": false }"#).unwrap();
    assert!(!reaction.auto_start());
}

#[test]
fn test_reaction_deserialize_http_valid() {
    let reaction = reaction(
        r#"{
            "kind": "http",
            "id": "http-reaction",
            "queries": ["query1"],
            "baseUrl": "http://localhost:8080",
            "timeoutMs": 5000,
            "routes": {}
        }"#,
    )
    .unwrap();
    assert_eq!(reaction.id(), "http-reaction");
    assert_eq!(reaction.kind(), "http");
}

#[test]
fn test_reaction_deserialize_http_adaptive_valid() {
    let reaction = reaction(
        r#"{
            "kind": "http-adaptive",
            "id": "http-adaptive-reaction",
            "queries": ["query1"],
            "baseUrl": "http://localhost:8080",
            "timeoutMs": 5000,
            "routes": {}
        }"#,
    )
    .unwrap();
    assert_eq!(reaction.id(), "http-adaptive-reaction");
    assert_eq!(reaction.kind(), "http-adaptive");
}

#[test]
fn test_reaction_deserialize_grpc_valid() {
    let reaction = reaction(
        r#"{ "kind": "grpc", "id": "grpc-reaction", "queries": ["query1"], "endpoint": "http://localhost:50051" }"#,
    )
    .unwrap();
    assert_eq!(reaction.id(), "grpc-reaction");
    assert_eq!(reaction.kind(), "grpc");
}

#[test]
fn test_reaction_deserialize_grpc_adaptive_valid() {
    let reaction = reaction(
        r#"{ "kind": "grpc-adaptive", "id": "grpc-adaptive-reaction", "queries": ["query1"], "endpoint": "http://localhost:50051" }"#,
    )
    .unwrap();
    assert_eq!(reaction.id(), "grpc-adaptive-reaction");
    assert_eq!(reaction.kind(), "grpc-adaptive");
}

#[test]
fn test_reaction_deserialize_sse_valid() {
    let reaction = reaction(r#"{ "kind": "sse", "id": "sse-reaction", "queries": ["query1"] }"#).unwrap();
    assert_eq!(reaction.id(), "sse-reaction");
    assert_eq!(reaction.kind(), "sse");
}

#[test]
fn test_reaction_deserialize_platform_valid() {
    let reaction = reaction(
        r#"{ "kind": "platform", "id": "platform-reaction", "queries": ["query1"], "redisUrl": "redis://localhost:6379" }"#,
    )
    .unwrap();
    assert_eq!(reaction.id(), "platform-reaction");
    assert_eq!(reaction.kind(), "platform");
}

#[test]
fn test_reaction_deserialize_profiler_valid() {
    let reaction = reaction(r#"{ "kind": "profiler", "id": "profiler-reaction", "queries": ["query1"] }"#).unwrap();
    assert_eq!(reaction.id(), "profiler-reaction");
    assert_eq!(reaction.kind(), "profiler");
}

#[test]
fn test_reaction_deserialize_missing_kind() {
    let result = reaction(r#"{ "id": "test-reaction", "queries": ["query1"] }"#);
    assert!(result.is_err());
    assert_eq!(result.unwrap_err(), DecodeError::MissingField(Field::Kind));
}

#[test]
fn test_reaction_deserialize_missing_id() {
    let result = reaction(r#"{ "kind": "log", "queries": ["query1"] }"#);
    assert!(result.is_err());
    assert_eq!(result.unwrap_err(), DecodeError::MissingField(Field::Id));
}

#[test]
fn test_reaction_deserialize_missing_queries() {
    let result = reaction(r#"{ "kind": "log", "id": "test-reaction" }"#);
    assert!(result.is_err());
    assert_eq!(result.unwrap_err(), DecodeError::MissingField(Field::Queries));
}

#[test]
fn test_reaction_deserialize_unknown_kind_accepted() {
    let reaction =
        reaction(r#"{ "kind": "unknown-reaction-type", "id": "test-reaction", "queries": ["query1"] }"#).unwrap();
    assert_eq!(reaction.kind(), "unknown-reaction-type");
}

#[test]
fn test_reaction_deserialize_extra_fields_stored_in_config() {
    let reaction = reaction(
        r#"{ "kind": "log", "id": "test-reaction", "queries": ["query1"], "extraField": "value" }"#,
    )
    .unwrap();
    assert_eq!(text(get(&reaction.config, "extraField")), "value");
}

#[test]
fn test_reaction_deserialize_unknown_kind_accepted_at_deser() {
    let reaction =
        reaction(r#"{ "kind": "unknown-reaction-type", "id": "test-reaction", "queries": ["query1"] }"#).unwrap();
    assert_eq!(reaction.kind(), "unknown-reaction-type");
    assert_eq!(reaction.id(), "test-reaction");
}

#[test]
fn test_reaction_deserialize_unknown_field_stored_in_config() {
    let reaction = reaction(
        r#"{ "kind": "log", "id": "test-reaction", "queries": ["query1"], "unknownField": "value" }"#,
    )
    .unwrap();
    assert_eq!(reaction.id(), "test-reaction");
    assert_eq!(text(get(&reaction.config, "unknownField")), "value");
}

#[test]
fn test_reaction_deserialize_snake_case_auto_start_rejected() {
    let result =
        reaction(r#"{ "kind": "log", "id": "test-reaction", "queries": ["query1"], "auto_start": true }"#);
    assert!(result.is_err());
    assert_eq!(result.unwrap_err(), DecodeError::MisspelledField(Field::AutoStart));
    assert_eq!(Field::AutoStart.name(), "autoStart");
}

#[test]
fn test_reaction_deserialize_extra_field_stored_with_id_context() {
    let reaction = reaction(
        r#"{ "kind": "log", "id": "my-unique-reaction", "queries": ["query1"], "badField": "value" }"#,
    )
    .unwrap();
    assert_eq!(reaction.id(), "my-unique-reaction");
    assert_eq!(text(get(&reaction.config, "badField")), "value");
}

#[test]
fn test_reaction_deserialize_kind_preserved() {
    let reaction = reaction(
        r#"{ "kind": "log", "id": "test-reaction", "queries": ["query1"], "badField": "value" }"#,
    )
    .unwrap();
    assert_eq!(reaction.kind(), "log");
}

#[test]
fn test_reaction_deserialize_yaml_format() {
    let text_in = r#"
kind: log
id: yaml-reaction
queries:
  - query1
  - query2
autoStart: true
"#;

    let reaction = ReactionConfig::from_entries(&yaml(text_in)).unwrap();
    assert_eq!(reaction.id(), "yaml-reaction");
    assert_eq!(reaction.queries(), &["query1", "query2"]);
    assert!(reaction.auto_start());
}

#[test]
fn test_reaction_deserialize_empty_queries() {
    let reaction = reaction(r#"{ "kind": "log", "id": "test-reaction", "queries": [] }"#).unwrap();
    assert!(reaction.queries().is_empty());
}

// ==================== Round trips ====================

#[test]
fn test_source_serialize_deserialize_roundtrip() {
    let original = SourceConfig {
        kind: "mock".to_string(),
        id: "roundtrip-source".to_string(),
        auto_start: false,
        bootstrap_provider: None,
        config: parse_json(r#"{ "dataType": { "type": "sensorReading", "sensorCount": 5 }, "intervalMs": 1000 }"#)
            .unwrap(),
    };

    let written = write_json(&JsonValue::Object(original.to_entries())).unwrap();
    let deserialized = source(&written).unwrap();

    assert_eq!(deserialized.id(), "roundtrip-source");
    assert!(!deserialized.auto_start());
}

#[test]
fn test_reaction_serialize_deserialize_roundtrip() {
    let original = ReactionConfig {
        kind: "log".to_string(),
        id: "roundtrip-reaction".to_string(),
        queries: vec!["q1".to_string(), "q2".to_string()],
        auto_start: false,
        config: parse_json(r#"{"routes": {}}"#).unwrap(),
    };

    let written = write_json(&JsonValue::Object(original.to_entries())).unwrap();
    let deserialized = reaction(&written).unwrap();

    assert_eq!(deserialized.id(), "roundtrip-reaction");
    assert_eq!(deserialized.queries(), &["q1", "q2"]);
    assert!(!deserialized.auto_start());
}

// ==================== Edge cases ====================

#[test]
fn test_source_deserialize_duplicate_field_rejected() {
    // The map `{"kind": "mock", "id": "first-id", "id": "second-id"}`, whose
    // key `id` appears twice.
    let map = vec![
        ("kind".to_string(), JsonValue::String("mock".to_string())),
        ("id".to_string(), JsonValue::String("first-id".to_string())),
        ("id".to_string(), JsonValue::String("second-id".to_string())),
    ];
    let result = SourceConfig::from_entries(&map);
    assert!(result.is_err());
    assert_eq!(result.unwrap_err(), DecodeError::DuplicateField(Field::Id));
}

#[test]
fn test_source_deserialize_with_enum_data_type() {
    let source = source(
        r#"{ "kind": "mock", "id": "test-source", "dataType": { "type": "sensorReading", "sensorCount": 10 }, "intervalMs": 1000 }"#,
    )
    .unwrap();
    assert_eq!(source.id(), "test-source");
    assert_eq!(source.kind(), "mock");
    let config = &source.config;
    assert_eq!(text(get(get(config, "dataType"), "type")), "sensorReading");
    assert_eq!(number(get(get(config, "dataType"), "sensorCount")), "10");
}

#[test]
fn test_reaction_deserialize_with_env_var_syntax() {
    let reaction = reaction(
        r#"{
            "kind": "http",
            "id": "test-http",
            "queries": ["query1"],
            "baseUrl": "${BASE_URL:-http://localhost:8080}",
            "timeoutMs": 5000,
            "routes": {}
        }"#,
    )
    .unwrap();
    assert_eq!(reaction.id(), "test-http");
    assert_eq!(reaction.kind(), "http");
    assert_eq!(text(get(&reaction.config, "baseUrl")), "${BASE_URL:-http://localhost:8080}");
}

// ==================== State stores ====================

#[test]
fn test_state_store_deserialize_redb_valid() {
    let config = store(r#"{ "kind": "redb", "path": "./data/state.redb" }"#).unwrap();
    assert_eq!(config.kind(), "redb");
    let StateStoreConfig::Redb { path } = config;
    assert_eq!(path, ConfigValue::Static("./data/state.redb".to_string()));
}

#[test]
fn test_state_store_deserialize_redb_with_env_var() {
    let config = store(r#"{ "kind": "redb", "path": "${STATE_STORE_PATH:-./data/default.redb}" }"#).unwrap();
    assert_eq!(config.kind(), "redb");
    let StateStoreConfig::Redb { path } = config;
    assert!(
        matches!(
            &path,
            ConfigValue::EnvironmentVariable { name, default }
            if name == "STATE_STORE_PATH" && *default == Some("./data/default.redb".to_string())
        ),
        "Expected EnvironmentVariable variant, got {path:?}"
    );
}

#[test]
fn test_state_store_deserialize_missing_kind() {
    let result = store(r#"{ "path": "./data/state.redb" }"#);
    assert!(result.is_err());
    assert_eq!(result.unwrap_err(), DecodeError::MissingField(Field::Kind));
}

#[test]
fn test_state_store_deserialize_unknown_kind() {
    let result = store(r#"{ "kind": "unknown", "path": "./data/state.redb" }"#);
    assert!(result.is_err());
    assert_eq!(result.unwrap_err(), DecodeError::UnknownStateStoreKind("unknown".to_string()));
}

#[test]
fn test_state_store_deserialize_unknown_field_rejected() {
    let result = store(r#"{ "kind": "redb", "path": "./data/state.redb", "unknownField": "value" }"#);
    assert!(result.is_err(), "Unknown field should be rejected");
    assert_eq!(
        result.unwrap_err(),
        DecodeError::InRedbStateStore(Box::new(DecodeError::UnknownField("unknownField".to_string())))
    );
}

#[test]
fn test_state_store_deserialize_snake_case_rejected() {
    let result = store(r#"{ "kind": "redb", "file_path": "./data/state.redb" }"#);
    assert!(result.is_err(), "snake_case field should be rejected");
    assert_eq!(
        result.unwrap_err(),
        DecodeError::InRedbStateStore(Box::new(DecodeError::UnknownField("file_path".to_string())))
    );
}

#[test]
fn test_state_store_deserialize_error_has_context() {
    let result = store(r#"{ "kind": "redb", "path": "./data/state.redb", "unknownField": "value" }"#);
    assert!(result.is_err());
    // The error is reported within the redb state store's settings.
    let err = result.unwrap_err();
    assert!(matches!(err, DecodeError::InRedbStateStore(_)));
    assert!(err.message().contains("in stateStore (kind=redb)"));
    assert!(err.message().contains("unknown field"));
}

#[test]
fn test_state_store_serialize_deserialize_roundtrip() {
    let original = StateStoreConfig::redb("./data/roundtrip.redb".to_string());

    let written = write_json(&store_to_json(&original)).unwrap();
    let deserialized = store(&written).unwrap();

    assert_eq!(original.kind(), deserialized.kind());
    let StateStoreConfig::Redb { path: p1 } = &original;
    let StateStoreConfig::Redb { path: p2 } = &deserialized;
    assert_eq!(p1, p2);
}

#[test]
fn test_state_store_deserialize_yaml_format() {
    let text_in = r#"
kind: redb
path: ./data/state.redb
"#;

    let config = StateStoreConfig::from_entries(&yaml(text_in)).unwrap();
    assert_eq!(config.kind(), "redb");
}

#[test]
fn test_state_store_yaml_unknown_field_rejected() {
    let text_in = r#"
kind: redb
path: ./data/state.redb
unknownField: value
"#;

    let result = StateStoreConfig::from_entries(&yaml(text_in));
    assert!(result.is_err(), "Unknown field in YAML should be rejected");
}
