use drasi_server::json::{parse_json, JsonValue};
use drasi_server::models::{DecodeError, Field, SourceConfig};
use drasi_server::reaction::ReactionConfig;
use drasi_server::yaml::{parse_yaml, yaml_to_json};

fn get<'a>(v: &'a JsonValue, k: &str) -> Option<&'a JsonValue> {
    match v {
        JsonValue::Object(e) => e.iter().find(|(x, _)| x == k).map(|(_, x)| x),
        _ => None,
    }
}

fn text(v: Option<&JsonValue>) -> Option<&str> {
    match v {
        Some(JsonValue::String(s)) => Some(s.as_str()),
        _ => None,
    }
}

fn number(v: Option<&JsonValue>) -> Option<&str> {
    match v {
        Some(JsonValue::Number(s)) => Some(s.as_str()),
        _ => None,
    }
}

fn yaml_entries(text: &str) -> Vec<(String, JsonValue)> {
    match yaml_to_json(&parse_yaml(text).unwrap()).unwrap() {
        JsonValue::Object(e) => e,
        _ => panic!("expected a map"),
    }
}

#[test]
fn test_source_config_mock_serializes_camelcase() {
    let source = SourceConfig {
        kind: "mock".to_string(),
        id: "test-mock".to_string(),
        auto_start: true,
        bootstrap_provider: None,
        config: parse_json(r#"{"dataType": {"type": "sensorReading", "sensorCount": 5}, "intervalMs": 1000}"#).unwrap(),
    };

    let json = JsonValue::Object(source.to_entries());

    assert!(get(&json, "id").is_some(), "id should exist");
    assert!(get(&json, "autoStart").is_some(), "autoStart should exist");
    assert!(get(&json, "auto_start").is_none(), "auto_start should NOT exist");
    assert!(get(&json, "dataType").is_some(), "dataType should exist");
    assert!(get(&json, "intervalMs").is_some(), "intervalMs should exist");
    assert!(get(&json, "data_type").is_none(), "data_type should NOT exist");
    assert!(get(&json, "interval_ms").is_none(), "interval_ms should NOT exist");

    assert_eq!(text(get(&json, "id")), Some("test-mock"));
    assert!(matches!(get(&json, "autoStart"), Some(JsonValue::Bool(true))));
    let data_type = get(&json, "dataType").unwrap();
    assert_eq!(text(get(data_type, "type")), Some("sensorReading"));
    assert_eq!(number(get(data_type, "sensorCount")), Some("5"));
    assert_eq!(number(get(&json, "intervalMs")), Some("1000"));
}

#[test]
fn test_source_config_postgres_serializes_camelcase() {
    let source = SourceConfig {
        kind: "postgres".to_string(),
        id: "test-postgres".to_string(),
        auto_start: false,
        bootstrap_provider: None,
        config: parse_json(
            r#"{
            "host": "localhost",
            "port": 5432,
            "database": "testdb",
            "user": "testuser",
            "password": "testpass",
            "tables": [],
            "slotName": "test_slot",
            "publicationName": "test_pub",
            "sslMode": "disable",
            "tableKeys": []
        }"#,
        )
        .unwrap(),
    };

    let json = JsonValue::Object(source.to_entries());

    assert!(get(&json, "autoStart").is_some(), "autoStart should exist");
    assert!(get(&json, "auto_start").is_none(), "auto_start should NOT exist");
    assert!(get(&json, "slotName").is_some(), "slotName should exist");
    assert!(get(&json, "publicationName").is_some(), "publicationName should exist");
    assert!(get(&json, "tableKeys").is_some(), "tableKeys should exist");
    assert!(get(&json, "sslMode").is_some(), "sslMode should exist");
    assert!(get(&json, "slot_name").is_none(), "slot_name should NOT exist");
    assert!(get(&json, "publication_name").is_none(), "publication_name should NOT exist");
    assert!(get(&json, "table_keys").is_none(), "table_keys should NOT exist");
    assert!(get(&json, "ssl_mode").is_none(), "ssl_mode should NOT exist");
}

#[test]
fn test_source_config_http_serializes_camelcase() {
    let source = SourceConfig {
        kind: "http".to_string(),
        id: "test-http".to_string(),
        auto_start: true,
        bootstrap_provider: None,
        config: parse_json(
            r#"{
            "host": "localhost",
            "port": 8080,
            "timeoutMs": 5000,
            "adaptiveMaxBatchSize": 100,
            "adaptiveMinBatchSize": 10,
            "adaptiveMaxWaitMs": 500,
            "adaptiveMinWaitMs": 10,
            "adaptiveWindowSecs": 60,
            "adaptiveEnabled": true
        }"#,
        )
        .unwrap(),
    };

    let json = JsonValue::Object(source.to_entries());

    assert!(get(&json, "timeoutMs").is_some(), "timeoutMs should exist");
    assert!(get(&json, "adaptiveMaxBatchSize").is_some(), "adaptiveMaxBatchSize should exist");
    assert!(get(&json, "adaptiveMinBatchSize").is_some(), "adaptiveMinBatchSize should exist");
    assert!(get(&json, "timeout_ms").is_none(), "timeout_ms should NOT exist");
    assert!(get(&json, "adaptive_max_batch_size").is_none(), "adaptive_max_batch_size should NOT exist");
}

#[test]
fn test_reaction_config_log_serializes_camelcase() {
    let reaction = ReactionConfig {
        kind: "log".to_string(),
        id: "test-log".to_string(),
        queries: vec!["query1".to_string()],
        auto_start: true,
        config: parse_json(r#"{"routes": {}}"#).unwrap(),
    };

    let json = JsonValue::Object(reaction.to_entries());

    assert!(get(&json, "id").is_some(), "id should exist");
    assert!(get(&json, "queries").is_some(), "queries should exist");
    assert!(get(&json, "autoStart").is_some(), "autoStart should exist");
    assert!(get(&json, "auto_start").is_none(), "auto_start should NOT exist");
}

#[test]
fn test_reaction_config_http_serializes_camelcase() {
    let reaction = ReactionConfig {
        kind: "http".to_string(),
        id: "test-http-reaction".to_string(),
        queries: vec!["query1".to_string()],
        auto_start: false,
        config: parse_json(r#"{ "baseUrl": "http://localhost:8080", "timeoutMs": 5000, "routes": {} }"#).unwrap(),
    };

    let json = JsonValue::Object(reaction.to_entries());

    assert!(get(&json, "autoStart").is_some(), "autoStart should exist");
    assert!(get(&json, "auto_start").is_none(), "auto_start should NOT exist");
    assert!(get(&json, "baseUrl").is_some(), "baseUrl should exist");
    assert!(get(&json, "timeoutMs").is_some(), "timeoutMs should exist");
    assert!(get(&json, "base_url").is_none(), "base_url should NOT exist");
    assert!(get(&json, "timeout_ms").is_none(), "timeout_ms should NOT exist");
}

#[test]
fn test_reaction_config_grpc_serializes_camelcase() {
    let reaction = ReactionConfig {
        kind: "grpc".to_string(),
        id: "test-grpc-reaction".to_string(),
        queries: vec!["query1".to_string()],
        auto_start: true,
        config: parse_json(
            r#"{
            "endpoint": "localhost:50051",
            "timeoutMs": 3000,
            "batchSize": 50,
            "batchFlushTimeoutMs": 1000,
            "maxRetries": 3,
            "connectionRetryAttempts": 5,
            "initialConnectionTimeoutMs": 10000,
            "metadata": {}
        }"#,
        )
        .unwrap(),
    };

    let json = JsonValue::Object(reaction.to_entries());

    assert!(get(&json, "autoStart").is_some(), "autoStart should exist");
    assert!(get(&json, "auto_start").is_none(), "auto_start should NOT exist");
    assert!(get(&json, "timeoutMs").is_some(), "timeoutMs should exist");
    assert!(get(&json, "batchSize").is_some(), "batchSize should exist");
    assert!(get(&json, "maxRetries").is_some(), "maxRetries should exist");
    assert!(get(&json, "batchFlushTimeoutMs").is_some(), "batchFlushTimeoutMs should exist");
    assert!(get(&json, "connectionRetryAttempts").is_some(), "connectionRetryAttempts should exist");
    assert!(get(&json, "initialConnectionTimeoutMs").is_some(), "initialConnectionTimeoutMs should exist");
    assert!(get(&json, "timeout_ms").is_none(), "timeout_ms should NOT exist");
    assert!(get(&json, "batch_size").is_none(), "batch_size should NOT exist");
    assert!(get(&json, "max_retries").is_none(), "max_retries should NOT exist");
    assert!(get(&json, "batch_flush_timeout_ms").is_none(), "batch_flush_timeout_ms should NOT exist");
    assert!(get(&json, "connection_retry_attempts").is_none(), "connection_retry_attempts should NOT exist");
    assert!(
        get(&json, "initial_connection_timeout_ms").is_none(),
        "initial_connection_timeout_ms should NOT exist"
    );
}

// ==================== snake_case spellings are refused ====================

#[test]
fn test_source_config_rejects_snake_case_auto_start() {
    let yaml = r#"
        kind: mock
        id: test
        auto_start: true
    "#;

    let result = SourceConfig::from_entries(&yaml_entries(yaml));
    assert!(result.is_err(), "snake_case auto_start should be rejected");
    let err = result.unwrap_err();
    assert_eq!(err, DecodeError::MisspelledField(Field::AutoStart));
    assert_eq!(Field::AutoStart.name(), "autoStart");
}

#[test]
fn test_reaction_config_rejects_snake_case_auto_start() {
    let yaml = r#"
        kind: log
        id: test
        queries: ["q1"]
        auto_start: true
    "#;

    let result = ReactionConfig::from_entries(&yaml_entries(yaml));
    assert!(result.is_err(), "snake_case auto_start should be rejected");
}

#[test]
fn test_source_config_rejects_snake_case_bootstrap_provider() {
    let yaml = r#"
        kind: mock
        id: test
        bootstrap_provider:
          kind: noop
    "#;

    let result = SourceConfig::from_entries(&yaml_entries(yaml));
    assert!(result.is_err(), "snake_case bootstrap_provider should be rejected");
}
