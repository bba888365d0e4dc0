use drasi_server::config::{DrasiLibInstanceConfig, DrasiServerConfig, QueryConfigDto};
use drasi_server::json::JsonValue;
use drasi_server::loader::read_map;
use drasi_server::models::DecodeError;
use drasi_server::validation::validate_config;
use drasi_server::yaml::{parse_yaml, yaml_to_json};

fn json_of(yaml: &str) -> JsonValue {
    yaml_to_json(&parse_yaml(yaml).unwrap()).unwrap()
}

fn server(yaml: &str) -> Result<DrasiServerConfig, DecodeError> {
    DrasiServerConfig::from_json(&json_of(yaml))
}

fn instance(yaml: &str) -> Result<DrasiLibInstanceConfig, DecodeError> {
    DrasiLibInstanceConfig::from_json(&json_of(yaml))
}

fn query(yaml: &str) -> Result<QueryConfigDto, DecodeError> {
    read_map::<QueryConfigDto>(&json_of(yaml))
}

fn unknown_field(e: &DecodeError) -> Option<&str> {
    match e {
        DecodeError::UnknownField(k) => Some(k.as_str()),
        _ => None,
    }
}

// ==================== Template syntax validation (validate_config) ====================

#[test]
fn test_valid_config_passes() {
    let yaml = r#"
            id: test-server
            reactions:
              - kind: log
                id: test-log
                queries:
                  - test-query
                autoStart: true
        "#;

    let value = parse_yaml(yaml).unwrap();
    let result = validate_config(&value);
    assert!(result.is_ok(), "Valid config should pass: {result:?}");
}

#[test]
fn test_valid_template_passes() {
    let yaml = r#"
            id: test-server
            reactions:
              - kind: log
                id: test-log
                queries: [q1]
                autoStart: true
                defaultTemplate:
                  added:
                    template: "{{after.Name}} - {{after.Value}}"
                  updated:
                    template: "Changed from {{before.Value}} to {{after.Value}}"
                  deleted:
                    template: "Removed: {{before.Name}}"
        "#;

    let value = parse_yaml(yaml).unwrap();
    let result = validate_config(&value);
    assert!(result.is_ok(), "Valid templates should pass: {result:?}");
}

#[test]
fn test_template_unclosed_brace_rejected() {
    let yaml = r#"
            id: test-server
            reactions:
              - kind: log
                id: test-log
                queries: [q1]
                autoStart: true
                defaultTemplate:
                  added:
                    template: "{{after.Name"
        "#;

    let value = parse_yaml(yaml).unwrap();
    let result = validate_config(&value);
    assert!(result.is_err(), "Unclosed brace template should be rejected");
    let err = result.unwrap_err().message();
    assert!(err.contains("invalid Handlebars template"), "Error should mention invalid template: {err}");
}

#[test]
fn test_template_empty_expression_rejected() {
    let yaml = r#"
            id: test-server
            reactions:
              - kind: log
                id: test-log
                queries: [q1]
                autoStart: true
                defaultTemplate:
                  added:
                    template: "Value: {{}}"
        "#;

    let value = parse_yaml(yaml).unwrap();
    let result = validate_config(&value);
    assert!(result.is_err(), "Empty expression template should be rejected");
    let err = result.unwrap_err().message();
    assert!(err.contains("invalid Handlebars template"), "Error should mention invalid template: {err}");
}

#[test]
fn test_template_unclosed_block_rejected() {
    let yaml = r#"
            id: test-server
            reactions:
              - kind: log
                id: test-log
                queries: [q1]
                autoStart: true
                defaultTemplate:
                  added:
                    template: "{{#if condition}}true branch"
        "#;

    let value = parse_yaml(yaml).unwrap();
    let result = validate_config(&value);
    assert!(result.is_err(), "Unclosed block template should be rejected");
    let err = result.unwrap_err().message();
    assert!(err.contains("invalid Handlebars template"), "Error should mention invalid template: {err}");
}

#[test]
fn test_http_body_template_validated() {
    let yaml = r#"
            id: test-server
            reactions:
              - kind: http
                id: test-http
                queries: [q1]
                autoStart: true
                baseUrl: "http://localhost"
                routes:
                  q1:
                    added:
                      url: "/api/events"
                      method: "POST"
                      body: '{"data": {{after.Name}'
        "#;

    let value = parse_yaml(yaml).unwrap();
    let result = validate_config(&value);
    assert!(result.is_err(), "Invalid HTTP body template should be rejected");
    let err = result.unwrap_err().message();
    assert!(
        err.contains("body") && err.contains("invalid Handlebars template"),
        "Error should mention body and invalid template: {err}"
    );
}

#[test]
fn test_valid_http_body_template_passes() {
    let yaml = r#"
            id: test-server
            reactions:
              - kind: http
                id: test-http
                queries: [q1]
                autoStart: true
                baseUrl: "http://localhost"
                routes:
                  q1:
                    added:
                      url: "/api/events"
                      method: "POST"
                      body: '{"name": "{{after.Name}}", "value": {{after.Value}}}'
        "#;

    let value = parse_yaml(yaml).unwrap();
    let result = validate_config(&value);
    assert!(result.is_ok(), "Valid HTTP body template should pass: {result:?}");
}

#[test]
fn test_sse_template_validated() {
    let yaml = r#"
            id: test-server
            reactions:
              - kind: sse
                id: test-sse
                queries: [q1]
                autoStart: true
                routes:
                  q1:
                    added:
                      template: "{{after.Name"
        "#;

    let value = parse_yaml(yaml).unwrap();
    let result = validate_config(&value);
    assert!(result.is_err(), "Invalid SSE template should be rejected");
    let err = result.unwrap_err().message();
    assert!(err.contains("invalid Handlebars template"), "Error should mention invalid template: {err}");
}

#[test]
fn test_template_with_helpers_passes() {
    let yaml = r#"
            id: test-server
            reactions:
              - kind: log
                id: test-log
                queries: [q1]
                autoStart: true
                defaultTemplate:
                  added:
                    template: "{{#each items}}{{this}}{{/each}}"
        "#;

    let value = parse_yaml(yaml).unwrap();
    let result = validate_config(&value);
    assert!(result.is_ok(), "Template with valid helper syntax should pass: {result:?}");
}

#[test]
fn test_multiple_template_errors_all_reported() {
    let yaml = r#"
            id: test-server
            reactions:
              - kind: log
                id: test-log
                queries: [q1]
                autoStart: true
                defaultTemplate:
                  added:
                    template: "{{after.Name"
                  updated:
                    template: "{{before"
                  deleted:
                    template: "{{}}"
        "#;

    let value = parse_yaml(yaml).unwrap();
    let result = validate_config(&value);
    assert!(result.is_err(), "Multiple invalid templates should be rejected");
    let err = result.unwrap_err().message();
    assert!(
        err.contains("added") || err.contains("updated") || err.contains("deleted"),
        "Error should mention which template field has the error: {err}"
    );
}

// ==================== Unknown fields are refused ====================

#[test]
fn test_server_unknown_field_rejected() {
    let yaml = r#"
            id: test-server
            host: 0.0.0.0
            port: 8080
            unknownField: value
        "#;

    let result = server(yaml);
    assert!(result.is_err(), "Unknown server field should be rejected");
    assert_eq!(unknown_field(&result.err().unwrap()), Some("unknownField"));
}

#[test]
fn test_server_snake_case_log_level_rejected() {
    let yaml = r#"
            id: test-server
            host: 0.0.0.0
            port: 8080
            log_level: info
        "#;

    let result = server(yaml);
    assert!(result.is_err(), "log_level (snake_case) should be rejected");
    assert_eq!(unknown_field(&result.err().unwrap()), Some("log_level"));
}

#[test]
fn test_server_snake_case_persist_config_rejected() {
    let yaml = r#"
            id: test-server
            host: 0.0.0.0
            port: 8080
            persist_config: true
        "#;

    let result = server(yaml);
    assert!(result.is_err(), "persist_config (snake_case) should be rejected");
    assert_eq!(unknown_field(&result.err().unwrap()), Some("persist_config"));
}

#[test]
fn test_instance_unknown_field_rejected() {
    let yaml = r#"
            id: instance-1
            persistIndex: true
            unknownField: value
            sources: []
            queries: []
            reactions: []
        "#;

    let result = instance(yaml);
    assert!(result.is_err(), "Unknown instance field should be rejected");
    assert_eq!(unknown_field(&result.err().unwrap()), Some("unknownField"));
}

#[test]
fn test_instance_snake_case_persist_index_rejected() {
    let yaml = r#"
            id: instance-1
            persist_index: true
            sources: []
            queries: []
            reactions: []
        "#;

    let result = instance(yaml);
    assert!(result.is_err(), "persist_index (snake_case) should be rejected");
    assert_eq!(unknown_field(&result.err().unwrap()), Some("persist_index"));
}

#[test]
fn test_query_unknown_field_rejected() {
    let yaml = r#"
            id: test-query
            query: "MATCH (n) RETURN n"
            unknownField: value
        "#;

    let result = query(yaml);
    assert!(result.is_err(), "Unknown query field should be rejected");
    assert_eq!(unknown_field(&result.err().unwrap()), Some("unknownField"));
}

#[test]
fn test_query_snake_case_auto_start_rejected() {
    let yaml = r#"
            id: test-query
            query: "MATCH (n) RETURN n"
            auto_start: true
        "#;

    let result = query(yaml);
    assert!(result.is_err(), "auto_start (snake_case) should be rejected");
    assert_eq!(unknown_field(&result.err().unwrap()), Some("auto_start"));
}

#[test]
fn test_query_snake_case_query_language_rejected() {
    let yaml = r#"
            id: test-query
            query: "MATCH (n) RETURN n"
            query_language: Cypher
        "#;

    let result = query(yaml);
    assert!(result.is_err(), "query_language (snake_case) should be rejected");
    assert_eq!(unknown_field(&result.err().unwrap()), Some("query_language"));
}

// ==================== Valid configurations (positive tests) ====================

#[test]
fn test_valid_server_config() {
    let yaml = r#"
            id: test-server
            host: 0.0.0.0
            port: 8080
            logLevel: info
            persistConfig: true
            persistIndex: false
        "#;

    let result = server(yaml);
    assert!(result.is_ok(), "Valid server config should parse: {:?}", result.err());
}

#[test]
fn test_valid_query_with_all_fields() {
    let yaml = r#"
            id: test-query
            query: "MATCH (n) RETURN n"
            queryLanguage: Cypher
            autoStart: true
            enableBootstrap: true
            bootstrapBufferSize: 10000
            priorityQueueCapacity: 5000
            dispatchBufferCapacity: 1000
            middleware: []
            dispatchMode: "immediate"
            sources:
              - sourceId: test-source
        "#;

    let result = query(yaml);
    assert!(result.is_ok(), "Valid query config should parse: {:?}", result.err());
}

#[test]
fn test_valid_instance_config() {
    let yaml = r#"
            id: instance-1
            persistIndex: true
            sources: []
            queries: []
            reactions: []
        "#;

    let result = instance(yaml);
    assert!(result.is_ok(), "Valid instance config should parse: {:?}", result.err());
}
