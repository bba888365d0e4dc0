//! Each example configuration that the project ships is loaded and
//! validated. The documents below follow the descriptions of the examples in
//! the project's configuration guide.

use drasi_server::config::DrasiServerConfig;
use drasi_server::loader::from_yaml_str;
use drasi_server::resolve::Env;

fn load(name: &str, yaml: &str) -> DrasiServerConfig {
    let config = from_yaml_str(yaml).unwrap_or_else(|e| panic!("Failed to validate {name}: {e:?}"));
    config
        .validate(&Env::new(Vec::new()), false)
        .unwrap_or_else(|e| panic!("Failed to validate {name}: {e:?}"));
    config
}

// ==================== Top-level Config Directory ====================

#[test]
fn test_config_server_minimal() {
    let c = load(
        "config/server-minimal.yaml",
        r#"
apiVersion: drasi.io/v1
id: drasi-server
host: 0.0.0.0
port: 8080
logLevel: info
persistConfig: false
sources: []
queries: []
reactions: []
"#,
    );
    assert!(!c.persist_config);
}

#[test]
fn test_config_server_docker() {
    let c = load(
        "config/server-docker.yaml",
        r#"
apiVersion: drasi.io/v1
id: drasi-server-docker
host: 0.0.0.0
port: 8080
logLevel: info
persistConfig: true
persistIndex: false
stateStore:
  kind: redb
  path: /data/state.redb
sources: []
queries: []
reactions: []
"#,
    );
    assert!(c.state_store.is_some());
}

#[test]
fn test_config_server_with_env_vars() {
    let c = load(
        "config/server-with-env-vars.yaml",
        r#"
apiVersion: drasi.io/v1
id: "${SERVER_ID:-drasi-server}"
host: "${SERVER_HOST:-0.0.0.0}"
port: "${SERVER_PORT:-8080}"
logLevel: "${LOG_LEVEL:-info}"
sources:
  - kind: postgres
    id: pg-source
    host: "${DB_HOST:-localhost}"
    port: 5432
    database: "${DB_NAME:-drasi}"
    user: "${DB_USER:-postgres}"
    password: "${DB_PASSWORD}"
    tables: [orders]
queries: []
reactions: []
"#,
    );
    assert_eq!(c.sources.len(), 1);
}

// ==================== Integration Test Configs ====================

#[test]
fn test_integration_getting_started_config() {
    let c = load(
        "tests/integration/getting-started/config.yaml",
        r#"
id: getting-started
host: 0.0.0.0
port: 8080
logLevel: info
sources:
  - kind: http
    id: http-source
    host: 0.0.0.0
    port: 9000
queries:
  - id: all-messages
    query: "MATCH (m:Message) RETURN m.id AS id, m.text AS text"
    sources:
      - sourceId: http-source
reactions:
  - kind: log
    id: console
    queries: [all-messages]
"#,
    );
    assert_eq!(c.queries.len(), 1);
}

// ==================== Solution Examples ====================

#[test]
fn test_getting_started_config() {
    let c = load(
        "examples/getting-started/server-config.yaml",
        r#"
apiVersion: drasi.io/v1
id: getting-started
host: 0.0.0.0
port: 8080
logLevel: info
sources:
  - kind: postgres
    id: my-postgres
    host: localhost
    port: 5432
    database: getting_started
    user: drasi_user
    password: drasi_password
    tables: [message]
    slotName: drasi_slot
    publicationName: drasi_pub
    tableKeys:
      - table: message
        keyColumns: [messageid]
    bootstrapProvider:
      kind: postgres
queries:
  - id: hello-world-from
    query: "MATCH (m:message) WHERE m.message = 'Hello World' RETURN m.messageid AS MessageId, m.from AS MessageFrom"
    sources:
      - sourceId: my-postgres
reactions:
  - kind: log
    id: log-reaction
    queries: [hello-world-from]
    defaultTemplate:
      added:
        template: "[+] {{after.MessageFrom}}"
      deleted:
        template: "[-] {{before.MessageFrom}}"
"#,
    );
    assert!(c.sources[0].bootstrap_provider.is_some());
}

#[test]
fn test_playground_server_config() {
    let c = load(
        "examples/playground/server/playground.yaml",
        r#"
id: playground
host: 0.0.0.0
port: 8080
logLevel: info
persistConfig: false
sources:
  - kind: http
    id: playground-source
    host: 0.0.0.0
    port: 9000
queries: []
reactions:
  - kind: sse
    id: playground-sse
    queries: []
    host: 0.0.0.0
    port: 8081
    ssePath: /events
"#,
    );
    assert_eq!(c.reactions.len(), 1);
}

#[test]
fn test_playground_app_config() {
    let c = load(
        "examples/playground/app/examples/playground/server/playground.yaml",
        r#"
id: playground-app
host: 0.0.0.0
port: 8080
sources:
  - kind: http
    id: playground-source
    host: 0.0.0.0
    port: 9000
reactions:
  - kind: sse
    id: playground-sse
    queries: []
    port: 8081
"#,
    );
    assert!(c.queries.is_empty());
}

#[test]
fn test_trading_sources_only_config() {
    let c = load(
        "examples/trading/server/trading-sources-only.yaml",
        r#"
id: trading
host: 0.0.0.0
port: 8080
logLevel: info
sources:
  - kind: postgres
    id: postgres-stocks
    host: localhost
    port: 5432
    database: trading_demo
    user: postgres
    password: postgres
    tables: [stocks, portfolio]
    bootstrapProvider:
      kind: postgres
  - kind: http
    id: price-feed
    host: 0.0.0.0
    port: 9000
"#,
    );
    assert_eq!(c.sources.len(), 2);
}

// ==================== 01-fundamentals ====================

#[test]
fn test_01_hello_world() {
    let c = load(
        "examples/configs/01-fundamentals/hello-world.yaml",
        r#"
apiVersion: drasi.io/v1
id: hello-world
sources:
  - kind: mock
    id: hello-source
    dataType:
      type: counter
    intervalMs: 1000
queries:
  - id: hello-query
    query: "MATCH (c:Counter) RETURN c.value AS value"
    sources:
      - sourceId: hello-source
reactions:
  - kind: log
    id: hello-logger
    queries: [hello-query]
"#,
    );
    assert_eq!((c.sources.len(), c.queries.len(), c.reactions.len()), (1, 1, 1));
}

#[test]
fn test_01_mock_with_logging() {
    let c = load(
        "examples/configs/01-fundamentals/mock-with-logging.yaml",
        r#"
id: mock-with-logging
sources:
  - kind: mock
    id: sensors
    dataType:
      type: sensorReading
      sensorCount: 5
    intervalMs: 2000
queries:
  - id: hot-sensors
    query: "MATCH (s:SensorReading) WHERE s.temperature > 25 RETURN s.sensor_id AS id, s.temperature AS temp"
    sources:
      - sourceId: sensors
reactions:
  - kind: log
    id: sensor-logger
    queries: [hot-sensors]
    defaultTemplate:
      added:
        template: "[HOT] {{after.id}}: {{after.temp}}"
      updated:
        template: "[CHANGED] {{before.temp}} -> {{after.temp}}"
      deleted:
        template: "[COOLED] {{before.id}}"
"#,
    );
    assert_eq!(c.reactions[0].queries, vec!["hot-sensors".to_string()]);
}

#[test]
fn test_01_first_continuous_query() {
    let c = load(
        "examples/configs/01-fundamentals/first-continuous-query.yaml",
        r#"
id: first-continuous-query
sources:
  - kind: mock
    id: counter-source
    autoStart: true
    dataType:
      type: counter
    intervalMs: 500
queries:
  - id: even-counters
    query: "MATCH (c:Counter) WHERE c.value % 2 = 0 RETURN c.value AS value"
    queryLanguage: Cypher
    autoStart: true
    enableBootstrap: true
    bootstrapBufferSize: 10000
    sources:
      - sourceId: counter-source
reactions:
  - kind: log
    id: even-logger
    queries: [even-counters]
"#,
    );
    assert!(c.sources[0].auto_start);
}

// ==================== 02-sources ====================

#[test]
fn test_02_http_webhook_receiver() {
    let c = load(
        "examples/configs/02-sources/http-webhook-receiver.yaml",
        r#"
id: http-webhook-receiver
sources:
  - kind: http
    id: webhook-source
    host: 0.0.0.0
    port: 9000
    timeoutMs: 30000
queries:
  - id: incoming-events
    query: "MATCH (e:Event) RETURN e.id AS id, e.type AS type"
    sources:
      - sourceId: webhook-source
reactions:
  - kind: log
    id: event-logger
    queries: [incoming-events]
"#,
    );
    assert_eq!(c.sources[0].kind, "http");
}

#[test]
fn test_02_grpc_streaming_source() {
    let c = load(
        "examples/configs/02-sources/grpc-streaming-source.yaml",
        r#"
id: grpc-streaming-source
sources:
  - kind: grpc
    id: grpc-source
    host: 0.0.0.0
    port: 50051
queries:
  - id: streamed-items
    query: "MATCH (i:Item) RETURN i.id AS id"
    sources:
      - sourceId: grpc-source
reactions:
  - kind: log
    id: item-logger
    queries: [streamed-items]
"#,
    );
    assert_eq!(c.sources[0].kind, "grpc");
}

#[test]
fn test_02_postgres_cdc_complete() {
    let c = load(
        "examples/configs/02-sources/postgres-cdc-complete.yaml",
        r#"
id: postgres-cdc-complete
sources:
  - kind: postgres
    id: pg-source
    autoStart: true
    host: "${DB_HOST:-localhost}"
    port: 5432
    database: mydb
    user: "${DB_USER:-postgres}"
    password: "${DB_PASSWORD:-postgres}"
    sslMode: prefer
    tables: [users, orders]
    slotName: drasi_slot
    publicationName: drasi_pub
    tableKeys:
      - table: users
        keyColumns: [id]
      - table: orders
        keyColumns: [order_id]
    bootstrapProvider:
      kind: postgres
queries:
  - id: large-orders
    query: "MATCH (o:orders) WHERE o.total > 1000 RETURN o.order_id AS id, o.total AS total"
    sources:
      - sourceId: pg-source
reactions:
  - kind: log
    id: order-logger
    queries: [large-orders]
"#,
    );
    assert_eq!(c.sources[0].bootstrap_provider.as_ref().map(|b| b.kind.clone()), Some("postgres".to_string()));
}

// ==================== 03-reactions ====================

#[test]
fn test_03_log_with_templates() {
    let c = load(
        "examples/configs/03-reactions/log-with-templates.yaml",
        r#"
id: log-with-templates
sources:
  - kind: mock
    id: sensors
    dataType:
      type: sensorReading
queries:
  - id: readings
    query: "MATCH (s:SensorReading) RETURN s.sensor_id AS id, s.temperature AS temp"
    sources:
      - sourceId: sensors
reactions:
  - kind: log
    id: templated-logger
    queries: [readings]
    defaultTemplate:
      added:
        template: "[ADD] {{after.id}}"
      updated:
        template: "[UPDATE] {{#if after.temp}}{{after.temp}}{{/if}}"
      deleted:
        template: "[DELETE] {{before.id}}"
    routes:
      readings:
        added:
          template: "[SPECIAL] {{after.id}} = {{after.temp}}"
"#,
    );
    assert_eq!(c.reactions[0].kind, "log");
}

#[test]
fn test_03_http_webhook_sender() {
    let c = load(
        "examples/configs/03-reactions/http-webhook-sender.yaml",
        r#"
id: http-webhook-sender
sources:
  - kind: mock
    id: orders
    dataType:
      type: generic
queries:
  - id: new-orders
    query: "MATCH (o:Order) RETURN o.id AS id"
    sources:
      - sourceId: orders
reactions:
  - kind: http
    id: webhook
    queries: [new-orders]
    baseUrl: "${WEBHOOK_URL:-http://localhost:9999}"
    timeoutMs: 10000
    routes:
      new-orders:
        added:
          url: "/webhook"
          method: "POST"
          body: '{"data": {{json after}}}'
"#,
    );
    assert_eq!(c.reactions[0].kind, "http");
}

#[test]
fn test_03_sse_browser_streaming() {
    let c = load(
        "examples/configs/03-reactions/sse-browser-streaming.yaml",
        r#"
id: sse-browser-streaming
sources:
  - kind: mock
    id: counter
    dataType:
      type: counter
queries:
  - id: counter-values
    query: "MATCH (c:Counter) RETURN c.value AS value"
    sources:
      - sourceId: counter
reactions:
  - kind: sse
    id: sse-stream
    queries: [counter-values]
    host: 0.0.0.0
    port: 8081
    ssePath: "/events"
    heartbeatIntervalMs: 15000
"#,
    );
    assert_eq!(c.reactions[0].id, "sse-stream");
}

#[test]
fn test_03_grpc_streaming_reaction() {
    let c = load(
        "examples/configs/03-reactions/grpc-streaming-reaction.yaml",
        r#"
id: grpc-streaming-reaction
sources:
  - kind: mock
    id: counter
    dataType:
      type: counter
queries:
  - id: counter-values
    query: "MATCH (c:Counter) RETURN c.value AS value"
    sources:
      - sourceId: counter
reactions:
  - kind: grpc
    id: grpc-out
    queries: [counter-values]
    endpoint: "grpc://localhost:50052"
    timeoutMs: 5000
"#,
    );
    assert_eq!(c.reactions[0].kind, "grpc");
}

#[test]
fn test_03_profiler_performance() {
    let c = load(
        "examples/configs/03-reactions/profiler-performance.yaml",
        r#"
id: profiler-performance
sources:
  - kind: mock
    id: fast-counter
    dataType:
      type: counter
    intervalMs: 10
queries:
  - id: all-counts
    query: "MATCH (c:Counter) RETURN c.value AS value"
    sources:
      - sourceId: fast-counter
reactions:
  - kind: profiler
    id: perf-profiler
    queries: [all-counts]
    autoStart: true
    windowSize: 100
    reportIntervalSecs: 60
"#,
    );
    assert!(c.reactions[0].auto_start);
}

// ==================== 04-query-patterns ====================

#[test]
fn test_04_filter_and_projection() {
    let c = load(
        "examples/configs/04-query-patterns/filter-and-projection.yaml",
        r#"
id: filter-and-projection
sources:
  - kind: mock
    id: sensors
    dataType:
      type: sensorReading
queries:
  - id: hot-readings
    queryLanguage: Cypher
    query: "MATCH (s:SensorReading) WHERE s.temperature >= 30 AND s.humidity < 80 RETURN s.sensor_id AS sensor, s.temperature AS temp"
    sources:
      - sourceId: sensors
  - id: projected-readings
    queryLanguage: Cypher
    query: "MATCH (s:SensorReading) RETURN s.sensor_id AS sensor"
    sources:
      - sourceId: sensors
reactions:
  - kind: log
    id: logger
    queries: [hot-readings, projected-readings]
"#,
    );
    assert_eq!(c.queries.len(), 2);
}

#[test]
fn test_04_aggregation_queries() {
    let c = load(
        "examples/configs/04-query-patterns/aggregation-queries.yaml",
        r#"
id: aggregation-queries
sources:
  - kind: mock
    id: sensors
    dataType:
      type: sensorReading
      sensorCount: 10
queries:
  - id: reading-count
    queryLanguage: Cypher
    query: "MATCH (s:SensorReading) RETURN count(s) AS total"
    sources:
      - sourceId: sensors
  - id: average-temperature
    queryLanguage: Cypher
    query: "MATCH (s:SensorReading) RETURN s.sensor_id AS sensor, avg(s.temperature) AS avgTemp, min(s.temperature) AS minTemp, max(s.temperature) AS maxTemp"
    sources:
      - sourceId: sensors
reactions:
  - kind: log
    id: aggregate-logger
    queries: [reading-count, average-temperature]
"#,
    );
    assert_eq!(c.queries[1].id, "average-temperature");
}

#[test]
fn test_04_multi_source_queries() {
    let c = load(
        "examples/configs/04-query-patterns/multi-source-queries.yaml",
        r#"
id: multi-source-queries
sources:
  - kind: mock
    id: customers
    dataType:
      type: generic
  - kind: mock
    id: orders
    dataType:
      type: generic
queries:
  - id: customer-orders
    queryLanguage: Cypher
    query: "MATCH (c:Customer)-[:PLACED]->(o:Order) RETURN c.name AS customer, o.id AS order"
    sources:
      - sourceId: customers
      - sourceId: orders
    joins:
      - id: PLACED
        keys:
          - label: Customer
            property: id
          - label: Order
            property: customer_id
reactions:
  - kind: log
    id: join-logger
    queries: [customer-orders]
"#,
    );
    assert_eq!(c.sources.len(), 2);
}

#[test]
fn test_04_time_based_triggers() {
    let c = load(
        "examples/configs/04-query-patterns/time-based-triggers.yaml",
        r#"
id: time-based-triggers
sources:
  - kind: mock
    id: heartbeats
    dataType:
      type: sensorReading
    intervalMs: 5000
queries:
  - id: stale-sensors
    queryLanguage: Cypher
    query: "MATCH (s:SensorReading) WHERE drasi.trueLater(s.timestamp < datetime() - duration({minutes: 5}), s.timestamp + duration({minutes: 5})) RETURN s.sensor_id AS sensor"
    sources:
      - sourceId: heartbeats
reactions:
  - kind: log
    id: stale-logger
    queries: [stale-sensors]
"#,
    );
    assert_eq!(c.queries[0].id, "stale-sensors");
}

// ==================== 05-advanced-features ====================

#[test]
fn test_05_adaptive_batching() {
    let c = load(
        "examples/configs/05-advanced-features/adaptive-batching.yaml",
        r#"
id: adaptive-batching
sources:
  - kind: mock
    id: events
    dataType:
      type: counter
    intervalMs: 10
queries:
  - id: all-events
    query: "MATCH (c:Counter) RETURN c.value AS value"
    sources:
      - sourceId: events
reactions:
  - kind: http-adaptive
    id: batched-webhook
    queries: [all-events]
    baseUrl: "http://localhost:9999"
    adaptiveMinBatchSize: 10
    adaptiveMaxBatchSize: 500
    adaptiveWindowSize: 100
    adaptiveBatchTimeoutMs: 1000
  - kind: grpc-adaptive
    id: batched-grpc
    queries: [all-events]
    endpoint: "grpc://localhost:50052"
    adaptiveMaxBatchSize: 1000
"#,
    );
    assert_eq!(c.reactions.len(), 2);
}

#[test]
fn test_05_multi_instance() {
    let c = load(
        "examples/configs/05-advanced-features/multi-instance.yaml",
        r#"
id: multi-instance-server
host: 0.0.0.0
port: 8080
instances:
  - id: analytics
    persistIndex: false
    sources:
      - kind: mock
        id: analytics-source
        dataType:
          type: counter
    queries:
      - id: analytics-query
        query: "MATCH (c:Counter) RETURN c.value AS value"
        sources:
          - sourceId: analytics-source
    reactions:
      - kind: log
        id: analytics-logger
        queries: [analytics-query]
  - id: monitoring
    defaultPriorityQueueCapacity: 50000
    sources:
      - kind: mock
        id: monitoring-source
        dataType:
          type: sensorReading
    queries: []
    reactions: []
"#,
    );
    assert_eq!(c.instances.len(), 2);
}

#[test]
fn test_05_persistent_storage() {
    let c = load(
        "examples/configs/05-advanced-features/persistent-storage.yaml",
        r#"
id: persistent-storage
persistIndex: true
stateStore:
  kind: redb
  path: ./data/state.redb
sources:
  - kind: mock
    id: counter
    dataType:
      type: counter
queries:
  - id: counts
    query: "MATCH (c:Counter) RETURN c.value AS value"
    sources:
      - sourceId: counter
reactions:
  - kind: log
    id: logger
    queries: [counts]
"#,
    );
    assert!(c.persist_index);
}

#[test]
fn test_05_capacity_tuning() {
    let c = load(
        "examples/configs/05-advanced-features/capacity-tuning.yaml",
        r#"
id: capacity-tuning
defaultPriorityQueueCapacity: 10000
defaultDispatchBufferCapacity: 1000
sources:
  - kind: mock
    id: counter
    dataType:
      type: counter
    dispatchBufferCapacity: 2000
queries:
  - id: counts
    query: "MATCH (c:Counter) RETURN c.value AS value"
    priorityQueueCapacity: 20000
    sources:
      - sourceId: counter
reactions:
  - kind: log
    id: logger
    queries: [counts]
    priorityQueueCapacity: 5000
"#,
    );
    assert!(c.default_priority_queue_capacity.is_some() && c.default_dispatch_buffer_capacity.is_some());
}

#[test]
fn test_05_read_only_deployment() {
    let c = load(
        "examples/configs/05-advanced-features/read-only-deployment.yaml",
        r#"
id: read-only-deployment
persistConfig: false
sources:
  - kind: mock
    id: counter
    dataType:
      type: counter
queries:
  - id: counts
    query: "MATCH (c:Counter) RETURN c.value AS value"
    sources:
      - sourceId: counter
reactions:
  - kind: log
    id: logger
    queries: [counts]
"#,
    );
    assert!(!c.persist_config);
}

// ==================== 06-real-world-scenarios ====================

#[test]
fn test_06_iot_sensor_alerts() {
    let c = load(
        "examples/configs/06-real-world-scenarios/iot-sensor-alerts.yaml",
        r#"
id: iot-sensor-alerts
sources:
  - kind: mock
    id: iot-sensors
    dataType:
      type: sensorReading
      sensorCount: 20
    intervalMs: 1000
queries:
  - id: high-temperature
    query: "MATCH (s:SensorReading) WHERE s.temperature > 35 RETURN s.sensor_id AS sensor, s.temperature AS temp"
    sources:
      - sourceId: iot-sensors
reactions:
  - kind: log
    id: alert-log
    queries: [high-temperature]
    defaultTemplate:
      added:
        template: "ALERT {{after.sensor}} at {{after.temp}}"
  - kind: http
    id: alert-webhook
    queries: [high-temperature]
    baseUrl: "http://localhost:9999"
    routes:
      high-temperature:
        added:
          url: "/alerts"
          method: "POST"
          body: '{"sensor": "{{after.sensor}}"}'
"#,
    );
    assert_eq!(c.reactions.len(), 2);
}

#[test]
fn test_06_order_exception_handling() {
    let c = load(
        "examples/configs/06-real-world-scenarios/order-exception-handling.yaml",
        r#"
id: order-exception-handling
sources:
  - kind: mock
    id: orders
    dataType:
      type: generic
queries:
  - id: delayed-orders
    query: "MATCH (o:Order) WHERE o.status = 'delayed' RETURN o.id AS id, o.status AS status"
    sources:
      - sourceId: orders
reactions:
  - kind: log
    id: exception-log
    queries: [delayed-orders]
    defaultTemplate:
      added:
        template: "Order {{after.id}} is {{after.status}}"
      deleted:
        template: "Order {{before.id}} resolved"
"#,
    );
    assert_eq!(c.queries[0].id, "delayed-orders");
}

#[test]
fn test_06_absence_of_change() {
    let c = load(
        "examples/configs/06-real-world-scenarios/absence-of-change.yaml",
        r#"
id: absence-of-change
sources:
  - kind: mock
    id: heartbeat
    dataType:
      type: sensorReading
    intervalMs: 10000
queries:
  - id: silent-sensors
    queryLanguage: Cypher
    query: "MATCH (s:SensorReading) WHERE drasi.trueFor(s.temperature = s.temperature, duration({seconds: 30})) RETURN s.sensor_id AS sensor"
    sources:
      - sourceId: heartbeat
reactions:
  - kind: log
    id: silence-log
    queries: [silent-sensors]
"#,
    );
    assert_eq!(c.reactions[0].id, "silence-log");
}

#[test]
fn test_06_real_time_dashboard() {
    let c = load(
        "examples/configs/06-real-world-scenarios/real-time-dashboard.yaml",
        r#"
id: real-time-dashboard
host: 0.0.0.0
port: 8080
sources:
  - kind: mock
    id: metrics
    dataType:
      type: sensorReading
      sensorCount: 8
queries:
  - id: live-metrics
    query: "MATCH (s:SensorReading) RETURN s.sensor_id AS sensor, s.temperature AS temp"
    sources:
      - sourceId: metrics
reactions:
  - kind: sse
    id: dashboard-stream
    queries: [live-metrics]
    host: 0.0.0.0
    port: 8081
    ssePath: /events
    defaultTemplate:
      added:
        template: '{"sensor": "{{after.sensor}}", "temp": {{after.temp}}}'
"#,
    );
    assert_eq!(c.reactions[0].kind, "sse");
}
