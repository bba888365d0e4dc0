use drasi_server::loader::from_yaml_str;
use drasi_server::resolve::Env;

#[test]
fn test_readme_minimal_config_example() {
    let yaml = r#"
host: 0.0.0.0
port: 8080
logLevel: info

sources:
  - kind: mock
    id: test-source
    autoStart: true

queries:
  - id: my-query
    query: "MATCH (n:Node) RETURN n"
    sources:
      - sourceId: test-source

reactions:
  - kind: log
    id: log-output
    queries: [my-query]
"#;

    let config = from_yaml_str(yaml).expect("Minimal config example from README should be valid");
    config.validate(&Env::new(Vec::new()), false).expect("Minimal config example from README should be valid");
}

#[test]
fn test_readme_server_settings_example() {
    let yaml = r#"
id: my-server
host: 0.0.0.0
port: 8080
logLevel: info
persistConfig: true
persistIndex: false

stateStore:
  kind: redb
  path: ./data/state.redb

sources: []
queries: []
reactions: []
"#;

    let config = from_yaml_str(yaml).expect("Server settings example from README should be valid");
    config.validate(&Env::new(Vec::new()), false).expect("Server settings example from README should be valid");
}
