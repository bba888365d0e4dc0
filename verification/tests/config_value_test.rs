use drasi_server::config_value::read_config_string;
use drasi_server::json::{parse_json, JsonValue};
use drasi_server::loader::read_port;
use drasi_server::models::{ConfigValue, Field};
use drasi_server::resolve::{resolve_port, resolve_string, Env};
use drasi_server::yaml::{parse_yaml, yaml_to_json};

fn text_value(json: &str) -> ConfigValue<String> {
    read_config_string(&parse_json(json).unwrap(), Field::Host).unwrap()
}

fn port_value(json: &str) -> ConfigValue<u16> {
    read_port(&parse_json(json).unwrap()).unwrap()
}

fn env(vars: &[(&str, &str)]) -> Env {
    Env::new(vars.iter().map(|(k, v)| (k.to_string(), v.to_string())).collect())
}

#[test]
fn test_config_value_static_string_resolution() {
    let value = text_value(r#""db.example.com""#);
    let resolved = resolve_string(&value, &env(&[])).unwrap();
    assert_eq!(resolved, "db.example.com");
}

#[test]
fn test_config_value_static_typed_resolution() {
    let value = port_value("5433");
    let resolved = resolve_port(&value, &env(&[])).unwrap();
    assert_eq!(resolved, 5433);
}

#[test]
fn test_config_value_environment_variable_resolution() {
    let vars = env(&[("TEST_CV_HOST", "env-host.com"), ("TEST_CV_PORT", "5434")]);

    let host = text_value(r#"{"kind": "EnvironmentVariable", "name": "TEST_CV_HOST"}"#);
    let port = port_value(r#"{"kind": "EnvironmentVariable", "name": "TEST_CV_PORT", "default": "5432"}"#);

    assert_eq!(resolve_string(&host, &vars).unwrap(), "env-host.com");
    assert_eq!(resolve_port(&port, &vars).unwrap(), 5434);
}

#[test]
fn test_config_value_environment_variable_defaults() {
    let host = text_value(
        r#"{"kind": "EnvironmentVariable", "name": "NONEXISTENT_CV_HOST", "default": "default-host.com"}"#,
    );
    let port = port_value(r#"{"kind": "EnvironmentVariable", "name": "NONEXISTENT_CV_PORT", "default": "9999"}"#);

    assert_eq!(resolve_string(&host, &env(&[])).unwrap(), "default-host.com");
    assert_eq!(resolve_port(&port, &env(&[])).unwrap(), 9999);
}

#[test]
fn test_config_value_mixed_static_and_env() {
    let vars = env(&[("TEST_CV_MIXED_PASSWORD", "secure_password")]);

    let host = text_value(r#""localhost""#);
    let port = port_value("5432");
    let password = text_value(r#"{"kind": "EnvironmentVariable", "name": "TEST_CV_MIXED_PASSWORD"}"#);

    assert_eq!(resolve_string(&host, &vars).unwrap(), "localhost");
    assert_eq!(resolve_port(&port, &vars).unwrap(), 5432);
    assert_eq!(resolve_string(&password, &vars).unwrap(), "secure_password");
}

#[test]
fn test_config_value_deserialization_from_yaml() {
    let yaml = r#"
host: "yaml-host.com"
database: "${DB_NAME:-default_db}"
password:
  kind: EnvironmentVariable
  name: DB_PASSWORD
  default: "default_password"
sslMode:
  kind: EnvironmentVariable
  name: SSL_MODE
  default: "prefer"
        "#;

    let doc = yaml_to_json(&parse_yaml(yaml).unwrap()).unwrap();
    let field = |k: &str| -> ConfigValue<String> {
        let v = match &doc {
            JsonValue::Object(e) => &e.iter().find(|(x, _)| x == k).unwrap().1,
            _ => panic!("expected a map"),
        };
        read_config_string(v, Field::Host).unwrap()
    };

    match field("host") {
        ConfigValue::Static(ref s) => assert_eq!(s, "yaml-host.com"),
        _ => panic!("Expected static host"),
    }

    match field("database") {
        ConfigValue::EnvironmentVariable { ref name, ref default } => {
            assert_eq!(name, "DB_NAME");
            assert_eq!(default.as_deref(), Some("default_db"));
        }
        _ => panic!("Expected environment variable for database"),
    }

    match field("password") {
        ConfigValue::EnvironmentVariable { ref name, ref default } => {
            assert_eq!(name, "DB_PASSWORD");
            assert_eq!(default.as_deref(), Some("default_password"));
        }
        _ => panic!("Expected environment variable for password"),
    }

    match field("sslMode") {
        ConfigValue::EnvironmentVariable { ref name, ref default } => {
            assert_eq!(name, "SSL_MODE");
            assert_eq!(default.as_deref(), Some("prefer"));
        }
        _ => panic!("Expected environment variable for sslMode"),
    }
}

#[test]
fn port_value_out_of_range_or_fractional_is_refused() {
    assert!(read_port(&parse_json("70000").unwrap()).is_err());
    assert!(read_port(&parse_json("80.5").unwrap()).is_err());
    assert!(read_port(&parse_json(r#""8080""#).unwrap()).is_err());
    assert_eq!(
        read_port(&parse_json(r#""${PORT:-9000}""#).unwrap()).unwrap(),
        ConfigValue::EnvironmentVariable { name: "PORT".to_string(), default: Some("9000".to_string()) }
    );
}
