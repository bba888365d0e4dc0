use drasi_server::config::{default_persist_config, default_persist_index, default_plugin_registry, default_port, default_host, default_log_level, default_id, DrasiServerConfig};
use drasi_server::models::ConfigValue;

#[test]
fn test_default_persist_index_function() {
    assert!(
        !default_persist_index(),
        "default_persist_index() should return false"
    );
}

#[test]
fn defaults_of_server_settings() {
    assert!(default_persist_config());
    assert_eq!(default_plugin_registry(), Some("ghcr.io/drasi-project".to_string()));
    assert_eq!(default_port(), ConfigValue::Static(8080));
    assert_eq!(default_host(), ConfigValue::Static("0.0.0.0".to_string()));
    assert_eq!(default_log_level(), ConfigValue::Static("info".to_string()));
}

#[test]
fn default_id_is_a_hyphenated_uuid() {
    match default_id() {
        ConfigValue::Static(s) => {
            assert_eq!(s.len(), 36);
            for (i, c) in s.chars().enumerate() {
                if i == 8 || i == 13 || i == 18 || i == 23 {
                    assert_eq!(c, '-');
                } else {
                    assert!(c.is_ascii_digit() || ('a'..='f').contains(&c));
                }
            }
        }
        other => panic!("expected a static id, got {other:?}"),
    }
    assert_ne!(default_id(), default_id());
}

#[test]
fn default_server_config_settings() {
    let c = DrasiServerConfig::default();
    assert_eq!(c.host, ConfigValue::Static("0.0.0.0".to_string()));
    assert_eq!(c.port, ConfigValue::Static(8080));
    assert!(c.persist_config);
    assert!(!c.persist_index);
    assert!(c.sources.is_empty() && c.queries.is_empty() && c.reactions.is_empty() && c.instances.is_empty());
    assert_eq!(c.plugin_registry, Some("ghcr.io/drasi-project".to_string()));
}
