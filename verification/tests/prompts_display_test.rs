use drasi_server::prompts::{BootstrapType, ReactionType, ServerSettings, SourceType, StateStoreType};
use drasi_server::state_store::StateStoreConfig;

// ==================== ServerSettings tests ====================

#[test]
fn test_server_settings_creation() {
    let settings = ServerSettings {
        host: "127.0.0.1".to_string(),
        port: 9090,
        log_level: "debug".to_string(),
        persist_index: true,
        state_store: None,
    };

    assert_eq!(settings.host, "127.0.0.1");
    assert_eq!(settings.port, 9090);
    assert_eq!(settings.log_level, "debug");
    assert!(settings.persist_index);
    assert!(settings.state_store.is_none());
}

#[test]
fn test_server_settings_default_values() {
    let settings = ServerSettings {
        host: "0.0.0.0".to_string(),
        port: 8080,
        log_level: "info".to_string(),
        persist_index: false,
        state_store: None,
    };

    assert_eq!(settings.host, "0.0.0.0");
    assert_eq!(settings.port, 8080);
    assert_eq!(settings.log_level, "info");
    assert!(!settings.persist_index);
    assert!(settings.state_store.is_none());
}

#[test]
fn test_server_settings_with_state_store() {
    let settings = ServerSettings {
        host: "0.0.0.0".to_string(),
        port: 8080,
        log_level: "info".to_string(),
        persist_index: false,
        state_store: Some(StateStoreConfig::redb("./data/state.redb".to_string())),
    };

    assert!(settings.state_store.is_some());
    assert_eq!(settings.state_store.as_ref().unwrap().kind(), "redb");
}

// ==================== SourceType display tests ====================

#[test]
fn test_source_type_display_postgres() {
    let display = SourceType::Postgres.description().to_string();
    assert!(display.contains("PostgreSQL"));
    assert!(display.contains("CDC"));
}

#[test]
fn test_source_type_display_http() {
    let display = SourceType::Http.description().to_string();
    assert!(display.contains("HTTP"));
    assert!(display.contains("endpoint"));
}

#[test]
fn test_source_type_display_grpc() {
    let display = SourceType::Grpc.description().to_string();
    assert!(display.contains("gRPC"));
}

#[test]
fn test_source_type_display_mock() {
    let display = SourceType::Mock.description().to_string();
    assert!(display.contains("Mock"));
    assert!(display.contains("test"));
}

// ==================== BootstrapType display tests ====================

#[test]
fn test_bootstrap_type_display_none() {
    let display = BootstrapType::NoBootstrap.description().to_string();
    assert!(display.contains("None"));
    assert!(display.contains("No initial data"));
}

#[test]
fn test_bootstrap_type_display_postgres() {
    let display = BootstrapType::Postgres.description().to_string();
    assert!(display.contains("PostgreSQL"));
    assert!(display.contains("initial data"));
}

#[test]
fn test_bootstrap_type_display_scriptfile() {
    let display = BootstrapType::ScriptFile.description().to_string();
    assert!(display.contains("Script File"));
    assert!(display.contains("JSONL"));
}

// ==================== ReactionType display tests ====================

#[test]
fn test_reaction_type_display_log() {
    let display = ReactionType::Log.description().to_string();
    assert!(display.contains("Log"));
    assert!(display.contains("console"));
}

#[test]
fn test_reaction_type_display_http() {
    let display = ReactionType::Http.description().to_string();
    assert!(display.contains("HTTP"));
    assert!(display.contains("Webhook"));
}

#[test]
fn test_reaction_type_display_sse() {
    let display = ReactionType::Sse.description().to_string();
    assert!(display.contains("SSE"));
    assert!(display.contains("Server-Sent Events"));
}

#[test]
fn test_reaction_type_display_grpc() {
    let display = ReactionType::Grpc.description().to_string();
    assert!(display.contains("gRPC"));
}

// ==================== All enum variants coverage ====================

#[test]
fn test_all_source_types_have_display() {
    for source_type in vec![SourceType::Postgres, SourceType::Http, SourceType::Grpc, SourceType::Mock] {
        let display = source_type.description();
        assert!(!display.is_empty(), "SourceType {source_type:?} has empty display");
    }
}

#[test]
fn test_all_bootstrap_types_have_display() {
    for bootstrap_type in vec![BootstrapType::NoBootstrap, BootstrapType::Postgres, BootstrapType::ScriptFile] {
        let display = bootstrap_type.description();
        assert!(!display.is_empty(), "BootstrapType {bootstrap_type:?} has empty display");
    }
}

#[test]
fn test_all_reaction_types_have_display() {
    for reaction_type in vec![ReactionType::Log, ReactionType::Http, ReactionType::Sse, ReactionType::Grpc] {
        let display = reaction_type.description();
        assert!(!display.is_empty(), "ReactionType {reaction_type:?} has empty display");
    }
}

#[test]
fn test_source_type_displays_are_descriptive() {
    assert!(SourceType::Postgres.description().len() > 15);
    assert!(SourceType::Http.description().len() > 15);
    assert!(SourceType::Grpc.description().len() > 15);
    assert!(SourceType::Mock.description().len() > 15);
}

#[test]
fn test_bootstrap_type_displays_are_descriptive() {
    assert!(BootstrapType::NoBootstrap.description().len() > 10);
    assert!(BootstrapType::Postgres.description().len() > 15);
    assert!(BootstrapType::ScriptFile.description().len() > 15);
}

#[test]
fn test_reaction_type_displays_are_descriptive() {
    assert!(ReactionType::Log.description().len() > 15);
    assert!(ReactionType::Http.description().len() > 15);
    assert!(ReactionType::Sse.description().len() > 15);
    assert!(ReactionType::Grpc.description().len() > 15);
}

// ==================== StateStoreType display tests ====================

#[test]
fn test_state_store_type_display_none() {
    let display = StateStoreType::InMemory.description().to_string();
    assert!(display.contains("None"));
    assert!(display.contains("In-memory"));
}

#[test]
fn test_state_store_type_display_redb() {
    let display = StateStoreType::Redb.description().to_string();
    assert!(display.contains("REDB"));
    assert!(display.contains("Persistent"));
}

#[test]
fn test_all_state_store_types_have_display() {
    for state_store_type in vec![StateStoreType::InMemory, StateStoreType::Redb] {
        let display = state_store_type.description();
        assert!(!display.is_empty(), "StateStoreType {state_store_type:?} has empty display");
    }
}

#[test]
fn test_state_store_type_displays_are_descriptive() {
    assert!(StateStoreType::InMemory.description().len() > 10);
    assert!(StateStoreType::Redb.description().len() > 10);
}
