use drasi_server::prompts::{BootstrapType, ReactionType, SourceType, StateStoreType};

#[test]
fn test_source_type_equality() {
    assert_eq!(SourceType::Postgres, SourceType::Postgres);
    assert_ne!(SourceType::Postgres, SourceType::Http);
    assert_ne!(SourceType::Mock, SourceType::Grpc);
}

#[test]
fn test_source_type_clone() {
    let original = SourceType::Http;
    let cloned = original;
    assert_eq!(original, cloned);
}

#[test]
fn test_source_type_debug() {
    let source_type = SourceType::Postgres;
    let debug = format!("{source_type:?}");
    assert_eq!(debug, "Postgres");
}

#[test]
fn test_bootstrap_type_equality() {
    assert_eq!(BootstrapType::NoBootstrap, BootstrapType::NoBootstrap);
    assert_ne!(BootstrapType::Postgres, BootstrapType::ScriptFile);
}

#[test]
fn test_bootstrap_type_debug() {
    let bootstrap_type = BootstrapType::ScriptFile;
    let debug = format!("{bootstrap_type:?}");
    assert_eq!(debug, "ScriptFile");
}

#[test]
fn test_reaction_type_equality() {
    assert_eq!(ReactionType::Log, ReactionType::Log);
    assert_ne!(ReactionType::Http, ReactionType::Sse);
    assert_ne!(ReactionType::Grpc, ReactionType::Log);
}

#[test]
fn test_reaction_type_clone() {
    let original = ReactionType::Sse;
    let cloned = original;
    assert_eq!(original, cloned);
}

#[test]
fn test_state_store_type_equality() {
    assert_eq!(StateStoreType::InMemory, StateStoreType::InMemory);
    assert_eq!(StateStoreType::Redb, StateStoreType::Redb);
    assert_ne!(StateStoreType::InMemory, StateStoreType::Redb);
}

#[test]
fn test_state_store_type_debug() {
    let state_store_type = StateStoreType::Redb;
    let debug = format!("{state_store_type:?}");
    assert_eq!(debug, "Redb");
}
