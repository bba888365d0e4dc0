use drasi_server::json::JsonValue;
use drasi_server::keyed::KeyedStore;
use drasi_server::models::SourceConfig;
use drasi_server::persistence::{ConfigPersistence, LibSnapshot};

fn source(id: &str, kind: &str) -> SourceConfig {
    SourceConfig {
        kind: kind.to_string(),
        id: id.to_string(),
        auto_start: true,
        bootstrap_provider: None,
        config: JsonValue::Object(Vec::new()),
    }
}

#[test]
fn saved_sources_keep_initial_ones_then_registered_ones() {
    let mut initial_inner: KeyedStore<SourceConfig> = KeyedStore::new();
    initial_inner.insert("s1".to_string(), source("s1", "mock"));
    initial_inner.insert("s2".to_string(), source("s2", "mock"));
    let mut initial: KeyedStore<KeyedStore<SourceConfig>> = KeyedStore::new();
    initial.insert("main".to_string(), initial_inner);
    let mut p = ConfigPersistence::new(
        "config.yaml".to_string(),
        "0.0.0.0".to_string(),
        8080,
        "info".to_string(),
        true,
        KeyedStore::new(),
        initial,
        KeyedStore::new(),
        KeyedStore::new(),
    );
    p.register_source("main", source("s3", "http"));
    p.register_source("main", source("s1", "postgres"));
    p.register_source("main", source("s4", "mock"));
    let snaps = vec![LibSnapshot {
        registry_id: "main".to_string(),
        lib_id: "main".to_string(),
        priority_queue_capacity: None,
        dispatch_buffer_capacity: None,
    }];
    let cfg = p.build_saved_config(&snaps).expect("persistence is enabled");
    let ids: Vec<&str> = cfg.sources.iter().map(|s| s.id.as_str()).collect();
    assert_eq!(ids, vec!["s1", "s2", "s3", "s4"]);
    assert_eq!(cfg.sources[0].kind, "postgres");
    assert_eq!(cfg.sources[2].kind, "http");
}
