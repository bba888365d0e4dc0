use drasi_server::config::ConfigError;
use drasi_server::models::{DecodeError, Field};
use drasi_server::version::ApiVersion;
use drasi_server::config::{DrasiLibInstanceConfig, DrasiServerConfig, TrustedIdentity};
use drasi_server::instance_registry::InstanceRegistry;
use drasi_server::keyed::KeyedStore;
use drasi_server::models::ConfigValue;
use drasi_server::plugin_cli::{
    base_reference, config_install_start, contains_str, entry_for_file, get_plugin_registry, install_step,
    is_non_oci, is_plugin_file, locked_plan, plan_plugin_command, select_for_pattern, select_upgrade_targets,
    source_kind, trusted_identities_for, upgrade_decision, upgrade_precheck, ConfigInstallStart, InstallAction,
    InstallEvent, InstallOutcome, InstallStage, InstallTally, LockedPlan, PluginAction, PluginTask, SearchEntry,
    SourceKind, UpgradeDecision, UpgradeRefusal, uri_lock_entry, lock_needs_write, PluginMetadata, install_route, InstallRoute,
};
use drasi_server::prompts::{millis_or, port_or, sensor_count, split_list};
use drasi_server::resolve::{parse_number, resolve_port, resolve_string, resolve_usize, Env, ResolveError};
use drasi_server::responses::ApiResponse;
use drasi_server::server::{api_mode, collect_instances, index_path, persistence_active, safe_instance_id, ApiMode};
use drasi_server::settings::{is_valid_hostname, validate_server_settings, SettingsError};
use drasi_server::validation::decimal;

fn env(vars: &[(&str, &str)]) -> Env {
    Env::new(vars.iter().map(|(k, v)| (k.to_string(), v.to_string())).collect())
}

// ==================== Instance registry ====================

#[test]
fn registry_add_then_get_and_remove() {
    let mut registry: InstanceRegistry<u32> = InstanceRegistry::new();
    assert!(registry.is_empty());
    registry.add("a".to_string(), 1).unwrap();
    registry.add("b".to_string(), 2).unwrap();
    assert_eq!(registry.get("a"), Some(&1));
    assert_eq!(registry.get("b"), Some(&2));
    assert_eq!(registry.len(), 2);
    assert_eq!(registry.list_ids(), vec!["a".to_string(), "b".to_string()]);
    assert_eq!(registry.get_default().map(|(id, v)| (id, *v)), Some(("a".to_string(), 1)));
    assert_eq!(registry.add("a".to_string(), 3), Err("Instance 'a' already exists".to_string()));
    assert_eq!(registry.get("a"), Some(&1));
    assert_eq!(registry.remove("a"), Some(1));
    assert_eq!(registry.get("a"), None);
    assert!(!registry.contains("a"));
    assert_eq!(registry.get("b"), Some(&2));
    assert_eq!(registry.remove("a"), None);
}

#[test]
fn registry_from_map_keeps_order() {
    let mut store: KeyedStore<&str> = KeyedStore::new();
    store.insert("x".to_string(), "first");
    store.insert("y".to_string(), "second");
    let registry = InstanceRegistry::from_map(store);
    let listed: Vec<(String, &str)> = registry.list().into_iter().map(|(k, v)| (k, *v)).collect();
    assert_eq!(listed, vec![("x".to_string(), "first"), ("y".to_string(), "second")]);
}

#[test]
fn keyed_store_insert_replace_and_remove() {
    let mut store: KeyedStore<u8> = KeyedStore::new();
    assert_eq!(store.insert("a".to_string(), 1), None);
    assert_eq!(store.insert("b".to_string(), 2), None);
    assert_eq!(store.insert("c".to_string(), 3), None);
    assert_eq!(store.insert("a".to_string(), 9), Some(1));
    assert_eq!(store.position("a"), Some(0));
    assert_eq!(store.get("a"), Some(&9));
    // swap_remove moves the last entry into the gap.
    assert_eq!(store.swap_remove("a"), Some(9));
    assert_eq!(store.key_at(0), "c");
    // shift_remove keeps the order of the rest.
    assert_eq!(store.shift_remove("c"), Some(3));
    assert_eq!(store.key_at(0), "b");
    assert_eq!(store.len(), 1);
    assert!(!store.contains("a"));
}

// ==================== Server helpers ====================

#[test]
fn safe_instance_ids_and_index_paths() {
    assert_eq!(safe_instance_id("tenant/a\\b"), "tenant_a_b");
    assert_eq!(safe_instance_id("../etc"), "__etc");
    assert_eq!(safe_instance_id("plain-id"), "plain-id");
    assert_eq!(index_path("tenant/a"), "./data/tenant_a/index");
}

#[test]
fn api_mode_and_persistence() {
    assert_eq!(api_mode(false, true), ApiMode::ReadOnly);
    assert_eq!(api_mode(true, false), ApiMode::Unsaved);
    assert_eq!(api_mode(true, true), ApiMode::Persisted);
    assert!(persistence_active(true, false, true));
    assert!(!persistence_active(true, true, true));
    assert!(!persistence_active(false, false, true));
    assert!(!persistence_active(true, false, false));
}

#[test]
fn collect_instances_requires_one() {
    let none: Vec<(String, bool, u8)> = Vec::new();
    match collect_instances(none) {
        Err(m) => assert_eq!(m, "No DrasiLib instances configured for this server"),
        Ok(_) => panic!("expected an error"),
    }
    let some = vec![("a".to_string(), true, 1u8), ("b".to_string(), false, 2u8)];
    let store = collect_instances(some).unwrap();
    assert_eq!(store.len(), 2);
    assert_eq!(store.get("b"), Some(&(false, 2u8)));
}

// ==================== Settings ====================

#[test]
fn hostnames() {
    assert!(is_valid_hostname("localhost"));
    assert!(is_valid_hostname("my-host.example.com"));
    assert!(!is_valid_hostname(""));
    assert!(!is_valid_hostname("-bad.example.com"));
    assert!(!is_valid_hostname("bad-.example.com"));
    assert!(!is_valid_hostname("a..b"));
    assert!(!is_valid_hostname("under_score"));
    assert!(!is_valid_hostname(&"a".repeat(64)));
}

#[test]
fn server_settings_errors() {
    assert_eq!(validate_server_settings("0.0.0.0", false, 8080, "info"), Ok(()));
    assert_eq!(validate_server_settings("", false, 8080, "INFO"), Ok(()));
    assert_eq!(validate_server_settings("::1", true, 8080, "warn"), Ok(()));
    let e = validate_server_settings("bad host", false, 8080, "info").unwrap_err();
    assert_eq!(e, SettingsError::InvalidHost("bad host".to_string()));
    assert_eq!(e.message(), "Invalid host 'bad host': must be a valid hostname or IP address");
    let e = validate_server_settings("localhost", false, 0, "info").unwrap_err();
    assert_eq!(e.message(), "Invalid port 0: port must be between 1 and 65535");
    let e = validate_server_settings("localhost", false, 80, "verbose").unwrap_err();
    assert_eq!(e.message(), "Invalid log level 'verbose': must be one of trace, debug, info, warn, error");
}

#[test]
fn configuration_validation_errors() {
    let mut c = DrasiServerConfig::default();
    c.port = ConfigValue::Static(0);
    assert!(c.validate(&env(&[]), false).is_err());
    let mut c = DrasiServerConfig::default();
    c.log_level = ConfigValue::Static("loud".to_string());
    assert!(c.validate(&env(&[]), false).is_err());
    let mut c = DrasiServerConfig::default();
    c.host = ConfigValue::EnvironmentVariable { name: "HOST".to_string(), default: None };
    assert!(c.validate(&env(&[]), false).is_err());
    assert!(c.validate(&env(&[("HOST", "example.com")]), false).is_ok());
}

#[test]
fn duplicate_instance_ids_are_refused() {
    let instance = |id: &str| DrasiLibInstanceConfig {
        id: ConfigValue::Static(id.to_string()),
        persist_index: false,
        state_store: None,
        default_priority_queue_capacity: None,
        default_dispatch_buffer_capacity: None,
        sources: Vec::new(),
        queries: Vec::new(),
        reactions: Vec::new(),
    };
    let mut c = DrasiServerConfig::default();
    c.instances = vec![instance("a"), instance("a")];
    assert!(c.resolved_instances(&env(&[])).is_err());
    c.instances = vec![instance("a"), instance("b")];
    let resolved = c.resolved_instances(&env(&[])).unwrap();
    assert_eq!(resolved.iter().map(|r| r.id.clone()).collect::<Vec<_>>(), vec!["a", "b"]);
}

// ==================== Resolution ====================

#[test]
fn numbers_and_resolution() {
    assert_eq!(parse_number("8080", 65535), Some(8080));
    assert_eq!(parse_number("+42", 100), Some(42));
    assert_eq!(parse_number("65536", 65535), None);
    assert_eq!(parse_number("", 10), None);
    assert_eq!(parse_number("1x", 10), None);
    let port = ConfigValue::EnvironmentVariable { name: "P".to_string(), default: Some("9000".to_string()) };
    assert_eq!(resolve_port(&port, &env(&[])), Ok(9000));
    assert_eq!(resolve_port(&port, &env(&[("P", "70000")])), Err(ResolveError::ParseError("70000".to_string())));
    let missing = ConfigValue::EnvironmentVariable { name: "MISSING".to_string(), default: None };
    assert_eq!(resolve_string(&missing, &env(&[])), Err(ResolveError::EnvVarNotFound("MISSING".to_string())));
    let secret: ConfigValue<String> = ConfigValue::Secret { name: "db".to_string() };
    assert!(matches!(resolve_string(&secret, &env(&[])), Err(ResolveError::SecretNotSupported(_))));
    assert_eq!(resolve_usize(&ConfigValue::Static(7), &env(&[])), Ok(7));
}

// ==================== Prompt answers ====================

#[test]
fn prompt_answers() {
    assert_eq!(port_or("5433", 5432), 5433);
    assert_eq!(port_or("not a port", 5432), 5432);
    assert_eq!(millis_or("250", 1000), 250);
    assert_eq!(millis_or("", 1000), 1000);
    assert_eq!(sensor_count("12"), 12);
    assert_eq!(split_list(" users, orders ,,items "), vec!["users", "orders", "items"]);
    assert!(split_list("").is_empty());
    assert_eq!(decimal(0), "0");
    assert_eq!(decimal(1234567890), "1234567890");
}

// ==================== Responses ====================

#[test]
fn api_responses() {
    let ok = ApiResponse::success(5u8);
    assert!(ok.success && ok.data == Some(5) && ok.error.is_none());
    let err: ApiResponse<u8> = ApiResponse::error("boom".to_string());
    assert!(!err.success && err.data.is_none() && err.error == Some("boom".to_string()));
}

// ==================== Plugin commands ====================

#[test]
fn plugin_reference_kinds_and_registry() {
    assert_eq!(source_kind("file:///tmp/p.so"), SourceKind::File);
    assert_eq!(source_kind("https://example.com/p.so"), SourceKind::Http);
    assert_eq!(source_kind("http://example.com/p.so"), SourceKind::Http);
    assert_eq!(source_kind("source/postgres"), SourceKind::Oci);
    assert_eq!(get_plugin_registry(None, Some("ghcr.io/me")), "ghcr.io/me");
    assert_eq!(get_plugin_registry(None, None), "ghcr.io/drasi-project");
    let mut c = DrasiServerConfig::default();
    c.plugin_registry = Some("ghcr.io/acme".to_string());
    assert_eq!(get_plugin_registry(Some(&c), None), "ghcr.io/acme");
    c.plugin_registry = None;
    assert_eq!(get_plugin_registry(Some(&c), None), "ghcr.io/drasi-project");
}

#[test]
fn trusted_identities_default_and_configured() {
    let ids = trusted_identities_for(None);
    assert_eq!(ids.len(), 1);
    assert_eq!(ids[0].issuer, "https://token.actions.githubusercontent.com");
    assert_eq!(ids[0].subject_pattern, "https://github.com/drasi-project/*");
    let mut c = DrasiServerConfig::default();
    c.trusted_identities =
        vec![TrustedIdentity { issuer: "https://issuer".to_string(), subject_pattern: "https://x/*".to_string() }];
    let ids = trusted_identities_for(Some(&c));
    assert_eq!(ids.len(), 1);
    assert_eq!(ids[0].issuer, "https://issuer");
}

#[test]
fn plugin_command_plans() {
    let refused = plan_plugin_command(PluginAction::Install {
        reference: None,
        from_config: false,
        registry: None,
        platform: None,
        locked: false,
    });
    assert_eq!(refused.err(), Some("provide a plugin reference or --from-config".to_string()));
    let single = plan_plugin_command(PluginAction::Install {
        reference: Some("source/postgres".to_string()),
        from_config: false,
        registry: None,
        platform: None,
        locked: false,
    });
    assert!(matches!(single, Ok(PluginTask::InstallSingle { reference, .. }) if reference == "source/postgres"));
    let from_config = plan_plugin_command(PluginAction::Install {
        reference: Some("ignored".to_string()),
        from_config: true,
        registry: None,
        platform: None,
        locked: true,
    });
    assert!(matches!(from_config, Ok(PluginTask::InstallFromConfig { locked: true, .. })));
    assert!(matches!(plan_plugin_command(PluginAction::List), Ok(PluginTask::List)));
}

#[test]
fn install_state_machine() {
    let (s, a) = install_step(InstallStage::Start, InstallEvent::NotCached);
    assert_eq!((s, a), (InstallStage::Resolving, InstallAction::Resolve));
    let (s, a) = install_step(s, InstallEvent::Resolved);
    assert_eq!((s, a), (InstallStage::CheckingFile, InstallAction::CheckFile));
    let (s, a) = install_step(s, InstallEvent::FileMissing);
    assert_eq!((s, a), (InstallStage::Downloading, InstallAction::Download));
    let (s, a) = install_step(s, InstallEvent::Downloaded);
    assert_eq!(a, InstallAction::RecordLock);
    let (s, a) = install_step(s, InstallEvent::LockRecorded);
    assert_eq!((s, a), (InstallStage::Done(InstallOutcome::Installed), InstallAction::Finish(InstallOutcome::Installed)));
    // Once done, nothing changes it.
    assert_eq!(install_step(s, InstallEvent::Resolved), (s, InstallAction::Ignore));
    assert_eq!(
        install_step(InstallStage::Start, InstallEvent::Cached).1,
        InstallAction::Finish(InstallOutcome::AlreadyInstalled)
    );
    let mut tally = InstallTally::new();
    tally.record(InstallOutcome::Installed);
    tally.record(InstallOutcome::Failed);
    tally.record(InstallOutcome::AlreadyInstalled);
    assert_eq!((tally.installed, tally.existing, tally.failed), (1, 1, 1));
    assert!(tally.any_failed());
}

#[test]
fn install_plans() {
    assert_eq!(config_install_start(0, true, true), ConfigInstallStart::NothingDeclared);
    assert_eq!(config_install_start(2, true, true), ConfigInstallStart::MissingLockfile);
    assert_eq!(config_install_start(2, false, true), ConfigInstallStart::Proceed);
    assert_eq!(locked_plan(false, true), LockedPlan::NotInLockfile);
    assert_eq!(locked_plan(true, true), LockedPlan::AlreadyInstalled);
    assert_eq!(locked_plan(true, false), LockedPlan::Download);
}

#[test]
fn search_and_upgrade_selection() {
    let results = vec![
        SearchEntry {
            reference: "source/postgres".to_string(),
            full_reference: "ghcr.io/drasi-project/source/postgres".to_string(),
            versions: vec!["0.1.9".to_string(), "0.1.10".to_string()],
        },
        SearchEntry {
            reference: "reaction/log".to_string(),
            full_reference: "ghcr.io/drasi-project/reaction/log".to_string(),
            versions: vec!["0.2.0".to_string()],
        },
    ];
    assert_eq!(select_for_pattern("*", &results), vec![0, 1]);
    assert_eq!(select_for_pattern("source/*", &results), vec![0]);
    assert_eq!(select_for_pattern("reaction/log:0.2.0", &results), vec![1]);
    assert!(select_for_pattern("bootstrap/*", &results).is_empty());

    let keys = vec!["source/postgres".to_string(), "source/http".to_string(), "reaction/log".to_string()];
    assert_eq!(select_upgrade_targets(&keys, "", true), Some(vec![0, 1, 2]));
    assert_eq!(select_upgrade_targets(&keys, "source/http", false), Some(vec![1]));
    assert_eq!(select_upgrade_targets(&keys, "source", false), Some(vec![0, 1]));
    assert_eq!(select_upgrade_targets(&keys, "bootstrap", false), None);
    assert_eq!(upgrade_precheck(false, false, true), Err(UpgradeRefusal::NoTarget));
    assert_eq!(upgrade_precheck(true, false, false), Err(UpgradeRefusal::NothingInstalled));
    assert_eq!(upgrade_precheck(false, true, true), Ok(()));
    assert_eq!(upgrade_decision("sha256:a", "sha256:a", false), UpgradeDecision::UpToDate);
    assert_eq!(upgrade_decision("sha256:a", "sha256:b", false), UpgradeDecision::Download);
    assert_eq!(upgrade_decision("sha256:a", "sha256:b", true), UpgradeDecision::Available);
}

#[test]
fn references_and_files() {
    assert_eq!(base_reference("ghcr.io/drasi-project/source/postgres:0.1.8"), "ghcr.io/drasi-project/source/postgres");
    assert_eq!(base_reference("localhost:5000/source/postgres:1.0"), "localhost:5000/source/postgres");
    assert_eq!(base_reference("source/postgres@sha256:abc"), "source/postgres");
    assert_eq!(base_reference("postgres:1.0"), "postgres");
    assert_eq!(base_reference("source/postgres"), "source/postgres");
    assert!(is_non_oci("file:///tmp/x.so"));
    assert!(is_non_oci("https://example.com/x.so"));
    assert!(!is_non_oci("source/postgres"));
    assert!(is_plugin_file("libdrasi_source_postgres.so"));
    assert!(is_plugin_file("drasi_source.dll"));
    assert!(is_plugin_file("libdrasi.dylib"));
    assert!(!is_plugin_file("README.md"));
    let names = vec!["a.so".to_string(), "b.so".to_string(), "a.so".to_string()];
    assert_eq!(entry_for_file(&names, "a.so"), Some(2));
    assert_eq!(entry_for_file(&names, "c.so"), None);
    assert!(contains_str("source/postgres", "post"));
    assert!(!contains_str("source", "sources"));
}

#[test]
fn uri_install_lock_entry_drops_empty_metadata() {
    let meta = PluginMetadata {
        plugin_version: "1.2.0".to_string(),
        sdk_version: "0.11.3".to_string(),
        core_version: "0.9.0".to_string(),
        lib_version: "0.9.3".to_string(),
        target_triple: "x86_64-unknown-linux-gnu".to_string(),
        git_commit: String::new(),
        build_timestamp: "2025-01-01T00:00:00Z".to_string(),
    };
    let entry = uri_lock_entry("file:///tmp/libsource_mock.so", &meta, "libsource_mock.so", Some("abc".to_string()));
    assert_eq!(entry.reference, "file:///tmp/libsource_mock.so");
    assert_eq!(entry.version, "1.2.0");
    assert_eq!(entry.digest, "");
    assert_eq!(entry.platform, "x86_64-unknown-linux-gnu");
    assert_eq!(entry.filename, "libsource_mock.so");
    assert_eq!(entry.file_hash, Some("abc".to_string()));
    assert_eq!(entry.git_commit, None);
    assert_eq!(entry.build_timestamp, Some("2025-01-01T00:00:00Z".to_string()));
    assert!(entry.signature.is_none());
    assert!(lock_needs_write(None, &entry));
    let again = uri_lock_entry("file:///tmp/libsource_mock.so", &meta, "libsource_mock.so", Some("abc".to_string()));
    assert!(!lock_needs_write(Some(&entry), &again));
    let changed = uri_lock_entry("file:///tmp/libsource_mock.so", &meta, "libsource_mock.so", Some("def".to_string()));
    assert!(lock_needs_write(Some(&entry), &changed));
}

#[test]
fn install_route_by_reference_form() {
    assert_eq!(install_route("file:///tmp/libx.so"), InstallRoute::Uri);
    assert_eq!(install_route("https://example.com/libx.so"), InstallRoute::Uri);
    assert_eq!(install_route("http://example.com/libx.so"), InstallRoute::Uri);
    assert_eq!(install_route("source/*"), InstallRoute::OciPattern);
    assert_eq!(install_route("reaction/log:0.?.0"), InstallRoute::OciPattern);
    assert_eq!(install_route("source/postgres:0.1.0"), InstallRoute::Oci);
}

#[test]
fn error_messages_read_as_the_server_reports_them() {
    assert_eq!(DecodeError::DuplicateField(Field::Kind).message(), "duplicate field `kind`");
    assert_eq!(DecodeError::MissingField(Field::Queries).message(), "missing field `queries`");
    assert_eq!(
        DecodeError::MisspelledField(Field::BootstrapProvider).message(),
        "unknown field `bootstrap_provider`, did you mean `bootstrapProvider`?"
    );
    assert_eq!(
        DecodeError::UnknownStateStoreKind("memory".to_string()).message(),
        "unknown variant `memory`, expected `redb`"
    );
    assert_eq!(
        DecodeError::InRedbStateStore(Box::new(DecodeError::UnknownField("file_path".to_string()))).message(),
        "in stateStore (kind=redb): unknown field `file_path`, expected `path`"
    );
    assert_eq!(
        DecodeError::InBootstrapProvider {
            source_id: "pg".to_string(),
            cause: Box::new(DecodeError::MissingField(Field::Kind))
        }
        .message(),
        "in source 'pg' bootstrapProvider: missing field `kind`"
    );
    assert_eq!(
        DecodeError::InItem { field: Field::Sources, index: 12, cause: Box::new(DecodeError::MissingField(Field::Id)) }
            .message(),
        "sources[12]: missing field `id`"
    );
    assert_eq!(
        ConfigError::DuplicateInstance("a".to_string()).message(),
        "Duplicate DrasiLib instance id detected: 'a'"
    );
    assert_eq!(ConfigError::NoInstances.message(), "At least one DrasiLib instance must be configured");
    assert_eq!(
        ConfigError::Resolve(ResolveError::EnvVarNotFound("PORT".to_string())).message(),
        "Environment variable 'PORT' not found and no default provided"
    );
}

#[test]
fn default_id_is_a_version_four_uuid() {
    let id = match drasi_server::config::default_id() {
        ConfigValue::Static(s) => s,
        _ => panic!("default id is static"),
    };
    let chars: Vec<char> = id.chars().collect();
    assert_eq!(chars.len(), 36);
    assert_eq!(chars[14], '4');
    assert!(matches!(chars[19], '8' | '9' | 'a' | 'b'));
}

#[test]
fn safe_instance_id_never_escapes_the_data_directory() {
    for id in ["../../x", "a/../b", "....", "...//..\\..", "./.", "x..y..z"] {
        let safe = safe_instance_id(id);
        assert!(!safe.contains('/'), "{safe}");
        assert!(!safe.contains('\\'), "{safe}");
        assert!(!safe.contains(".."), "{safe}");
    }
}

#[test]
fn api_version_parses_any_case() {
    assert_eq!(ApiVersion::parse("V1"), Ok(ApiVersion::V1));
    assert_eq!(ApiVersion::parse("1"), Ok(ApiVersion::V1));
    assert_eq!(ApiVersion::parse("v2"), Err("Unknown API version: v2".to_string()));
    assert_eq!("v1".parse::<ApiVersion>(), Ok(ApiVersion::V1));
}
