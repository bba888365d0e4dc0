use drasi_server::builder::DrasiServerBuilder;

/// A stand-in for the builder of one DrasiLib instance: the queries it was given.
type InstanceBuilder = Vec<(String, String, Vec<String>)>;

#[test]
fn test_builder_defaults() {
    let builder: DrasiServerBuilder<InstanceBuilder> = DrasiServerBuilder::new(Vec::new());
    let (enable_api, host, port, config_file, builders) = builder.into_parts();
    assert_eq!(host, "127.0.0.1".to_string());
    assert_eq!(port, 8080);
    assert!(!enable_api);
    assert!(config_file.is_none());
    assert_eq!(builders.len(), 1);
}

#[test]
fn test_builder_fluent_api() {
    let builder: DrasiServerBuilder<InstanceBuilder> = DrasiServerBuilder::new(Vec::new());
    // The query goes to the primary instance's builder.
    let (mut primary, rest) = builder.take_primary();
    primary.push(("test_query".to_string(), "MATCH (n) RETURN n".to_string(), vec!["test_source".to_string()]));
    let builder = rest.put_primary(primary).with_port(9090);

    let (enable_api, _host, port, _config_file, builders) = builder.into_parts();
    assert!(enable_api);
    assert_eq!(port, 9090);
    assert_eq!(builders[0].len(), 1);
}

#[test]
fn builder_settings_accumulate() {
    let builder: DrasiServerBuilder<u8> = DrasiServerBuilder::new(1)
        .add_instance_builder(2)
        .with_host_port("0.0.0.0".to_string(), 9000)
        .with_config_file("server.yaml".to_string());
    let (enable_api, host, port, config_file, builders) = builder.into_parts();
    assert!(enable_api);
    assert_eq!(host, "0.0.0.0");
    assert_eq!(port, 9000);
    assert_eq!(config_file, Some("server.yaml".to_string()));
    assert_eq!(builders, vec![1, 2]);
}

#[test]
fn enable_api_keeps_port() {
    let builder: DrasiServerBuilder<u8> = DrasiServerBuilder::new(1).enable_api();
    let (enable_api, _, port, _, _) = builder.into_parts();
    assert!(enable_api);
    assert_eq!(port, 8080);
}
