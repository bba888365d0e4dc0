use drasi_server::version::ApiVersion;

#[test]
fn test_version_path_prefix() {
    assert_eq!(ApiVersion::V1.path_prefix(), "/api/v1");
}

#[test]
fn test_version_as_str() {
    assert_eq!(ApiVersion::V1.as_str(), "v1");
}

#[test]
fn test_version_from_str() {
    assert_eq!("v1".parse::<ApiVersion>().unwrap(), ApiVersion::V1);
    assert_eq!("V1".parse::<ApiVersion>().unwrap(), ApiVersion::V1);
    assert_eq!("1".parse::<ApiVersion>().unwrap(), ApiVersion::V1);
    assert!("v99".parse::<ApiVersion>().is_err());
}

#[test]
fn test_all_versions() {
    let versions = ApiVersion::all();
    assert!(versions.contains(&ApiVersion::V1));
}
