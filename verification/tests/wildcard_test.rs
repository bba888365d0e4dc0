use drasi_server::wildcard::{is_wildcard_pattern, wildcard_match, wildcard_matches_plugin};

#[test]
fn test_is_wildcard_pattern() {
    assert!(is_wildcard_pattern("source/*"));
    assert!(is_wildcard_pattern("*/postgres"));
    assert!(is_wildcard_pattern("source/postgres?"));
    assert!(!is_wildcard_pattern("source/postgres"));
    assert!(!is_wildcard_pattern("file:///tmp/plugin.so"));
}

#[test]
fn test_wildcard_match() {
    assert!(wildcard_match("*/postgres", "source/postgres"));
    assert!(wildcard_match("*/postgres", "bootstrap/postgres"));
    assert!(wildcard_match("source/*", "source/postgres"));
    assert!(!wildcard_match("source/*", "reaction/log"));
    assert!(wildcard_match("source/postgre?", "source/postgres"));
}

#[test]
fn test_wildcard_matches_plugin() {
    let versions = ["0.1.9", "0.1.10"];
    assert!(wildcard_matches_plugin(
        "source/*",
        "source/postgres",
        "ghcr.io/drasi-project/source/postgres",
        &versions,
    ));
    assert!(wildcard_matches_plugin(
        "*/postgres",
        "source/postgres",
        "ghcr.io/drasi-project/source/postgres",
        &versions,
    ));
    assert!(wildcard_matches_plugin(
        "source/postgres:0.1.10",
        "source/postgres",
        "ghcr.io/drasi-project/source/postgres",
        &versions,
    ));
    assert!(!wildcard_matches_plugin(
        "reaction/*",
        "source/postgres",
        "ghcr.io/drasi-project/source/postgres",
        &versions,
    ));
}

#[test]
fn wildcard_star_matches_empty_and_question_one_char() {
    assert!(wildcard_match("*", ""));
    assert!(wildcard_match("a*b", "ab"));
    assert!(!wildcard_match("a?b", "ab"));
    assert!(wildcard_match("a?b", "axb"));
    assert!(!wildcard_match("source/postgre?", "source/postgresql"));
}

#[test]
fn wildcard_version_pattern_requires_known_version() {
    let versions = ["0.1.9", "0.1.10"];
    assert!(!wildcard_matches_plugin(
        "source/postgres:0.2.0",
        "source/postgres",
        "ghcr.io/drasi-project/source/postgres",
        &versions,
    ));
}
