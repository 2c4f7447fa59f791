use protosearch_plugin::{Config, Error};

#[test]
fn test_target() {
    let config = Config::try_from("target=foo").unwrap();
    assert_eq!(config.target.as_deref(), Some("foo"));
}

#[test]
fn test_empty() {
    let config = Config::try_from("").unwrap();
    assert_eq!(config.target, None);
}

#[test]
fn test_unknown_parameter() {
    assert!(matches!(
        Config::try_from("unknown=bar").unwrap_err(),
        Error::InvalidRequest(_)
    ));
}

#[test]
fn test_target_with_unknown_parameter() {
    assert!(matches!(
        Config::try_from("target=foo,unknown=bar").unwrap_err(),
        Error::InvalidRequest(_)
    ));
}

#[test]
fn config_last_target_wins_and_empty_pieces_are_skipped() {
    let config = Config::try_from(",target=a,,target=bc,").unwrap();
    assert_eq!(config.target.as_deref(), Some("bc"));
}

#[test]
fn config_empty_target_value() {
    let config = Config::try_from("target=").unwrap();
    assert_eq!(config.target.as_deref(), Some(""));
}

#[test]
fn config_key_must_match_exactly() {
    assert!(Config::try_from("targets=foo").is_err());
    assert!(Config::try_from("target").is_err());
}
