use pepys::config::{parse_config, ConfigMap};
use pepys::root::{resolve_root, ConfigurationError};

#[test]
fn no_configuration_uses_home() {
    let config = parse_config("");
    assert_eq!(resolve_root(&config, Some("/home/u")).unwrap(), "/home/u/pepys");
}

#[test]
fn configured_diary_path_wins() {
    let config = parse_config("diary_path = /custom/dir");
    assert_eq!(resolve_root(&config, Some("/home/u")).unwrap(), "/custom/dir");
    assert_eq!(resolve_root(&config, None).unwrap(), "/custom/dir");
}

#[test]
fn missing_home_without_override_is_an_error() {
    let config = parse_config("editor = vim\n");
    assert_eq!(resolve_root(&config, None), Err(ConfigurationError));
}

#[test]
fn config_lines() {
    let config = parse_config(
        "# comment\nfoo = bar\r\nno separator here\ndiary_path = /a\nx=y\ndiary_path = /b = c\n",
    );
    assert_eq!(config.get("foo").as_deref(), Some("bar"));
    assert_eq!(config.get("diary_path").as_deref(), Some("/b = c"));
    assert_eq!(config.get("x"), None);
    assert!(!config.contains_key("x=y"));
    assert!(config.contains_key("foo"));
    assert_eq!(config.entries.len(), 3);
}

#[test]
fn config_insert_and_get() {
    let mut config = ConfigMap::new();
    assert_eq!(config.get("k"), None);
    config.insert("k".to_string(), "1".to_string());
    config.insert("k".to_string(), "2".to_string());
    assert_eq!(config.get("k").as_deref(), Some("2"));
}

#[test]
fn config_empty_key_and_value() {
    let config = parse_config(" = \nk = ");
    assert_eq!(config.get("").as_deref(), Some(""));
    assert_eq!(config.get("k").as_deref(), Some(""));
}
