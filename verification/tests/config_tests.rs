use nodewipe::config::{
    config_path, config_path_in, ignore_file_locations, ignore_files_for, parse_delete_mode, resolve_delete_mode,
    Config,
};
use nodewipe::deleter::DeleteMode;

fn cfg(mode: Option<&str>) -> Config {
    Config { default_delete_mode: mode.map(|m| m.to_string()), default_exclude_types: None }
}

#[test]
fn config_file_lives_under_nodewipe() {
    assert_eq!(config_path_in("/home/me/.config"), "/home/me/.config/nodewipe/config.toml");
    assert_eq!(config_path_in("/home/me/.config/"), "/home/me/.config/nodewipe/config.toml");
}

#[test]
fn config_path_when_known_names_config_toml() {
    if let Some(p) = config_path() {
        assert!(p.ends_with("/nodewipe/config.toml"), "{p}");
        assert!(p.len() > "/nodewipe/config.toml".len());
    }
}

#[test]
fn ignore_files_global_then_root() {
    assert_eq!(
        ignore_files_for(Some("/home/me".to_string()), "/work"),
        vec!["/home/me/.nodewipeignore".to_string(), "/work/.nodewipeignore".to_string()]
    );
    assert_eq!(ignore_files_for(None, "."), vec!["./.nodewipeignore".to_string()]);
}

#[test]
fn ignore_locations_end_with_the_root_file() {
    let v = ignore_file_locations("/work");
    assert!(!v.is_empty() && v.len() <= 2);
    assert_eq!(v.last().unwrap(), "/work/.nodewipeignore");
    if v.len() == 2 {
        assert!(v[0].ends_with(".nodewipeignore"));
    }
}

#[test]
fn delete_modes_by_name() {
    assert_eq!(parse_delete_mode("trash"), Some(DeleteMode::Trash));
    assert_eq!(parse_delete_mode("archive"), Some(DeleteMode::Archive));
    assert_eq!(parse_delete_mode("permanent"), Some(DeleteMode::Permanent));
    assert_eq!(parse_delete_mode("Archive"), None);
    assert_eq!(parse_delete_mode(""), None);
}

#[test]
fn cli_mode_wins_over_config() {
    assert_eq!(resolve_delete_mode(Some(DeleteMode::Permanent), &cfg(Some("archive"))), (DeleteMode::Permanent, None));
}

#[test]
fn config_mode_applies_without_cli_mode() {
    assert_eq!(resolve_delete_mode(None, &cfg(Some("archive"))), (DeleteMode::Archive, None));
    assert_eq!(resolve_delete_mode(None, &cfg(Some("permanent"))), (DeleteMode::Permanent, None));
    assert_eq!(resolve_delete_mode(None, &cfg(Some("trash"))), (DeleteMode::Trash, None));
    assert_eq!(resolve_delete_mode(None, &cfg(None)), (DeleteMode::Trash, None));
}

#[test]
fn unknown_config_mode_falls_back_to_trash_with_a_warning() {
    assert_eq!(resolve_delete_mode(None, &cfg(Some("shred"))), (DeleteMode::Trash, Some("shred".to_string())));
}

#[test]
fn default_config_is_empty() {
    let c = Config::default();
    assert!(c.default_delete_mode.is_none());
    assert!(c.default_exclude_types.is_none());
}
