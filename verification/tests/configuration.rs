use mon_mapper::config::{
    accept_config, resolve_config_path, select_preset, ConfigError, ConfigLocation,
    StoredConfiguration,
};
use mon_mapper::displays::DisplaysConfiguration;
use mon_mapper::log_level::{effective_level, LogLevel};
use std::path::PathBuf;

fn preset(profile: &str, entries: usize) -> DisplaysConfiguration {
    let mut cfg = DisplaysConfiguration::new();
    cfg.profile = profile.to_string();
    for i in 0..entries {
        cfg.add(mon_mapper::monitor::MonitorDefinition::from_id(
            &format!("SN{i}"),
            false,
            0,
            1,
            1,
        ));
    }
    cfg
}

fn stored(presets: Vec<DisplaysConfiguration>) -> StoredConfiguration {
    StoredConfiguration { presets, log_level: None }
}

fn level(text: &str) -> Option<LogLevel> {
    effective_level(None, &Some(text.to_string())).ok()
}

#[test]
fn resolve_config_path_explicit_overrides_default() {
    let explicit = PathBuf::from("/custom/path/config.yaml");
    let result = resolve_config_path(
        Some(explicit.as_path()),
        Some("/xdg".to_string()),
        Some("/home/me".to_string()),
    )
    .unwrap();
    match result {
        ConfigLocation::Explicit(path) => assert_eq!(path, explicit),
        ConfigLocation::Beneath(_) => panic!("the explicit path was passed over"),
    }
}

fn names(config_home: Option<&str>, home: Option<&str>) -> Option<Vec<String>> {
    let found = resolve_config_path::<PathBuf>(
        None,
        config_home.map(String::from),
        home.map(String::from),
    );
    match found {
        Ok(ConfigLocation::Beneath(names)) => Some(names),
        _ => None,
    }
}

#[test]
fn config_directory_comes_before_home() {
    assert_eq!(
        names(Some("/xdg"), Some("/home/me")).unwrap(),
        ["/xdg", "mon-mapper", "config.yaml"]
    );
    assert_eq!(
        names(None, Some("/home/me")).unwrap(),
        ["/home/me", ".config", "mon-mapper", "config.yaml"]
    );
}

#[test]
fn config_path_needs_a_directory() {
    let err = resolve_config_path::<PathBuf>(None, None, None).unwrap_err();
    assert!(matches!(err, ConfigError::HomeNotSet));
    assert_eq!(err.message(), "HOME environment variable not set");
}

#[test]
fn config_without_presets_is_refused() {
    let err = accept_config(stored(vec![])).unwrap_err();
    assert!(matches!(err, ConfigError::NoPresetsDefined));
    assert!(err.message().contains("no presets"));
    assert_eq!(err.message(), "Config file has no presets defined");
}

#[test]
fn config_with_presets_is_kept() {
    let kept = accept_config(StoredConfiguration {
        presets: vec![preset("office", 2), preset("home", 1)],
        log_level: Some("debug".into()),
    })
    .unwrap();
    assert_eq!(kept.presets.len(), 2);
    assert_eq!(kept.presets[0].displays.len(), 2);
    assert_eq!(kept.log_level.as_deref(), Some("debug"));
    assert_eq!(select_preset(kept, None).unwrap().profile, "office");
}

#[test]
fn first_preset_is_the_default() {
    let config = stored(vec![preset("office", 1), preset("home", 2)]);
    let chosen = select_preset(config, None).unwrap();
    assert_eq!(chosen.profile, "office");
    assert_eq!(chosen.displays.len(), 1);
}

#[test]
fn first_preset_of_the_profile_is_chosen() {
    let config = stored(vec![preset("office", 1), preset("home", 2), preset("home", 3)]);
    let chosen = select_preset(config, Some("home".into())).unwrap();
    assert_eq!(chosen.profile, "home");
    assert_eq!(chosen.displays.len(), 2);
}

#[test]
fn unknown_profile_is_an_error() {
    let err = select_preset(stored(vec![preset("office", 1)]), Some("home".into())).unwrap_err();
    assert!(matches!(err, ConfigError::ProfileNotFound(_)));
    assert_eq!(err.message(), "Profile 'home' not found in config");
}

#[test]
fn no_presets_is_an_error() {
    let err = select_preset(stored(vec![]), None).unwrap_err();
    assert!(matches!(err, ConfigError::NoPresets));
    assert_eq!(err.message(), "No presets in config");
}

#[test]
fn log_levels_by_name_in_any_case() {
    assert_eq!(level("ERROR"), Some(LogLevel::Error));
    assert_eq!(level("warn"), Some(LogLevel::Warn));
    assert_eq!(level("Info"), Some(LogLevel::Info));
    assert_eq!(level("debug"), Some(LogLevel::Debug));
    assert_eq!(level("DEBUG"), Some(LogLevel::Debug));
    assert_eq!(level("tRaCe"), Some(LogLevel::Trace));
}

#[test]
fn log_levels_by_number() {
    assert_eq!(level("1"), Some(LogLevel::Error));
    assert_eq!(level("2"), Some(LogLevel::Warn));
    assert_eq!(level("3"), Some(LogLevel::Info));
    assert_eq!(level("+4"), Some(LogLevel::Debug));
    assert_eq!(level("0005"), Some(LogLevel::Trace));
    assert_eq!(level("000000000000000000000000000000000000000000000005"), Some(LogLevel::Trace));
}

#[test]
fn other_texts_are_no_log_levels() {
    for text in ["INVALID", "", "0", "6", "-1", "+", "1 ", " 1", "++1", "warning", "off", "info\n"] {
        assert_eq!(level(text), None, "accepted {text:?}");
    }
    assert_eq!(level("99999999999999999999999999999999"), None);
    assert_eq!(level("\u{131}nfo"), None);
    assert_eq!(level("\u{661}"), None);
}

#[test]
fn command_line_level_wins() {
    let config = Some("debug".to_string());
    assert_eq!(effective_level(Some(LogLevel::Error), &config).unwrap(), LogLevel::Error);
    assert_eq!(effective_level(Some(LogLevel::Trace), &None).unwrap(), LogLevel::Trace);
    assert_eq!(effective_level(None, &config).unwrap(), LogLevel::Debug);
    assert_eq!(effective_level(None, &None).unwrap(), LogLevel::Info);
}

#[test]
fn invalid_level_in_the_file_is_an_error_all_the_same() {
    let config = Some("INVALID".to_string());
    let err = effective_level(Some(LogLevel::Error), &config).unwrap_err();
    assert!(matches!(err, ConfigError::InvalidLogLevel));
    assert_eq!(err.message(), "Invalid log_level in config file");
    assert!(effective_level(None, &config).is_err());
}
