use pigeon::events::is_config_change;
use pigeon::cli::{check_profile, CliError};
use pigeon::config::history::HistoryConfig;
use pigeon::config::placement::{PlacementConfig, Position};
use pigeon::config::PigeonConfig;
use pigeon::history::{default_config_path, history_entry, join_path, path, timestamp_unix_ms};
use pigeon::notification::{Notification, NotificationHints};
use pigeon::string_map::StringMap;

fn notification() -> Notification {
    let mut hints = NotificationHints::default();
    hints.urgency = Some(1);
    hints.category = Some("email".to_string());
    hints.insert_string("b-key".to_string(), "2".to_string());
    hints.insert_string("a-key".to_string(), "1".to_string());
    Notification {
        id: 3,
        app_name: "mail".to_string(),
        app_icon: "mail-icon".to_string(),
        summary: "New mail".to_string(),
        body: "Hello".to_string(),
        img: None,
        actions: StringMap::new(),
        hints,
    }
}

#[test]
fn nothing_is_recorded_while_history_is_off() {
    assert!(history_entry(&HistoryConfig { enabled: false }, &notification(), 5).is_none());
}

#[test]
fn history_entries_copy_the_notification() {
    let entry = history_entry(&HistoryConfig { enabled: true }, &notification(), 1234).unwrap();
    assert_eq!(entry.timestamp_unix_ms, 1234);
    assert_eq!(entry.app_name, "mail");
    assert_eq!(entry.app_icon, "mail-icon");
    assert_eq!(entry.summary, "New mail");
    assert_eq!(entry.body, "Hello");
    assert!(!entry.has_image);
    assert_eq!(entry.hints.urgency, Some(1));
    assert_eq!(entry.hints.category.as_deref(), Some("email"));
    assert_eq!(entry.hints.desktop_entry, None);
    assert_eq!(
        entry.hints.strings,
        vec![("b-key".to_string(), "2".to_string()), ("a-key".to_string(), "1".to_string())]
    );
}

#[test]
fn timestamps_saturate() {
    assert_eq!(timestamp_unix_ms(None), 0);
    assert_eq!(timestamp_unix_ms(Some(1_700_000_000_000)), 1_700_000_000_000);
    assert_eq!(timestamp_unix_ms(Some(u128::MAX)), u64::MAX);
}

#[test]
fn the_history_file_lives_in_the_state_directory() {
    assert_eq!(path(Some("/state"), Some("/home/u")), "/state/pigeon/history.jsonl");
    assert_eq!(path(Some("/state/"), None), "/state/pigeon/history.jsonl");
    assert_eq!(path(None, Some("/home/u")), "/home/u/.local/state/pigeon/history.jsonl");
    assert_eq!(path(None, None), "./pigeon/history.jsonl");
    assert_eq!(path(Some(""), None), "pigeon/history.jsonl");
}

#[test]
fn the_config_file_honours_its_override() {
    assert_eq!(default_config_path(Some("/etc/p.toml"), Some("/cfg"), None), "/etc/p.toml");
    assert_eq!(default_config_path(None, Some("/cfg"), Some("/home/u")), "/cfg/pigeond/config.toml");
    assert_eq!(default_config_path(None, None, Some("/home/u")), "/home/u/.config/pigeond/config.toml");
    assert_eq!(join_path("a", "b"), "a/b");
    assert_eq!(join_path("", "b"), "b");
}

#[test]
fn only_known_profiles_can_be_activated() {
    let config = PigeonConfig::default();
    assert!(check_profile(&config, "default").is_ok());
    assert!(matches!(check_profile(&config, "work"), Err(CliError::UnknownProfile(name)) if name == "work"));
}

#[test]
fn placement_defaults_to_the_top_right() {
    let placement = PlacementConfig::default();
    assert_eq!(placement.position, Position::TopRight);
    assert_eq!(placement.top_margin, 16);
    assert_eq!(placement.notification_gap, 8);
    assert_eq!(Position::default(), Position::TopRight);
}

#[test]
fn config_changes_are_recognized_by_path() {

    let config = "/home/u/.config/pigeon/config.toml";
    let pointer = "/home/u/.local/state/pigeon/config-path";
    let paths = |ps: &[&str]| ps.iter().map(|p| p.to_string()).collect::<Vec<String>>();
    assert!(is_config_change(true, &paths(&["/home/u/.config/pigeon/config.toml"]), config, pointer));
    assert!(is_config_change(true, &paths(&["/tmp/x", "/home/u/.config/pigeon"]), config, pointer));
    assert!(is_config_change(true, &paths(&["/home/u/.config"]), config, pointer));
    assert!(is_config_change(true, &paths(&["/home/u/.local/state/pigeon/config-path"]), config, pointer));
    assert!(!is_config_change(true, &paths(&["/home/u/.config/pigeon/other.toml"]), config, pointer));
    assert!(!is_config_change(true, &paths(&["/home/u/.config/pigeon2"]), config, pointer));
    assert!(!is_config_change(false, &paths(&["/home/u/.config/pigeon/config.toml"]), config, pointer));
    assert!(!is_config_change(true, &paths(&[]), config, pointer));
}
