//! Configuration: durations, locations, precedence and warnings.

use std::collections::HashMap;

use agent_sessions::config::{
    format_duration, parse_duration, Config, FileText, Loaded, DEFAULT_FORGOTTEN_SECS,
};
use agent_sessions::time::Duration;

fn env(pairs: &[(&str, &str)]) -> impl Fn(&str) -> Option<String> {
    let map: HashMap<String, String> =
        pairs.iter().map(|(k, v)| (k.to_string(), v.to_string())).collect();
    move |name: &str| map.get(name).cloned()
}

/// A file system that holds one configuration file.
fn holding(path: &str, text: &str) -> impl Fn(&String) -> FileText {
    let (path, text) = (path.to_owned(), text.to_owned());
    move |asked: &String| {
        if *asked == path {
            FileText::Text(text.clone())
        } else {
            FileText::Missing
        }
    }
}

fn empty(_: &String) -> FileText {
    FileText::Missing
}

#[test]
fn durations_parse_in_every_unit() {
    assert_eq!(parse_duration("30s"), Ok(Duration::from_secs(30)));
    assert_eq!(parse_duration("5m"), Ok(Duration::from_secs(300)));
    assert_eq!(parse_duration("2h"), Ok(Duration::from_secs(7200)));
    assert_eq!(parse_duration("14d"), Ok(Duration::from_secs(DEFAULT_FORGOTTEN_SECS)));
    assert_eq!(parse_duration("14d"), Ok(Config::default().forgotten_after));
    assert_eq!(parse_duration(" 7d "), Ok(Duration::from_secs(7 * 86400)));
}

#[test]
fn durations_reject_everything_else() {
    for bad in [
        "", "14", "d", "1.5h", "-3d", "1w", "ten d", "10x",
        // A multi-byte tail is malformed like any other.
        "14€", "€", "10ü",
    ] {
        assert!(parse_duration(bad).is_err(), "{bad} parsed");
    }
    // Overflows report as invalid rather than wrapping.
    assert!(parse_duration("18446744073709551615d").is_err());
}

#[test]
fn a_rejected_duration_is_named_back() {
    assert_eq!(
        parse_duration(" soon "),
        Err("`soon` is not a duration: use <n><unit> with s, m, h or d".to_owned())
    );
}

#[test]
fn durations_format_back() {
    assert_eq!(format_duration(Duration::from_secs(DEFAULT_FORGOTTEN_SECS)), "14d");
    assert_eq!(format_duration(Duration::from_secs(90)), "90s");
    assert_eq!(format_duration(Duration::from_secs(3600)), "1h");
    assert_eq!(format_duration(Duration { secs: 0, nanos: 0 }), "0s");
}

#[test]
fn formatted_durations_parse_back() {
    for secs in [0, 1, 59, 60, 90, 3_600, 86_400, 1_209_600, u64::MAX] {
        let duration = Duration::from_secs(secs);
        assert_eq!(parse_duration(&format_duration(duration)), Ok(duration));
    }
}

#[test]
fn without_xdg_or_home_there_is_no_file_to_read() {
    let loaded = Config::load_with(&env(&[]), &empty);
    assert_eq!(loaded.config, Config::default());
    assert!(loaded.warnings.is_empty());
}

#[test]
fn the_config_path_prefers_xdg_and_falls_back_to_home() {
    assert_eq!(
        Config::path(&env(&[("XDG_CONFIG_HOME", "/xdg"), ("HOME", "/home")])),
        Some("/xdg/agent-sessions/config.toml".to_owned())
    );
    assert_eq!(
        Config::path(&env(&[("HOME", "/home")])),
        Some("/home/.config/agent-sessions/config.toml".to_owned())
    );
    assert_eq!(Config::path(&env(&[])), None);
}

#[test]
fn the_state_dir_prefers_xdg_and_falls_back_to_home() {
    assert_eq!(
        Config::state_dir(&env(&[("XDG_STATE_HOME", "/state")])),
        Some("/state/agent-sessions".to_owned())
    );
    assert_eq!(
        Config::state_dir(&env(&[("HOME", "/home")])),
        Some("/home/.local/state/agent-sessions".to_owned())
    );
    assert_eq!(Config::state_dir(&env(&[])), None);
}

#[test]
fn a_missing_file_loads_defaults_silently() {
    let loaded = Config::load_with(&env(&[("XDG_CONFIG_HOME", "/xdg")]), &empty);
    assert_eq!(loaded.config, Config::default());
    assert!(loaded.warnings.is_empty());
}

#[test]
fn a_malformed_file_warns_and_keeps_defaults() {
    let loaded = Config::load_with(
        &env(&[("XDG_CONFIG_HOME", "/xdg")]),
        &holding("/xdg/agent-sessions/config.toml", "forgotten_after = [oops"),
    );
    assert_eq!(loaded.config, Config::default());
    assert_eq!(loaded.warnings.len(), 1);
    assert!(loaded.warnings[0].contains("using defaults"));
    assert!(loaded.warnings[0].starts_with("/xdg/agent-sessions/config.toml: "));
}

#[test]
fn an_unreadable_file_warns_and_keeps_defaults() {
    let loaded = Config::load_with(&env(&[("XDG_CONFIG_HOME", "/xdg")]), &|_: &String| {
        FileText::Failed("Is a directory".to_owned())
    });
    assert_eq!(loaded.config, Config::default());
    assert_eq!(
        loaded.warnings,
        ["/xdg/agent-sessions/config.toml: Is a directory; using defaults"]
    );
}

#[test]
fn the_file_overrides_defaults_and_environment_overrides_the_file() {
    let file = holding(
        "/xdg/agent-sessions/config.toml",
        "forgotten_after = \"30d\"\nunknown_future_key = 1\n",
    );
    let loaded = Config::load_with(&env(&[("XDG_CONFIG_HOME", "/xdg")]), &file);
    assert_eq!(loaded.config.forgotten_after, Duration::from_secs(30 * 86400));
    assert!(loaded.warnings.is_empty());

    let loaded = Config::load_with(
        &env(&[("XDG_CONFIG_HOME", "/xdg"), ("AGENT_SESSIONS_FORGOTTEN_AFTER", "2h")]),
        &file,
    );
    assert_eq!(loaded.config.forgotten_after, Duration::from_secs(7200));
}

#[test]
fn a_bad_environment_override_warns_and_keeps_the_file_value() {
    let loaded = Config::load_with(
        &env(&[("XDG_CONFIG_HOME", "/xdg"), ("AGENT_SESSIONS_FORGOTTEN_AFTER", "soon")]),
        &holding("/xdg/agent-sessions/config.toml", "forgotten_after = \"30d\"\n"),
    );
    assert_eq!(loaded.config.forgotten_after, Duration::from_secs(30 * 86400));
    assert_eq!(
        loaded.warnings,
        ["AGENT_SESSIONS_FORGOTTEN_AFTER=\"soon\": `soon` is not a duration: \
          use <n><unit> with s, m, h or d; keeping 30d"]
    );
}

#[test]
fn a_non_string_value_is_malformed() {
    assert!(Config::parse("forgotten_after = 14").is_err());
    assert!(Config::parse("forgotten_after = \"fortnight\"").is_err());
    assert_eq!(
        Config::parse("forgotten_after = 14"),
        Err("`forgotten_after` must be a duration string like \"14d\"".to_owned())
    );
}

#[test]
fn entries_of_a_file_make_the_configuration() {
    let entry = |key: &str, value: Option<&str>| (key.to_owned(), value.map(str::to_owned));
    assert_eq!(
        Config::from_entries(&vec![
            entry("forgotten_after", Some("2h")),
            entry("later_release", None),
        ]),
        Ok(Config { forgotten_after: Duration::from_secs(7200) })
    );
    assert_eq!(Config::from_entries(&vec![]), Ok(Config::default()));
    assert!(Config::from_entries(&vec![
        entry("forgotten_after", None),
        entry("forgotten_after", Some("2h")),
    ])
    .is_err());
}

#[test]
fn a_file_and_an_override_are_applied_in_order() {
    let path = "/c/config.toml";
    let text = FileText::Text("forgotten_after = \"3m\"".to_owned());
    let loaded = Loaded::from_file(path, &text);
    assert_eq!(loaded.config.forgotten_after, Duration::from_secs(180));
    let loaded = loaded.override_with(None);
    assert_eq!(loaded.config.forgotten_after, Duration::from_secs(180));
    let loaded = loaded.override_with(Some("4m"));
    assert_eq!(loaded.config.forgotten_after, Duration::from_secs(240));
    assert!(loaded.warnings.is_empty());
}
