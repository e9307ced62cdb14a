//! The command surface that exists today: `--version`, `--help`, and a usage
//! error for everything else.

use agent_sessions::cli::{request, version_text, Request, HELP};

fn free(words: &[&str]) -> Option<Vec<String>> {
    Some(words.iter().map(|w| w.to_string()).collect())
}

fn usage(words: &[&str]) -> String {
    match request(false, false, &free(words)) {
        Request::UsageError(message) => message,
        other => panic!("{other:?}"),
    }
}

#[test]
fn version_prints_version_and_the_resolved_executable() {
    assert_eq!(request(false, true, &free(&[])), Request::Version);
    let text = version_text("0.1.0", &Ok("/opt/bin/agent-sessions".to_owned()));
    assert!(text.starts_with("agent-sessions "), "{text}");
    assert!(
        text.contains("running from"),
        "the resolved path is the whole point of printing it: {text}"
    );
    assert_eq!(text, "agent-sessions 0.1.0 (running from /opt/bin/agent-sessions)");
    assert_eq!(
        version_text("0.1.0", &Err("gone".to_owned())),
        "agent-sessions 0.1.0 (running from an unknown path: gone)"
    );
}

#[test]
fn help_lists_only_what_is_shipped() {
    assert_eq!(request(true, false, &free(&[])), Request::Help);
    assert!(HELP.contains("--version"), "{HELP}");
    // No stubbed subcommands: help names nothing the binary cannot do.
    for future in ["list", "hook", "register", "doctor"] {
        assert!(
            !HELP.contains(&format!("agent-sessions {future}")),
            "help promises `{future}`, which has not shipped: {HELP}"
        );
    }
}

#[test]
fn a_bare_invocation_is_a_usage_error() {
    assert!(usage(&[]).contains("no command given"));
}

#[test]
fn unshipped_subcommands_are_usage_errors() {
    for args in [
        vec!["list", "--json"],
        vec!["hook", "vibe", "stop"],
        vec!["register"],
        vec!["doctor"],
        vec!["frobnicate"],
    ] {
        let message = usage(&args);
        assert!(message.contains("unexpected arguments:"), "{args:?}: {message}");
        assert!(message.contains(args[0]), "{args:?}: {message}");
        assert_eq!(message, format!("unexpected arguments: {}", args.join(" ")));
    }
}

#[test]
fn version_and_help_short_circuit_other_arguments() {
    assert_eq!(request(true, false, &free(&["frobnicate"])), Request::Help);
    assert_eq!(request(false, true, &free(&["frobnicate"])), Request::Version);
    assert_eq!(request(true, true, &None), Request::Help);
}

#[test]
fn an_unknown_flag_is_a_usage_error() {
    assert!(usage(&["--bogus"]).contains("--bogus"));
}

#[test]
fn a_non_utf8_argument_is_a_usage_error() {
    let Request::UsageError(message) = request(false, false, &None) else {
        panic!("a usage error")
    };
    assert!(message.contains("not valid UTF-8"));
}
