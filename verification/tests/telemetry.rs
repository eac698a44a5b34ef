use recall::commands::answer_is_yes;
use recall::config::{env_suppressed, is_enabled, parse_config, TelemetryConfig};
use recall::crash::{build_crash_report, redact_paths, PanicLocation};
use recall::telemetry::{
    config_from_answer, crash_status_label, first_run_step, telemetry_event, telemetry_stats,
    usage_status_label, FirstRun,
};
use recall::json::parse_json;
use recall::telemetry::stats_from_events;
use recall::crash::{format_crash_report, location_text};

#[test]
fn test_default_is_disabled() {
    let config = TelemetryConfig::default();
    assert!(!config.enabled);
    assert!(!config.crash_reporting);
}

#[test]
fn test_parse_config_explicit_true() {
    let content = "[telemetry]\nenabled = true\ncrash_reporting = true\n";
    let config = parse_config(content);
    assert!(config.enabled);
    assert!(config.crash_reporting);
}

#[test]
fn test_parse_config_explicit_false() {
    let content = "[telemetry]\nenabled = false\ncrash_reporting = false\n";
    let config = parse_config(content);
    assert!(!config.enabled);
    assert!(!config.crash_reporting);
}

#[test]
fn test_parse_config_mixed() {
    let content = "[telemetry]\nenabled = true\ncrash_reporting = false\n";
    let config = parse_config(content);
    assert!(config.enabled);
    assert!(!config.crash_reporting);
}

#[test]
fn test_config_save_and_load_roundtrip() {
    let config = TelemetryConfig { enabled: true, crash_reporting: false };
    let content = config.file_text();
    assert_eq!(content, "[telemetry]\nenabled = true\ncrash_reporting = false\n");
    let loaded = parse_config(&content);
    assert!(loaded.enabled);
    assert!(!loaded.crash_reporting);
}

#[test]
fn telemetry_file_roundtrip_all_settings() {
    for (e, c) in [(false, false), (false, true), (true, false), (true, true)] {
        let loaded = parse_config(&TelemetryConfig { enabled: e, crash_reporting: c }.file_text());
        assert_eq!((loaded.enabled, loaded.crash_reporting), (e, c));
    }
}

#[test]
fn test_env_suppressed_do_not_track() {
    assert!(env_suppressed(Some("1"), None));
    assert!(!env_suppressed(Some("0"), None));
    assert!(env_suppressed(None, Some("true")));
    assert!(env_suppressed(None, Some("1")));
    assert!(!env_suppressed(None, Some("false")));
    assert!(!env_suppressed(None, None));
}

#[test]
fn effective_state_needs_config_and_no_override() {
    let on = TelemetryConfig { enabled: true, crash_reporting: false };
    assert!(is_enabled(&on, false));
    assert!(!is_enabled(&on, true));
    assert!(!is_enabled(&TelemetryConfig::default(), false));
}

#[test]
fn test_read_yes_no_defaults_to_false() {
    assert!(answer_is_yes("y"));
    assert!(answer_is_yes("yes"));
    assert!(answer_is_yes("Y"));
    assert!(!answer_is_yes("n"));
    assert!(!answer_is_yes(""));
    assert!(!answer_is_yes("no"));
}

#[test]
fn first_run_choices() {
    assert_eq!(first_run_step(true, false, true), FirstRun::Configured);
    assert_eq!(first_run_step(false, true, true), FirstRun::SaveDisabled);
    assert_eq!(first_run_step(false, false, false), FirstRun::SaveDisabled);
    assert_eq!(first_run_step(false, false, true), FirstRun::Prompt);
    let yes = config_from_answer(" Yes\n");
    assert!(yes.enabled && yes.crash_reporting);
    let no = config_from_answer("nope");
    assert!(!no.enabled && !no.crash_reporting);
}

#[test]
fn status_labels() {
    assert_eq!(usage_status_label(true, true), "disabled (env override)");
    assert_eq!(usage_status_label(false, true), "enabled");
    assert_eq!(usage_status_label(false, false), "disabled");
    assert_eq!(crash_status_label(true), "enabled");
    assert_eq!(crash_status_label(false), "disabled");
}

#[test]
fn usage_event_records_error_prefix() {
    let e = telemetry_event("search", "0.1.0", "linux", "x86_64", 12, 1, Some("no such table: chunks"), "2024-01-01");
    assert_eq!(e.command, "search");
    assert_eq!(e.error_type.as_deref(), Some("no such table"));
    assert_eq!(e.duration_ms, 12);
    assert_eq!(e.exit_code, 1);
    let ok = telemetry_event("status", "0.1.0", "linux", "x86_64", 3, 0, None, "2024-01-01");
    assert!(ok.error_type.is_none());
    assert_eq!(ok.date, "2024-01-01");
}

#[test]
fn stats_over_event_log() {
    let log = "{\"command\":\"search\",\"duration_ms\":100}\n\
{\"command\":\"add\",\"duration_ms\":50,\"error_type\":\"boom\"}\n\
not json\n\
{\"command\":\"search\",\"duration_ms\":25}\n\
{\"command\":\"status\"}\n\
{\"command\":\"add\",\"duration_ms\":5}\n\
{\"command\":\"add\"}\n";
    let s = telemetry_stats(log);
    assert_eq!(s.total_events, 7);
    assert_eq!(s.error_events, 1);
    assert_eq!(s.total_duration_ms, 180);
    assert_eq!(
        s.commands,
        vec![("add".to_string(), 3), ("search".to_string(), 2), ("status".to_string(), 1)]
    );
    let empty = telemetry_stats("");
    assert_eq!(empty.total_events, 0);
    assert!(empty.commands.is_empty());
}

#[test]
fn test_redact_paths_windows() {
    let input = "failed at C:\\Users\\john\\code\\recall\\src\\main.rs";
    let output = redact_paths(input).unwrap();
    assert_eq!(output, "failed at [PATH]");
    assert!(!output.contains("john"));
}

#[test]
fn test_redact_paths_unix() {
    let input = "failed at /home/john/code/recall/src/main.rs";
    let output = redact_paths(input).unwrap();
    assert_eq!(output, "failed at [PATH]");
    assert!(!output.contains("john"));
}

#[test]
fn test_redact_paths_no_path() {
    let input = "index out of bounds: 5 >= 3";
    let output = redact_paths(input).unwrap();
    assert_eq!(output, input);
}

#[test]
fn crash_report_layout() {
    let args = vec!["/home/ann/bin/recall".to_string(), "search".to_string(), "x".to_string()];
    let report = build_crash_report(
        Some("boom at /Users/ann/x.rs"),
        Some(PanicLocation { file: "src/cli.rs".to_string(), line: 12, column: 5 }),
        &args,
        "0.1.0",
        "linux",
        "x86_64",
        "2024-01-01",
    )
    .unwrap();
    assert_eq!(
        report,
        "recall crash report\n────────────────────\nversion: 0.1.0\nos: linux\narch: x86_64\ncommand: [PATH] search x\nmessage: boom at [PATH]\nlocation: src/cli.rs:12:5\ntime: 2024-01-01\n"
    );
    let bare = build_crash_report(None, None, &Vec::new(), "v", "o", "a", "d").unwrap();
    assert!(bare.contains("message: unknown panic\n"));
    assert!(bare.contains("location: unknown location\n"));
}

#[test]
fn test_first_run_prompt_with_existing_config() {
    // When the settings file already exists, the first-run prompt does nothing.
    assert_eq!(first_run_step(true, false, true), FirstRun::Configured);
    assert_eq!(first_run_step(true, true, false), FirstRun::Configured);
}

#[test]
fn stats_from_parsed_events() {
    let events = vec![
        parse_json(r#"{"command":"b","duration_ms":7}"#),
        None,
        parse_json(r#"{"command":"a","error_type":"x"}"#),
        parse_json(r#"{"command":"b"}"#),
        parse_json(r#"{"duration_ms":3}"#),
    ];
    let s = stats_from_events(9, &events);
    assert_eq!(s.total_events, 9);
    assert_eq!(s.error_events, 1);
    assert_eq!(s.total_duration_ms, 10);
    assert_eq!(s.commands, vec![("b".to_string(), 2), ("a".to_string(), 1)]);
}

#[test]
fn crash_report_formatting_parts() {
    assert_eq!(location_text("src/x.rs", 3, 14), "src/x.rs:3:14");
    assert_eq!(
        format_crash_report("1", "o", "a", "c", "m", "l", "d"),
        "recall crash report\n────────────────────\nversion: 1\nos: o\narch: a\ncommand: c\nmessage: m\nlocation: l\ntime: d\n"
    );
}
