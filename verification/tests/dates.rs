use recall::dates::{
    created_at_readable, days_from_epoch, epoch_to_date, format_epoch_date, format_timestamp, now_timestamp,
    parse_created_at, parse_iso8601_to_epoch, parse_tz_offset, today_date, effective_source,
};
use recall::logging::{log_file_name, log_line, should_remove_log, LogState, LogWrite};

#[test]
fn test_epoch_to_date_known() {
    // Known epoch: 2024-01-01 00:00:00 UTC = 1704067200
    let date = epoch_to_date(1704067200);
    assert_eq!(date, "2024-01-01");
}

#[test]
fn test_epoch_to_date_another() {
    // 2025-07-31 00:00:00 UTC = 1753920000
    let date = epoch_to_date(1753920000);
    assert_eq!(date, "2025-07-31");
}

#[test]
fn test_now_timestamp_format() {
    let ts = now_timestamp();
    // Format: YYYY-MM-DDTHH:MM:SS
    assert_eq!(ts.len(), 19);
    assert_eq!(&ts[10..11], "T");
    assert_eq!(&ts[13..14], ":");
    assert_eq!(&ts[16..17], ":");
}

#[test]
fn test_today_date_format() {
    let date = today_date();
    assert_eq!(date.len(), 10);
    assert_eq!(&date[4..5], "-");
    assert_eq!(&date[7..8], "-");
}

#[test]
fn test_is_active_default_false() {
    // Before initialisation logging is not active.
    let state = LogState::new();
    assert!(!state.is_active());
}

#[test]
fn logging_is_active_iff_some_init_succeeded() {
    let mut state = LogState::new();
    state.record_init(false);
    assert!(!state.is_active());
    state.record_init(true);
    assert!(state.is_active());
    // A later failed attempt does not switch logging off.
    state.record_init(false);
    assert!(state.is_active());
}

#[test]
fn log_routing_follows_activation() {
    let mut state = LogState::new();
    match state.route(true, "2024-01-01T00:00:00", "hello") {
        LogWrite::Stderr(l) => assert_eq!(l, "hello\n"),
        LogWrite::File(_) => panic!("inactive logging must not write the file"),
    }
    state.record_init(true);
    assert!(state.is_active());
    match state.route(true, "2024-01-01T00:00:00", "hello") {
        LogWrite::File(l) => assert_eq!(l, "[2024-01-01T00:00:00] hello\n"),
        LogWrite::Stderr(_) => panic!("active logging writes the file"),
    }
    match state.route(false, "t", "m") {
        LogWrite::Stderr(l) => assert_eq!(l, "m\n"),
        LogWrite::File(_) => panic!("no open file"),
    }
    assert_eq!(log_line("ts", "msg"), "[ts] msg\n");
    assert_eq!(log_file_name("2024-05-06"), "2024-05-06.log");
}

#[test]
fn log_rotation_keeps_a_week() {
    assert!(!should_remove_log(true, Some(604800)));
    assert!(should_remove_log(true, Some(604801)));
    assert!(!should_remove_log(false, Some(10_000_000)));
    assert!(!should_remove_log(true, None));
}

#[test]
fn timestamps_and_epoch_dates() {
    assert_eq!(format_timestamp(1704067200 + 3661), "2024-01-01T01:01:01");
    assert_eq!(format_epoch_date(0), "unknown");
    assert_eq!(format_epoch_date(-5), "unknown");
    assert_eq!(format_epoch_date(1753920000), "2025-07-31");
}

#[test]
fn iso8601_parsing_with_offsets() {
    // 2026-07-14T08:46:52-0700 is 15:46:52 UTC.
    let utc = days_from_epoch(2026, 7, 14).unwrap() * 86400 + 15 * 3600 + 46 * 60 + 52;
    assert_eq!(parse_iso8601_to_epoch("2026-07-14T08:46:52-0700"), Some(utc));
    assert_eq!(parse_iso8601_to_epoch("2026-07-14T08:46:52-07:00"), Some(utc));
    assert_eq!(parse_iso8601_to_epoch("2026-07-14T15:46:52Z"), Some(utc));
    assert_eq!(parse_iso8601_to_epoch("2026-07-14"), None);
    assert_eq!(parse_iso8601_to_epoch("abcd-07-14T08:46:52Z"), None);
    // A non-ASCII timezone text after an ASCII sign is read as no offset.
    assert_eq!(parse_iso8601_to_epoch("2026-07-14T15:46:52+ü"), Some(utc));
    // Nineteen bytes are needed, not nineteen characters.
    assert_eq!(parse_iso8601_to_epoch("2026-07-14T15:46:5"), None);
    assert_eq!(parse_created_at("garbage"), 0);
    assert_eq!(parse_tz_offset("+0530"), 5 * 3600 + 30 * 60);
    assert_eq!(parse_tz_offset("-07"), -7 * 3600);
    assert_eq!(parse_tz_offset("Z"), 0);
    assert_eq!(days_from_epoch(1970, 1, 1), Some(0));
    assert_eq!(days_from_epoch(2024, 1, 1), Some(19723));
}

#[test]
fn migrated_rows_prefer_source_file() {
    assert_eq!(effective_source(Some("notes/a.md"), "agent"), "notes/a.md");
    assert_eq!(effective_source(None, "agent"), "agent");
}

#[test]
fn created_at_readable_accepts_timestamps_and_plain_text() {
    assert!(created_at_readable("2026-07-14T08:46:52-0700"));
    assert!(created_at_readable("2026-07-14T08:46:52Z"));
    assert!(created_at_readable("garbage"));
    assert!(created_at_readable(""));
    // A field that does not parse stops the reading: no timestamp, no panic.
    assert!(created_at_readable("abcd-07-14T08:46:52Z"));
}

#[test]
fn created_at_readable_rejects_slices_inside_a_character() {
    // "é" takes two bytes, so byte 4 falls inside it.
    assert!(!created_at_readable("202é-07-14T08:46:52"));
    // A timezone starting with a non-ASCII character would be split.
    assert!(!created_at_readable("2026-07-14T08:46:52€0700"));
    // Byte 19 inside a character.
    assert!(!created_at_readable("2026-07-14T08:46:5é"));
}
