use journal_telemetry::{format_timestamp, parse_entry, parse_record, ParseError, RecordField};

fn field(key: &str, text: &str) -> RecordField {
    RecordField { key: key.to_string(), text: Some(text.to_string()) }
}

#[test]
fn record_without_cursor_is_rejected() {
    let fields = vec![field("MESSAGE", "hello"), field("_PID", "12")];
    assert!(matches!(parse_record(&fields), Err(ParseError::MissingCursor)));
}

#[test]
fn cursor_that_is_not_text_is_rejected() {
    let fields = vec![RecordField { key: "__CURSOR".to_string(), text: None }];
    assert!(matches!(parse_record(&fields), Err(ParseError::MissingCursor)));
}

#[test]
fn record_with_only_cursor_has_empty_optionals() {
    let fields = vec![field("__CURSOR", "s=abc")];
    let e = parse_record(&fields).unwrap();
    assert_eq!(e.cursor, "s=abc");
    assert_eq!(e.realtime_timestamp, 0);
    assert_eq!(e.timestamp, "1970-01-01T00:00:00+00:00");
    assert_eq!(e.message, "");
    assert_eq!(e.priority, None);
    assert_eq!(e.identifier, None);
    assert_eq!(e.pid, None);
    assert_eq!(e.unit, None);
    assert_eq!(e.hostname, None);
    assert_eq!(e.boot_id, None);
}

#[test]
fn record_with_all_fields() {
    let fields = vec![
        field("__CURSOR", "c1"),
        field("__REALTIME_TIMESTAMP", "1700000000500000"),
        field("MESSAGE", "started"),
        field("PRIORITY", "6"),
        field("SYSLOG_IDENTIFIER", "systemd"),
        field("_PID", "1"),
        field("_SYSTEMD_UNIT", "init.scope"),
        field("_HOSTNAME", "robot"),
        field("_BOOT_ID", "b00t"),
    ];
    let e = parse_record(&fields).unwrap();
    assert_eq!(e.cursor, "c1");
    assert_eq!(e.realtime_timestamp, 1700000000500000);
    assert_eq!(e.timestamp, "2023-11-14T22:13:20.500+00:00");
    assert_eq!(e.message, "started");
    assert_eq!(e.priority, Some(6));
    assert_eq!(e.identifier.as_deref(), Some("systemd"));
    assert_eq!(e.pid, Some(1));
    assert_eq!(e.unit.as_deref(), Some("init.scope"));
    assert_eq!(e.hostname.as_deref(), Some("robot"));
    assert_eq!(e.boot_id.as_deref(), Some("b00t"));
}

#[test]
fn identifier_falls_back_to_unit_then_command() {
    let a = parse_record(&vec![field("__CURSOR", "c"), field("_SYSTEMD_UNIT", "ssh.service"), field("_COMM", "sshd")]).unwrap();
    assert_eq!(a.identifier.as_deref(), Some("ssh.service"));
    let b = parse_record(&vec![field("__CURSOR", "c"), field("_COMM", "sshd")]).unwrap();
    assert_eq!(b.identifier.as_deref(), Some("sshd"));
    assert_eq!(b.unit, None);
}

#[test]
fn identifier_present_but_not_text_stops_the_fallback() {
    let fields = vec![
        field("__CURSOR", "c"),
        RecordField { key: "SYSLOG_IDENTIFIER".to_string(), text: None },
        field("_COMM", "sshd"),
    ];
    assert_eq!(parse_record(&fields).unwrap().identifier, None);
}

#[test]
fn pid_falls_back_to_syslog_pid() {
    let e = parse_record(&vec![field("__CURSOR", "c"), field("SYSLOG_PID", "77")]).unwrap();
    assert_eq!(e.pid, Some(77));
}

#[test]
fn unreadable_numbers_are_left_empty() {
    let fields = vec![
        field("__CURSOR", "c"),
        field("__REALTIME_TIMESTAMP", "soon"),
        field("PRIORITY", "300"),
        field("_PID", "-4"),
    ];
    let e = parse_record(&fields).unwrap();
    assert_eq!(e.realtime_timestamp, 0);
    assert_eq!(e.priority, None);
    assert_eq!(e.pid, None);
}

#[test]
fn numbers_may_carry_a_plus_sign() {
    let e = parse_record(&vec![field("__CURSOR", "c"), field("PRIORITY", "+3")]).unwrap();
    assert_eq!(e.priority, Some(3));
}

#[test]
fn json_line_is_parsed() {
    let line = r#"{"__CURSOR":"s=1;i=2","__REALTIME_TIMESTAMP":"1700000000000000","MESSAGE":"hi","PRIORITY":"4","_PID":"42"}"#;
    let e = parse_entry(line).unwrap();
    assert_eq!(e.cursor, "s=1;i=2");
    assert_eq!(e.timestamp, "2023-11-14T22:13:20+00:00");
    assert_eq!(e.message, "hi");
    assert_eq!(e.priority, Some(4));
    assert_eq!(e.pid, Some(42));
    assert_eq!(e.hostname, None);
}

#[test]
fn json_line_without_cursor_yields_nothing() {
    assert!(matches!(parse_entry(r#"{"MESSAGE":"hi"}"#), Err(ParseError::MissingCursor)));
}

#[test]
fn json_line_with_numeric_cursor_yields_nothing() {
    assert!(matches!(parse_entry(r#"{"__CURSOR":5}"#), Err(ParseError::MissingCursor)));
}

#[test]
fn non_object_json_yields_nothing() {
    assert!(matches!(parse_entry("[1,2]"), Err(ParseError::MissingCursor)));
}

#[test]
fn broken_json_is_invalid() {
    assert!(matches!(parse_entry("{\"__CURSOR\":"), Err(ParseError::InvalidJson)));
    assert!(matches!(parse_entry("   "), Err(ParseError::InvalidJson)));
}

#[test]
fn timestamp_formats_as_rfc3339_utc() {
    assert_eq!(format_timestamp(0), "1970-01-01T00:00:00+00:00");
    assert_eq!(format_timestamp(1_000_001), "1970-01-01T00:00:01.000001+00:00");
}

#[test]
fn timestamp_out_of_range_is_unknown() {
    assert_eq!(format_timestamp(u64::MAX), "unknown");
}

#[test]
fn record_written_from_entry_reads_back() {
    let fields = vec![
        field("__CURSOR", "s=7"),
        field("__REALTIME_TIMESTAMP", &18_446_744_073_709_551_615u64.to_string()),
        field("MESSAGE", "m"),
        field("PRIORITY", &255u8.to_string()),
        field("SYSLOG_IDENTIFIER", "id"),
        field("_PID", &u32::MAX.to_string()),
        field("_SYSTEMD_UNIT", "u.service"),
    ];
    let e = parse_record(&fields).unwrap();
    assert_eq!(e.cursor, "s=7");
    assert_eq!(e.realtime_timestamp, u64::MAX);
    assert_eq!(e.timestamp, "unknown");
    assert_eq!(e.message, "m");
    assert_eq!(e.priority, Some(255));
    assert_eq!(e.identifier.as_deref(), Some("id"));
    assert_eq!(e.pid, Some(u32::MAX));
    assert_eq!(e.unit.as_deref(), Some("u.service"));
    assert_eq!(e.hostname, None);
    assert_eq!(e.boot_id, None);
}
