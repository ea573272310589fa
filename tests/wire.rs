use journal_telemetry::wire::{WireField, WireValue};
use journal_telemetry::JournalEntry;

fn sample(full: bool) -> JournalEntry {
    JournalEntry {
        cursor: "s=9".to_string(),
        realtime_timestamp: 1_700_000_000_000_000,
        timestamp: "stale".to_string(),
        message: "hello".to_string(),
        priority: if full { Some(3) } else { None },
        identifier: if full { Some("kernel".to_string()) } else { None },
        pid: if full { Some(4_000_000_000) } else { None },
        unit: if full { Some("a.service".to_string()) } else { None },
        hostname: if full { Some("h".to_string()) } else { None },
        boot_id: if full { Some("b".to_string()) } else { None },
    }
}

fn keys(fields: &[WireField]) -> Vec<String> {
    fields.iter().map(|f| f.key.clone()).collect()
}

#[test]
fn absent_optionals_have_no_member() {
    let w = sample(false).to_wire();
    assert_eq!(keys(&w), vec!["cursor", "realtime_timestamp", "timestamp", "message"]);
    assert!(matches!(&w[1].value, WireValue::Number(1_700_000_000_000_000)));
}

#[test]
fn present_optionals_follow_in_order() {
    let w = sample(true).to_wire();
    assert_eq!(
        keys(&w),
        vec!["cursor", "realtime_timestamp", "timestamp", "message", "priority", "identifier", "pid", "unit", "hostname", "boot_id"]
    );
}

#[test]
fn round_trip_keeps_every_field_but_the_timestamp_text() {
    for full in [false, true] {
        let e = sample(full);
        let back = JournalEntry::from_wire(&e.to_wire()).unwrap();
        assert_eq!(back.cursor, e.cursor);
        assert_eq!(back.realtime_timestamp, e.realtime_timestamp);
        assert_eq!(back.timestamp, "2023-11-14T22:13:20+00:00");
        assert_eq!(back.message, e.message);
        assert_eq!(back.priority, e.priority);
        assert_eq!(back.identifier, e.identifier);
        assert_eq!(back.pid, e.pid);
        assert_eq!(back.unit, e.unit);
        assert_eq!(back.hostname, e.hostname);
        assert_eq!(back.boot_id, e.boot_id);
    }
}

#[test]
fn wire_without_cursor_reads_nothing() {
    let mut w = sample(true).to_wire();
    w.remove(0);
    assert!(JournalEntry::from_wire(&w).is_none());
}

#[test]
fn wire_with_out_of_range_priority_leaves_it_empty() {
    let mut w = sample(false).to_wire();
    w.push(WireField { key: "priority".to_string(), value: WireValue::Number(256) });
    assert_eq!(JournalEntry::from_wire(&w).unwrap().priority, None);
}
