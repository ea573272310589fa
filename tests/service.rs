use journal_telemetry::{rejection_text, reply_to, Inbound, InboundReply};
use journal_telemetry::{entries, JournalEntry, JournalService, TailerAction, TailerEvent, MAX_ENTRIES};

fn entry(n: usize) -> JournalEntry {
    JournalEntry {
        cursor: format!("c{n}"),
        realtime_timestamp: n as u64,
        timestamp: "1970-01-01T00:00:00+00:00".to_string(),
        message: format!("m{n}"),
        priority: None,
        identifier: None,
        pid: None,
        unit: None,
        hostname: None,
        boot_id: None,
    }
}

fn filled(n: usize) -> JournalService {
    let mut s = JournalService::new();
    for i in 0..n {
        s.add_entry(entry(i));
    }
    s
}

fn cursors(v: &[JournalEntry]) -> Vec<String> {
    v.iter().map(|e| e.cursor.clone()).collect()
}

#[test]
fn new_service_reports_not_streaming() {
    let s = JournalService::new();
    assert_eq!(s.len(), 0);
    assert_eq!(s.error().as_deref(), Some("journalctl stream not initialized"));
}

#[test]
fn slice_from_five_of_two() {
    let s = filled(10);
    let r = entries(&s, Some(5), Some(2));
    assert_eq!(cursors(&r.entries), vec!["c5", "c6"]);
}

#[test]
fn slice_past_the_end_is_empty() {
    let s = filled(10);
    assert!(entries(&s, Some(20), Some(5)).entries.is_empty());
    assert!(entries(&s, Some(10), None).entries.is_empty());
}

#[test]
fn slice_defaults_to_everything() {
    let s = filled(10);
    let r = entries(&s, None, None);
    assert_eq!(r.entries.len(), 10);
    assert_eq!(r.entries[9].cursor, "c9");
    assert_eq!(r.error.as_deref(), Some("journalctl stream not initialized"));
    let tail = entries(&s, Some(8), Some(usize::MAX));
    assert_eq!(cursors(&tail.entries), vec!["c8", "c9"]);
}

#[test]
fn repeated_cursor_is_dropped() {
    let mut s = filled(3);
    let (_, mut rx) = s.ask_for_client();
    let ok = s.add_entry(entry(2));
    assert!(ok.is_empty());
    assert_eq!(s.len(), 3);
    assert!(rx.try_next().unwrap().is_some());
    assert!(rx.try_next().is_err());
}

#[test]
fn cursor_seen_earlier_but_not_last_is_kept() {
    let mut s = filled(3);
    s.add_entry(entry(1));
    assert_eq!(s.len(), 4);
}

#[test]
fn buffer_keeps_the_latest_entries() {
    let s = filled(MAX_ENTRIES + 3);
    assert_eq!(s.len(), MAX_ENTRIES);
    let r = entries(&s, Some(0), Some(2));
    assert_eq!(cursors(&r.entries), vec!["c3", "c4"]);
    let last = entries(&s, Some(MAX_ENTRIES - 1), None);
    assert_eq!(last.entries[0].cursor, format!("c{}", MAX_ENTRIES + 2));
}

#[test]
fn subscriber_gets_snapshot_then_each_entry() {
    let mut s = filled(2);
    let (id, mut rx) = s.ask_for_client();
    assert!(id.is_some());
    assert_eq!(s.subscriber_count(), 1);
    let first = rx.try_next().unwrap().unwrap();
    assert_eq!(cursors(&first.entries), vec!["c0", "c1"]);
    assert_eq!(first.error.as_deref(), Some("journalctl stream not initialized"));
    let ok = s.add_entry(entry(2));
    assert_eq!(ok, vec![true]);
    s.add_entry(entry(3));
    let mut seen = cursors(&first.entries);
    for _ in 0..2 {
        let m = rx.try_next().unwrap().unwrap();
        assert_eq!(m.entries.len(), 1);
        assert!(m.error.is_none());
        seen.extend(cursors(&m.entries));
    }
    assert_eq!(seen, vec!["c0", "c1", "c2", "c3"]);
}

#[test]
fn closed_subscriber_is_removed_others_stay() {
    let mut s = filled(1);
    let (_, rx_gone) = s.ask_for_client();
    let (_, mut rx_kept) = s.ask_for_client();
    drop(rx_gone);
    let ok = s.add_entry(entry(1));
    assert_eq!(ok, vec![false, true]);
    assert_eq!(s.subscriber_count(), 1);
    let ok = s.add_entry(entry(2));
    assert_eq!(ok, vec![true]);
    assert!(rx_kept.try_next().unwrap().is_some());
}

#[test]
fn full_subscriber_is_removed() {
    let mut s = JournalService::new();
    let (_, _rx) = s.ask_for_client();
    let mut i = 0;
    while s.subscriber_count() == 1 {
        s.add_entry(entry(i));
        i += 1;
        assert!(i < 20000);
    }
    assert_eq!(s.subscriber_count(), 0);
}

#[test]
fn error_reaches_subscribers() {
    let mut s = filled(1);
    let (_, mut rx) = s.ask_for_client();
    rx.try_next().unwrap();
    let ok = s.set_error(Some("broken".to_string()));
    assert_eq!(ok, vec![true]);
    let m = rx.try_next().unwrap().unwrap();
    assert!(m.entries.is_empty());
    assert_eq!(m.error.as_deref(), Some("broken"));
    assert_eq!(s.error().as_deref(), Some("broken"));
    s.clear_error();
    assert_eq!(s.error(), None);
}

#[test]
fn tailer_spawn_failure_backs_off_five_seconds() {
    let mut s = JournalService::new();
    let a = s.handle_event(TailerEvent::SpawnFailed("no such file".to_string()));
    assert_eq!(a, TailerAction::Restart(5));
    assert_eq!(s.error().as_deref(), Some("no such file"));
}

#[test]
fn tailer_exit_backs_off_three_seconds() {
    let mut s = JournalService::new();
    s.handle_event(TailerEvent::Spawned);
    assert_eq!(s.error(), None);
    let a = s.handle_event(TailerEvent::Exited);
    assert_eq!(a, TailerAction::Restart(3));
    assert_eq!(s.error().as_deref(), Some("journalctl terminated"));
}

#[test]
fn tailer_read_failure_backs_off_five_seconds() {
    let mut s = JournalService::new();
    let a = s.handle_event(TailerEvent::ReadFailed("broken pipe".to_string()));
    assert_eq!(a, TailerAction::Restart(5));
    assert_eq!(s.error().as_deref(), Some("broken pipe"));
}

#[test]
fn tailer_lines_append_and_skip() {
    let mut s = JournalService::new();
    assert_eq!(s.handle_event(TailerEvent::Spawned), TailerAction::Continue);
    let line = r#"{"__CURSOR":"a","MESSAGE":"x"}"#.to_string();
    assert_eq!(s.handle_event(TailerEvent::Line(line.clone())), TailerAction::Continue);
    s.handle_event(TailerEvent::Line(line));
    s.handle_event(TailerEvent::Line(r#"{"MESSAGE":"no cursor"}"#.to_string()));
    s.handle_event(TailerEvent::Line("not json".to_string()));
    assert_eq!(s.len(), 1);
    assert_eq!(entries(&s, None, None).entries[0].message, "x");
}

#[test]
fn inbound_payloads_are_rejected_pings_answered() {
    assert_eq!(reply_to(Inbound::Ping), InboundReply::Pong);
    assert_eq!(reply_to(Inbound::Payload), InboundReply::Reject);
    assert_eq!(reply_to(Inbound::Control), InboundReply::Ignore);
    assert_eq!(rejection_text(), "{\"error\":\"Websocket does not support inputs.\"}");
}

#[test]
fn registration_always_succeeds_with_snapshot_first() {
    let mut s = JournalService::new();
    s.set_error(Some("down".to_string()));
    let (a, mut rx) = s.ask_for_client();
    let (b, _rx2) = s.ask_for_client();
    assert_eq!(a, Some(0));
    assert_eq!(b, Some(1));
    let first = rx.try_next().unwrap().unwrap();
    assert!(first.entries.is_empty());
    assert_eq!(first.error.as_deref(), Some("down"));
}

#[test]
fn tool_exit_notifies_every_subscriber() {
    let mut s = JournalService::new();
    let (_, mut rx) = s.ask_for_client();
    rx.try_next().unwrap();
    s.handle_event(TailerEvent::Exited);
    let m = rx.try_next().unwrap().unwrap();
    assert!(m.entries.is_empty());
    assert_eq!(m.error.as_deref(), Some("journalctl terminated"));
}
