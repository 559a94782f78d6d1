use terminal::buffer::{restore_event, EventBuffer};

const TS: &str = "2024-01-15T08:00:00Z";

fn make_buffer() -> EventBuffer {
    EventBuffer::new(10)
}

#[test]
fn test_push_and_pending_count() {
    let mut buf = make_buffer();
    assert_eq!(buf.pending_count(), 0);

    buf.push("TAG001", "terminal-1", TS);
    buf.push("TAG002", "terminal-1", TS);
    assert_eq!(buf.pending_count(), 2);
}

#[test]
fn test_get_pending_returns_unsynced_events() {
    let mut buf = make_buffer();
    buf.push("TAG001", "terminal-1", TS);
    buf.push("TAG002", "terminal-2", TS);

    let pending = buf.get_pending();
    assert_eq!(pending.len(), 2);
    assert_eq!(pending[0].rfid_tag_id, "TAG001");
    assert_eq!(pending[1].rfid_tag_id, "TAG002");
    assert!(!pending[0].synced);
}

#[test]
fn test_mark_synced_removes_from_pending() {
    let mut buf = make_buffer();
    let id = buf.push("TAG001", "terminal-1", TS);

    assert_eq!(buf.pending_count(), 1);
    buf.mark_synced(id);
    assert_eq!(buf.pending_count(), 0);

    let pending = buf.get_pending();
    assert!(pending.is_empty());
}

#[test]
fn test_mark_synced_is_idempotent() {
    let mut buf = make_buffer();
    let id = buf.push("TAG001", "terminal-1", TS);
    buf.mark_synced(id);
    buf.mark_synced(id);
    assert_eq!(buf.pending_count(), 0);
}

#[test]
fn test_max_size_enforcement() {
    let mut buf = EventBuffer::new(3);

    buf.push("TAG001", "terminal-1", TS);
    buf.push("TAG002", "terminal-1", TS);
    buf.push("TAG003", "terminal-1", TS);
    // This should drop TAG001 (oldest)
    buf.push("TAG004", "terminal-1", TS);

    assert_eq!(buf.pending_count(), 3);
    let pending = buf.get_pending();
    // Oldest event dropped, newer ones retained
    let tags: Vec<&str> = pending.iter().map(|e| e.rfid_tag_id.as_str()).collect();
    assert!(
        !tags.contains(&"TAG001"),
        "oldest event should have been dropped"
    );
    assert!(tags.contains(&"TAG004"));
    assert_eq!(tags, vec!["TAG002", "TAG003", "TAG004"]);
}

#[test]
fn test_max_size_zero_keeps_one() {
    let mut buf = EventBuffer::new(0);
    buf.push("TAG001", "terminal-1", TS);
    buf.push("TAG002", "terminal-1", TS);
    assert_eq!(buf.pending_count(), 1);
    let pending = buf.get_pending();
    assert_eq!(pending[0].rfid_tag_id, "TAG002");
}

#[test]
fn test_overflow_skips_synced_records() {
    let mut buf = EventBuffer::new(2);
    let id1 = buf.push("TAG001", "terminal-1", TS);
    buf.push("TAG002", "terminal-1", TS);
    buf.mark_synced(id1);
    buf.push("TAG003", "terminal-1", TS);
    // TAG002 and TAG003 are pending; the synced TAG001 is not dropped for
    // capacity, only unsynced records count.
    buf.push("TAG004", "terminal-1", TS);
    let tags: Vec<String> = buf.get_pending().iter().map(|e| e.rfid_tag_id.clone()).collect();
    assert_eq!(tags, vec!["TAG003".to_string(), "TAG004".to_string()]);
}

#[test]
fn test_push_returns_row_id() {
    let mut buf = make_buffer();
    let id1 = buf.push("TAG001", "terminal-1", TS);
    let id2 = buf.push("TAG002", "terminal-1", TS);
    assert!(id2 > id1);
}

#[test]
fn test_restore_event_keeps_valid_timestamp() {
    let now = "2024-03-01T12:00:00Z";
    let ev = restore_event(7, "TAG009", "terminal-2", TS, false, now);
    assert_eq!(ev.id, 7);
    assert_eq!(ev.rfid_tag_id, "TAG009");
    assert_eq!(ev.terminal_id, "terminal-2");
    assert_eq!(ev.timestamp, TS);
    assert!(!ev.synced);
}

#[test]
fn test_restore_event_replaces_damaged_timestamp() {
    let now = "2024-03-01T12:00:00Z";
    let ev = restore_event(8, "TAG010", "terminal-2", "not a timestamp", true, now);
    assert_eq!(ev.timestamp, now);
    assert!(ev.synced);
}

#[test]
fn test_restore_round_trip() {
    let mut buf = EventBuffer::new(5);
    buf.push("TAG001", "terminal-1", TS);
    let id2 = buf.push("TAG002", "terminal-1", TS);
    buf.mark_synced(id2);
    buf.push("TAG003", "terminal-1", TS);

    // Reload everything the buffer holds, as the durable store would
    // return it (here: the pending rows plus the synced one in id order).
    let mut rows = buf.get_pending();
    rows.insert(
        1,
        restore_event(id2, "TAG002", "terminal-1", TS, true, TS),
    );
    let reloaded = EventBuffer::restore(rows, 5).expect("the buffer's own rows restore");
    let tags: Vec<String> =
        reloaded.get_pending().iter().map(|e| e.rfid_tag_id.clone()).collect();
    assert_eq!(tags, vec!["TAG001".to_string(), "TAG003".to_string()]);
}

#[test]
fn test_restore_rejects_unordered_rows() {
    let rows = vec![
        restore_event(2, "TAG002", "terminal-1", TS, false, TS),
        restore_event(1, "TAG001", "terminal-1", TS, false, TS),
    ];
    assert!(EventBuffer::restore(rows, 5).is_none());
}
