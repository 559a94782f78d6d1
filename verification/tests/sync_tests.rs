use terminal::api::{ApiError, ClockResponse, EmployeeInfo};
use terminal::buffer::EventBuffer;
use terminal::sync_worker::SyncPass;

const TS: &str = "2024-01-15T08:00:00Z";

fn ok_response() -> Result<ClockResponse, ApiError> {
    Ok(ClockResponse {
        employee: EmployeeInfo {
            id: "e1".to_string(),
            first_name: "Max".to_string(),
            last_name: "Mustermann".to_string(),
            photo_url: None,
        },
        entry_type: "CLOCK_IN".to_string(),
        timestamp: TS.to_string(),
        today_work_minutes: 0,
        today_break_minutes: 0,
        overtime_minutes: 0,
        remaining_vacation_tenths: 0,
    })
}

#[test]
fn test_replay_conflict_scenario() {
    // Preconditions: the buffer holds one unsynced event {id=1, TAG001}.
    let mut buf = EventBuffer::new(10);
    let id = buf.push("TAG001", "terminal-1", TS);
    assert_eq!(id, 1);

    let mut pass = SyncPass::new(buf.get_pending());
    let req = pass.next_request().expect("one event is pending");
    assert_eq!(req.rfid_tag_id, "TAG001");

    // The server answers 409: the record is marked synced but not counted.
    let mark = pass.note(&Err(ApiError::Conflict));
    assert_eq!(mark, Some(1));
    buf.mark_synced(1);

    assert!(pass.done());
    assert_eq!(pass.synced_count(), 0);
    assert_eq!(buf.pending_count(), 0);
}

#[test]
fn test_replay_fifo_and_halt_on_transport_failure() {
    let mut buf = EventBuffer::new(10);
    buf.push("TAG001", "terminal-1", TS);
    buf.push("TAG002", "terminal-1", TS);
    buf.push("TAG003", "terminal-1", TS);

    let mut pass = SyncPass::new(buf.get_pending());

    // Events go out strictly in insertion (id) order.
    let first = pass.next_request().unwrap();
    assert_eq!(first.rfid_tag_id, "TAG001");
    let mark = pass.note(&ok_response());
    buf.mark_synced(mark.unwrap());

    let second = pass.next_request().unwrap();
    assert_eq!(second.rfid_tag_id, "TAG002");
    assert!(second.id > first.id);
    // The backend goes down: the pass halts, nothing is marked.
    let mark = pass.note(&Err(ApiError::Timeout));
    assert_eq!(mark, None);

    assert!(pass.done());
    assert!(pass.next_request().is_none());
    assert_eq!(pass.synced_count(), 1);
    // TAG002 and TAG003 stay pending for the next tick, in order.
    let tags: Vec<String> = buf.get_pending().iter().map(|e| e.rfid_tag_id.clone()).collect();
    assert_eq!(tags, vec!["TAG002".to_string(), "TAG003".to_string()]);
}

#[test]
fn test_poisoned_event_is_discarded() {
    let mut buf = EventBuffer::new(10);
    buf.push("TAG001", "terminal-1", TS);
    buf.push("TAG002", "terminal-1", TS);

    let mut pass = SyncPass::new(buf.get_pending());
    pass.next_request().unwrap();
    // A server error discards the event so the queue keeps moving.
    let mark = pass.note(&Err(ApiError::ServerError("HTTP 500".to_string())));
    buf.mark_synced(mark.expect("the poisoned event is marked away"));

    let next = pass.next_request().unwrap();
    assert_eq!(next.rfid_tag_id, "TAG002");
    let mark = pass.note(&ok_response());
    buf.mark_synced(mark.unwrap());

    assert!(pass.done());
    assert_eq!(pass.synced_count(), 1);
    assert_eq!(buf.pending_count(), 0);
}
