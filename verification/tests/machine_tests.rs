use terminal::api::{ApiError, ClockResponse, EmployeeInfo};
use terminal::buffer::EventBuffer;
use terminal::config::AppConfig;
use terminal::machine::{AppState, Effect, Message, Terminal};
use terminal::screens::ErrorType;

fn make_terminal() -> Terminal {
    Terminal::new(AppConfig::default(), EventBuffer::new(10), 0)
}

fn clock_in_response() -> ClockResponse {
    ClockResponse {
        employee: EmployeeInfo {
            id: "abc-123".to_string(),
            first_name: "Max".to_string(),
            last_name: "Mustermann".to_string(),
            photo_url: None,
        },
        entry_type: "CLOCK_IN".to_string(),
        timestamp: "2024-01-15T08:00:00Z".to_string(),
        today_work_minutes: 0,
        today_break_minutes: 0,
        overtime_minutes: 0,
        remaining_vacation_tenths: 250,
    }
}

#[test]
fn test_online_clock_in_scenario() {
    let mut t = make_terminal();
    assert!(matches!(t.state, AppState::Idle { .. }));

    let eff = t.handle_rfid_scanned("TAG123".to_string(), 1_000);
    match &eff {
        Effect::StartScan { rfid, terminal_id } => {
            assert_eq!(rfid, "TAG123");
            assert_eq!(terminal_id, "terminal-01");
        }
        _ => panic!("an accepted scan must dispatch a request"),
    }
    assert!(matches!(t.state, AppState::Loading { .. }));

    let eff = t.handle_scan_result(Ok(clock_in_response()), 2_000);
    assert!(matches!(eff, Effect::PlaySuccess));
    match &t.state {
        AppState::ClockIn { data, seconds_left } => {
            assert_eq!(data.employee_name, "Max Mustermann");
            assert_eq!(data.timestamp, "08:00:00");
            assert_eq!(*seconds_left, 8);
        }
        _ => panic!("a clock-in reply must show the clock-in confirmation"),
    }

    // After idle-timeout seconds of ticks the screen returns to Idle.
    for i in 0..9 {
        t.handle_tick(3_000 + i);
    }
    assert!(matches!(t.state, AppState::Idle { .. }));
}

#[test]
fn test_clock_out_summary_fields() {
    let mut t = make_terminal();
    t.handle_rfid_scanned("TAG123".to_string(), 1_000);
    let mut resp = clock_in_response();
    resp.entry_type = "CLOCK_OUT".to_string();
    resp.today_work_minutes = 425;
    resp.today_break_minutes = 30;
    resp.overtime_minutes = -90;
    t.handle_scan_result(Ok(resp), 2_000);
    match &t.state {
        AppState::ClockOut { data, .. } => {
            assert_eq!(data.work_minutes, 425);
            assert_eq!(data.break_minutes, 30);
            assert_eq!(data.overtime_minutes, -90);
            assert_eq!(data.remaining_vacation_tenths, 250);
        }
        _ => panic!("a clock-out reply must show the summary"),
    }
}

#[test]
fn test_badge_not_recognized_scenario() {
    let mut t = make_terminal();
    t.handle_rfid_scanned("UNKNOWN".to_string(), 1_000);
    let eff = t.handle_scan_result(
        Err(ApiError::NotFound("RFID tag not registered".to_string())),
        2_000,
    );
    assert!(matches!(eff, Effect::PlayError));
    match &t.state {
        AppState::Error { data, seconds_left } => {
            assert_eq!(data.message, "Ausweis nicht registriert");
            assert!(matches!(data.error_type, ErrorType::BadgeNotRecognized));
            assert_eq!(*seconds_left, 5);
        }
        _ => panic!("404 must show the badge-not-recognized screen"),
    }
    for i in 0..6 {
        t.handle_tick(3_000 + i);
    }
    assert!(matches!(t.state, AppState::Idle { .. }));
}

#[test]
fn test_offline_accept_scenario() {
    let mut t = make_terminal();
    t.handle_rfid_scanned("TAG001".to_string(), 1_000);
    let eff = t.handle_scan_result(
        Err(ApiError::NetworkError("connection refused".to_string())),
        2_000,
    );
    // Optimistic feedback: the success cue plays even though the scan was
    // only buffered.
    assert!(matches!(eff, Effect::PlaySuccess));
    assert!(matches!(t.state, AppState::OfflineConfirm { .. }));
    assert_eq!(t.pending_count, 1);
    assert!(!t.is_online);

    let pending = t.buffer.get_pending();
    assert_eq!(pending.len(), 1);
    assert_eq!(pending[0].rfid_tag_id, "TAG001");
    assert_eq!(pending[0].terminal_id, "terminal-01");
    assert!(!pending[0].synced);
}

#[test]
fn test_conflict_shows_scan_again() {
    let mut t = make_terminal();
    t.handle_rfid_scanned("TAG001".to_string(), 1_000);
    t.handle_scan_result(Err(ApiError::Conflict), 2_000);
    match &t.state {
        AppState::Error { data, .. } => {
            assert_eq!(data.message, "Bitte erneut scannen");
            assert!(matches!(data.error_type, ErrorType::Other));
        }
        _ => panic!("409 must ask the user to scan again"),
    }
}

#[test]
fn test_scan_dropped_outside_idle() {
    let mut t = make_terminal();
    t.handle_rfid_scanned("TAG001".to_string(), 1_000);
    assert!(matches!(t.state, AppState::Loading { .. }));
    // A second scan while one is in flight is dropped.
    let eff = t.handle_rfid_scanned("TAG002".to_string(), 5_000);
    assert!(matches!(eff, Effect::Nothing));
    match &t.state {
        AppState::Loading { rfid } => assert_eq!(rfid, "TAG001"),
        _ => panic!("the in-flight scan must stay"),
    }
}

#[test]
fn test_late_scan_result_discarded() {
    let mut t = make_terminal();
    let eff = t.handle_scan_result(Ok(clock_in_response()), 2_000);
    assert!(matches!(eff, Effect::Nothing));
    assert!(matches!(t.state, AppState::Idle { .. }));
}

#[test]
fn test_machine_level_debounce() {
    let mut t = make_terminal();
    t.handle_rfid_scanned("TAGX".to_string(), 0);
    t.handle_scan_result(Ok(clock_in_response()), 100);
    // Return to Idle so only the debounce window can suppress the repeat.
    for i in 0..9 {
        t.handle_tick(150 + i);
    }
    assert!(matches!(t.state, AppState::Idle { .. }));
    let eff = t.handle_rfid_scanned("TAGX".to_string(), 200);
    assert!(matches!(eff, Effect::Nothing), "the repeat within 500 ms must be suppressed");
    let eff = t.handle_rfid_scanned("TAGY".to_string(), 300);
    assert!(matches!(eff, Effect::StartScan { .. }), "a different tag is never debounced");
}

#[test]
fn test_sync_tick_only_with_pending() {
    let mut t = make_terminal();
    assert!(matches!(t.handle_sync_tick(), Effect::Nothing));
    t.handle_rfid_scanned("TAG001".to_string(), 1_000);
    t.handle_scan_result(Err(ApiError::Timeout), 2_000);
    assert!(matches!(t.handle_sync_tick(), Effect::StartSync));
}

#[test]
fn test_sync_complete_refreshes_counters_only() {
    let mut t = make_terminal();
    t.handle_rfid_scanned("TAG001".to_string(), 1_000);
    t.handle_scan_result(Err(ApiError::Timeout), 2_000);
    assert!(!t.is_online);
    let id = t.buffer.get_pending()[0].id;
    t.buffer.mark_synced(id);
    // A pass that only discarded stale events reports zero synced; the
    // badge and the online flag still follow the drained buffer.
    let eff = t.handle_sync_complete(0);
    assert!(matches!(eff, Effect::Nothing));
    assert_eq!(t.pending_count, 0);
    assert!(t.is_online);
    assert!(matches!(t.state, AppState::OfflineConfirm { .. }), "the screen never changes here");
}

#[test]
fn test_update_dispatches() {
    let mut t = make_terminal();
    let eff = t.update(Message::RfidScanned("TAG123".to_string()), 1_000);
    assert!(matches!(eff, Effect::StartScan { .. }));
    let eff = t.update(Message::ScanResult(Ok(clock_in_response())), 2_000);
    assert!(matches!(eff, Effect::PlaySuccess));
    let eff = t.update(Message::Tick, 3_000);
    assert!(matches!(eff, Effect::Nothing));
    let eff = t.update(Message::SyncTick, 4_000);
    assert!(matches!(eff, Effect::Nothing));
    let eff = t.update(Message::SyncComplete(0), 5_000);
    assert!(matches!(eff, Effect::Nothing));
}

#[test]
fn test_tick_keeps_loading() {
    let mut t = make_terminal();
    t.handle_rfid_scanned("TAG001".to_string(), 1_000);
    t.handle_tick(2_000);
    assert!(matches!(t.state, AppState::Loading { .. }));
}
