use terminal::api::{classify_response, ApiClient, ApiError, RetrySession, RetryStep};
use terminal::config::ApiConfig;

fn make_client(base_url: &str) -> ApiClient {
    ApiClient::new(&ApiConfig {
        base_url: base_url.to_string(),
        timeout_seconds: 5,
        retry_attempts: 1,
        terminal_id: "terminal-1".to_string(),
    })
}

#[test]
fn test_url_construction() {
    let client = make_client("http://localhost:8080/api");
    let url = client.scan_url();
    assert_eq!(url, "http://localhost:8080/api/terminal/scan");
}

#[test]
fn test_health_check_url_construction() {
    let client = make_client("http://localhost:8080/api");
    let url = client.health_url();
    assert_eq!(url, "http://localhost:8080/api/actuator/health");
}

#[test]
fn test_api_error_display() {
    assert!(ApiError::NotFound("x".to_string()).message().contains("Not found"));
    assert!(ApiError::Unauthorized.message().contains("Unauthorized"));
    assert!(ApiError::ServerError("500".to_string()).message().contains("Server error"));
    assert!(ApiError::NetworkError("conn".to_string()).message().contains("Network error"));
    assert!(ApiError::Timeout.message().contains("timed out"));
}

const RESPONSE_BODY: &str = r#"{
    "employee": {
        "id": "abc-123",
        "firstName": "Max",
        "lastName": "Mustermann",
        "photoUrl": null
    },
    "entryType": "CLOCK_IN",
    "timestamp": "2024-01-15T08:00:00Z",
    "todayWorkMinutes": 0,
    "todayBreakMinutes": 0,
    "overtimeMinutes": 0,
    "remainingVacationDays": 25.0
}"#;

#[test]
fn test_classify_success_parses_body() {
    let r = classify_response(200, RESPONSE_BODY);
    match r {
        Ok(resp) => {
            assert_eq!(resp.employee.id, "abc-123");
            assert_eq!(resp.entry_type, "CLOCK_IN");
        }
        Err(_) => panic!("expected a parsed reply"),
    }
}

#[test]
fn test_classify_unreadable_body_is_server_error() {
    let r = classify_response(200, "not json at all");
    match r {
        Err(ApiError::ServerError(m)) => assert!(m.contains("Failed to parse response")),
        _ => panic!("expected a server error"),
    }
}

#[test]
fn test_classify_error_statuses() {
    match classify_response(404, "") {
        Err(ApiError::NotFound(m)) => assert_eq!(m, "RFID tag not registered"),
        _ => panic!("404 must be NotFound"),
    }
    match classify_response(401, "") {
        Err(ApiError::Unauthorized) => {}
        _ => panic!("401 must be Unauthorized"),
    }
    match classify_response(409, "") {
        Err(ApiError::Conflict) => {}
        _ => panic!("409 must be Conflict"),
    }
    match classify_response(500, "") {
        Err(ApiError::ServerError(m)) => assert_eq!(m, "HTTP 500"),
        _ => panic!("500 must be ServerError"),
    }
    match classify_response(503, "") {
        Err(ApiError::ServerError(m)) => assert_eq!(m, "HTTP 503"),
        _ => panic!("503 must be ServerError"),
    }
}

#[test]
fn test_retry_session_retries_transient_until_exhausted() {
    let mut session = RetrySession::new(3);
    assert!(session.should_attempt());
    match session.note_outcome(Err(ApiError::Timeout)) {
        RetryStep::Retry => {}
        _ => panic!("first transient failure must be retried"),
    }
    match session.note_outcome(Err(ApiError::NetworkError("down".to_string()))) {
        RetryStep::Retry => {}
        _ => panic!("second transient failure must be retried"),
    }
    match session.note_outcome(Err(ApiError::Timeout)) {
        RetryStep::Done(Err(ApiError::Timeout)) => {}
        _ => panic!("the last attempt's failure is final"),
    }
    assert!(!session.should_attempt());
}

#[test]
fn test_retry_session_semantic_error_is_final() {
    let mut session = RetrySession::new(3);
    match session.note_outcome(Err(ApiError::Unauthorized)) {
        RetryStep::Done(Err(ApiError::Unauthorized)) => {}
        _ => panic!("a semantic error is never retried"),
    }
}

#[test]
fn test_retry_session_zero_attempts() {
    let session = RetrySession::new(0);
    assert!(!session.should_attempt());
    match session.no_attempts_result() {
        Err(ApiError::NetworkError(m)) => assert_eq!(m, "No attempts made"),
        _ => panic!("no attempts must surface as a network error"),
    }
}
