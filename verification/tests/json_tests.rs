use terminal::json::{encode_clock_request, parse_clock_request, parse_clock_response};

#[test]
fn test_clock_request_serialization() {
    let json = encode_clock_request("TAG123", "terminal-1");
    assert!(json.contains("rfidTagId"), "expected camelCase: {}", json);
    assert!(json.contains("terminalId"), "expected camelCase: {}", json);
}

#[test]
fn test_clock_request_round_trip() {
    let json = encode_clock_request("TAG123", "terminal-1");
    let (tag, term) = parse_clock_request(&json).expect("the encoded request must parse");
    assert_eq!(tag, "TAG123");
    assert_eq!(term, "terminal-1");
}

#[test]
fn test_clock_request_round_trip_with_escapes() {
    let json = encode_clock_request("TAG\"\\7", "term 1");
    let (tag, term) = parse_clock_request(&json).expect("the encoded request must parse");
    assert_eq!(tag, "TAG\"\\7");
    assert_eq!(term, "term 1");
}

#[test]
fn test_clock_response_deserialization() {
    let json = r#"{
        "employee": {
            "id": "abc-123",
            "firstName": "Max",
            "lastName": "Mustermann",
            "photoUrl": null
        },
        "entryType": "CLOCK_IN",
        "timestamp": "2024-01-15T08:00:00Z",
        "todayWorkMinutes": 0,
        "todayBreakMinutes": 0,
        "overtimeMinutes": 0,
        "remainingVacationDays": 25.0
    }"#;

    let response = parse_clock_response(json).expect("deserialization failed");
    assert_eq!(response.employee.first_name, "Max");
    assert_eq!(response.employee.last_name, "Mustermann");
    assert_eq!(response.entry_type, "CLOCK_IN");
    assert_eq!(response.today_work_minutes, 0);
    assert_eq!(response.remaining_vacation_tenths, 250);
}

#[test]
fn test_clock_response_full_fields() {
    let json = "{\"employee\":{\"id\":\"e9\",\"firstName\":\"Erika\",\"lastName\":\"Musterfrau\",\"photoUrl\":\"http://pics/e9.png\"},\"entryType\":\"CLOCK_OUT\",\"timestamp\":\"2024-06-30T17:45:10Z\",\"todayWorkMinutes\":492,\"todayBreakMinutes\":45,\"overtimeMinutes\":-12,\"remainingVacationDays\":12.5}";
    let r = parse_clock_response(json).expect("well-formed reply must parse");
    assert_eq!(r.employee.id, "e9");
    assert_eq!(r.employee.photo_url.as_deref(), Some("http://pics/e9.png"));
    assert_eq!(r.entry_type, "CLOCK_OUT");
    assert_eq!(r.timestamp, "2024-06-30T17:45:10Z");
    assert_eq!(r.today_work_minutes, 492);
    assert_eq!(r.today_break_minutes, 45);
    assert_eq!(r.overtime_minutes, -12);
    assert_eq!(r.remaining_vacation_tenths, 125);
}

#[test]
fn test_clock_response_photo_absent() {
    let json = "{\"employee\":{\"id\":\"e1\",\"firstName\":\"A\",\"lastName\":\"B\"},\"entryType\":\"CLOCK_IN\",\"timestamp\":\"2024-01-01T00:00:00Z\",\"todayWorkMinutes\":1,\"todayBreakMinutes\":2,\"overtimeMinutes\":3,\"remainingVacationDays\":4.0}";
    let r = parse_clock_response(json).expect("a reply without photoUrl must parse");
    assert!(r.employee.photo_url.is_none());
}

#[test]
fn test_clock_response_rejects_bad_timestamp() {
    let json = "{\"employee\":{\"id\":\"e1\",\"firstName\":\"A\",\"lastName\":\"B\",\"photoUrl\":null},\"entryType\":\"CLOCK_IN\",\"timestamp\":\"2023-02-29T00:00:00Z\",\"todayWorkMinutes\":1,\"todayBreakMinutes\":2,\"overtimeMinutes\":3,\"remainingVacationDays\":4.0}";
    assert!(parse_clock_response(json).is_none());
}

#[test]
fn test_clock_response_rejects_garbage() {
    assert!(parse_clock_response("").is_none());
    assert!(parse_clock_response("{}").is_none());
    assert!(parse_clock_response("[1,2,3]").is_none());
}
