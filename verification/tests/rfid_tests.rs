use terminal::rfid::{trim_ws, RfidReader};

#[test]
fn test_debounced_double_scan() {
    // debounce-ms = 500; the same tag at t=0 and t=200 yields one scan.
    let mut reader = RfidReader::new("auto", 500);
    reader.offer("TAGX\n");
    assert_eq!(reader.poll(0).as_deref(), Some("TAGX"));
    reader.offer("TAGX\n");
    assert_eq!(reader.poll(200), None);
}

#[test]
fn test_debounce_expires_after_window() {
    let mut reader = RfidReader::new("auto", 500);
    reader.offer("TAGX");
    assert_eq!(reader.poll(0).as_deref(), Some("TAGX"));
    reader.offer("TAGX");
    assert_eq!(reader.poll(500).as_deref(), Some("TAGX"));
}

#[test]
fn test_different_tags_never_debounced() {
    let mut reader = RfidReader::new("auto", 500);
    reader.offer("TAGX");
    reader.offer("TAGY");
    assert_eq!(reader.poll(0).as_deref(), Some("TAGX"));
    assert_eq!(reader.poll(1).as_deref(), Some("TAGY"));
}

#[test]
fn test_poll_consumes_suppressed_duplicates() {
    let mut reader = RfidReader::new("auto", 500);
    reader.offer("TAGX");
    assert_eq!(reader.poll(0).as_deref(), Some("TAGX"));
    reader.offer("TAGX");
    reader.offer("TAGZ");
    // The duplicate is consumed and dropped; the next tag comes through.
    assert_eq!(reader.poll(100).as_deref(), Some("TAGZ"));
    assert_eq!(reader.poll(101), None);
}

#[test]
fn test_offer_trims_and_drops_empty_lines() {
    let mut reader = RfidReader::new("auto", 0);
    reader.offer("  TAG42\r\n");
    reader.offer("   \r\n");
    reader.offer("");
    assert_eq!(reader.poll(0).as_deref(), Some("TAG42"));
    assert_eq!(reader.poll(1), None);
}

#[test]
fn test_trim_ws() {
    assert_eq!(trim_ws("  abc \t\r\n"), "abc");
    assert_eq!(trim_ws(""), "");
    assert_eq!(trim_ws(" \t "), "");
    assert_eq!(trim_ws("a b"), "a b");
}
