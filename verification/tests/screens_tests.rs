use terminal::screens::{format_countdown, format_hm, format_offline_banner, format_overtime,
    format_sync_banner, format_tenths, ErrorType};

#[test]
fn test_format_hm() {
    assert_eq!(format_hm(425), "7h 05min");
    assert_eq!(format_hm(0), "0h 00min");
    assert_eq!(format_hm(60), "1h 00min");
    assert_eq!(format_hm(u32::MAX), "71582788h 15min");
}

#[test]
fn test_format_overtime() {
    assert_eq!(format_overtime(65), "+1h 05min");
    assert_eq!(format_overtime(0), "+0h 00min");
    assert_eq!(format_overtime(-90), "-1h 30min");
    // Small deficits lose their sign on the truncated hour, as the
    // terminals have always shown them.
    assert_eq!(format_overtime(-30), "0h 30min");
}

#[test]
fn test_format_tenths() {
    assert_eq!(format_tenths(250), "25.0");
    assert_eq!(format_tenths(125), "12.5");
    assert_eq!(format_tenths(-25), "-2.5");
    assert_eq!(format_tenths(0), "0.0");
}

#[test]
fn test_format_countdown() {
    assert_eq!(format_countdown(5), "Zur\u{00FC}ck in 5s");
}

#[test]
fn test_banners() {
    assert_eq!(
        format_offline_banner(3),
        "\u{26A0}  Offline  \u{2014}  3 ausstehende Ereignisse"
    );
    assert_eq!(
        format_sync_banner(2),
        "\u{2191}  2 Ereignisse werden synchronisiert"
    );
}

#[test]
fn test_error_headings() {
    assert_eq!(ErrorType::BadgeNotRecognized.heading(), "\u{26A0}  Ausweis nicht erkannt");
    assert_eq!(
        ErrorType::BadgeNotRecognized.description(),
        "Dieser Ausweis ist nicht registriert."
    );
    assert_eq!(ErrorType::ServerUnavailable.heading(), "\u{26A0}  Server nicht erreichbar");
    assert_eq!(ErrorType::NetworkError.heading(), "\u{26A0}  Netzwerkfehler");
    assert_eq!(ErrorType::Other.heading(), "\u{26A0}  Fehler");
}
