use terminal::config::{AppConfig, DisplayConfig};

#[test]
fn test_default_config() {
    let config = AppConfig::default();
    assert_eq!(config.display.resolution, "1024x600");
    assert!(config.display.fullscreen);
    assert_eq!(config.locale.language, "de");
}

#[test]
fn test_resolution_parsing() {
    let config = DisplayConfig {
        resolution: "1920x1080".to_string(),
        fullscreen: true,
        orientation: "landscape".to_string(),
        theme: "dark".to_string(),
        idle_timeout_seconds: 8,
        error_timeout_seconds: 5,
    };
    assert_eq!(config.resolution_width(), 1920);
    assert_eq!(config.resolution_height(), 1080);
}

#[test]
fn test_invalid_resolution_fallback() {
    let config = DisplayConfig {
        resolution: "invalid".to_string(),
        fullscreen: true,
        orientation: "landscape".to_string(),
        theme: "dark".to_string(),
        idle_timeout_seconds: 8,
        error_timeout_seconds: 5,
    };
    assert_eq!(config.resolution_width(), 1024);
    assert_eq!(config.resolution_height(), 600);
}

#[test]
fn test_resolution_with_blanks_and_partial_numbers() {
    let config = DisplayConfig {
        resolution: " 800 x 480 ".to_string(),
        fullscreen: false,
        orientation: "portrait".to_string(),
        theme: "light".to_string(),
        idle_timeout_seconds: 10,
        error_timeout_seconds: 3,
    };
    assert_eq!(config.resolution_width(), 800);
    assert_eq!(config.resolution_height(), 480);

    let half_bad = DisplayConfig {
        resolution: "abcx480".to_string(),
        fullscreen: false,
        orientation: "portrait".to_string(),
        theme: "light".to_string(),
        idle_timeout_seconds: 10,
        error_timeout_seconds: 3,
    };
    assert_eq!(half_bad.resolution_width(), 1024);
    assert_eq!(half_bad.resolution_height(), 480);
}

#[test]
fn test_each_terminal_has_unique_id_in_config() {
    // Each physical terminal reads its own configuration file — validate the
    // field is present and distinct from the default so operators are
    // reminded to set it.
    let config = AppConfig::default();
    assert!(
        !config.api.terminal_id.is_empty(),
        "terminal_id must not be empty"
    );
}
