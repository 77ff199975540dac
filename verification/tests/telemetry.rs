use pass_image_api::telemetry::LogLevel;

#[test]
fn test_log_level_from_name() {
    assert_eq!(LogLevel::from_name("error"), LogLevel::Error);
    assert_eq!(LogLevel::from_name("warn"), LogLevel::Warn);
    assert_eq!(LogLevel::from_name("info"), LogLevel::Info);
    assert_eq!(LogLevel::from_name("debug"), LogLevel::Debug);
    assert_eq!(LogLevel::from_name("trace"), LogLevel::Trace);
}

#[test]
fn test_log_level_falls_back_to_info() {
    assert_eq!(LogLevel::from_name(""), LogLevel::Info);
    assert_eq!(LogLevel::from_name("verbose"), LogLevel::Info);
    assert_eq!(LogLevel::from_name("INFO"), LogLevel::Info);
}
