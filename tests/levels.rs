use rat_logger::{AppId, Level, LevelFilter};

#[test]
fn level_filter_mapping() {
    assert_eq!(Level::Error.to_level_filter(), LevelFilter::Error);
    assert_eq!(Level::Trace.to_level_filter(), LevelFilter::Trace);
    assert!(Level::Warn.should_log_at(LevelFilter::Warn));
    assert!(!Level::Info.should_log_at(LevelFilter::Warn));
    assert!(!Level::Error.should_log_at(LevelFilter::Off));
    assert!(Level::Error.should_log_at_level(Level::Trace));
    assert!(!Level::Trace.should_log_at_level(Level::Error));
}

#[test]
fn level_tags() {
    assert_eq!(Level::Error.as_str(), "ERROR");
    assert_eq!(Level::Warn.to_string(), "WARN");
    assert_eq!(Level::Debug.as_str(), "DEBUG");
}

#[test]
fn numeric_filter_round_trip() {
    for f in [LevelFilter::Off, LevelFilter::Error, LevelFilter::Warn, LevelFilter::Info, LevelFilter::Debug, LevelFilter::Trace] {
        assert_eq!(LevelFilter::from_usize(f.as_usize()), f);
    }
    assert_eq!(LevelFilter::from_usize(42), LevelFilter::Info);
    assert_eq!(LevelFilter::Debug.as_usize(), 4);
}

#[test]
fn app_id_keeps_text() {
    assert_eq!(AppId::new("svc").as_str(), "svc");
}

#[test]
fn env_style_level_words() {
    assert_eq!(LevelFilter::parse("warn"), Some(LevelFilter::Warn));
    assert_eq!(LevelFilter::parse("DEBUG"), Some(LevelFilter::Debug));
    assert_eq!(LevelFilter::parse("TrAcE"), Some(LevelFilter::Trace));
    assert_eq!(LevelFilter::parse("error"), Some(LevelFilter::Error));
    assert_eq!(LevelFilter::parse("Info"), Some(LevelFilter::Info));
    assert_eq!(LevelFilter::parse("verbose"), None);
    assert_eq!(LevelFilter::parse("off"), None);
    assert_eq!(LevelFilter::parse(""), None);
}
