use rat_logger::{fmt, FmtInitializer, LevelFilter};

#[test]
fn test_fmt_initializer_default() {
    let initializer = FmtInitializer::default();
    assert_eq!(initializer.max_level, LevelFilter::Info);
}

#[test]
fn test_fmt_initializer_builder() {
    let initializer = fmt().with_max_level(LevelFilter::Debug);

    assert_eq!(initializer.max_level, LevelFilter::Debug);
}

#[test]
fn fmt_initializer_new_is_info() {
    assert_eq!(FmtInitializer::new().max_level, LevelFilter::Info);
}
