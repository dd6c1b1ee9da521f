use rat_logger::config::{ColorConfig, FormatConfig, Level, Metadata, Record};
use rat_logger::format::{default_format, format_with_color, format_with_config, raw_format, render_template, FieldStrings};
use rat_logger::sinks::{keeps_record, Layout, TermConfigError};
use rat_logger::codec::encode_record;
use rat_logger::{FileConfig, TermConfig};

fn rec(level: Level, app_id: Option<&str>, line: Option<u32>) -> Record {
    Record {
        metadata: std::sync::Arc::new(Metadata {
            level,
            target: "app::db".to_string(),
            auth_token: None,
            app_id: app_id.map(|s| s.to_string()),
        }),
        args: "slow query".to_string(),
        module: Some("app::db".to_string()),
        file: Some("db.rs".to_string()),
        line,
    }
}

const TS: &str = "2024-01-02 03:04:05.006";

#[test]
fn default_layout() {
    assert_eq!(
        default_format(&rec(Level::Warn, None, Some(42)), TS),
        "2024-01-02 03:04:05.006 [WARN] app::db db.rs:42 - slow query\n"
    );
    let mut r = rec(Level::Info, None, None);
    r.file = None;
    assert_eq!(default_format(&r, "T"), "T [INFO] app::db unknown:0 - slow query\n");
}

#[test]
fn template_layout() {
    let f = FormatConfig::default();
    assert_eq!(
        format_with_config(&rec(Level::Error, None, Some(7)), TS, &f),
        "2024-01-02 03:04:05.006 [ERROR] app::db:7 - slow query\n"
    );
    let mut f2 = FormatConfig::default();
    f2.format_template = "{level}|{file}|{unknown}|{message}".to_string();
    f2.level_style.debug = "dbg".to_string();
    assert_eq!(
        format_with_config(&rec(Level::Debug, None, Some(1)), TS, &f2),
        "dbg|db.rs|{unknown}|slow query\n"
    );
}

#[test]
fn placeholders_in_values_are_not_expanded() {
    let v = FieldStrings {
        timestamp: "T".to_string(),
        level: "L".to_string(),
        target: "{message}".to_string(),
        file: "F".to_string(),
        line: "1".to_string(),
        message: "M".to_string(),
    };
    assert_eq!(render_template("{target} {message}", &v, None), "{message} M");
    assert_eq!(render_template("a}:b", &v, Some("#")), "a#b");
    assert_eq!(render_template("a}:b", &v, None), "a}:b");
}

#[test]
fn colored_layout() {
    let mut f = FormatConfig::default();
    f.format_template = "{level} {message}".to_string();
    let c = ColorConfig::default();
    assert_eq!(
        format_with_color(&rec(Level::Warn, None, Some(1)), TS, &f, &c),
        "\x1b[33mWARN\x1b[0m \x1b[0mslow query\x1b[0m\n"
    );
    f.format_template = "[{target}}: {line}".to_string();
    assert_eq!(
        format_with_color(&rec(Level::Warn, None, Some(9)), TS, &f, &c),
        "[\x1b[34mapp::db\x1b[0m\x1b[0m:\x1b[35m \x1b[35m9\x1b[0m\n"
    );
}

#[test]
fn raw_layout() {
    assert_eq!(raw_format(&rec(Level::Info, None, None)), "slow query\n");
}

#[test]
fn terminal_layout_selection() {
    let t = TermConfig::default();
    assert!(t.validate().is_ok());
    assert!(matches!(Layout::for_terminal(t), Layout::Default));
    let with_color = TermConfig { enable_color: true, format: None, color: Some(ColorConfig::default()) };
    assert!(matches!(Layout::for_terminal(with_color), Layout::Colored(_, _)));
    let conflict = TermConfig { enable_color: false, format: None, color: Some(ColorConfig::default()) };
    assert_eq!(conflict.validate(), Err(TermConfigError::ColorWhileDisabled));
    let mut f = FormatConfig::default();
    f.format_template = String::new();
    let empty = TermConfig { enable_color: false, format: Some(f), color: None };
    assert_eq!(empty.validate(), Err(TermConfigError::EmptyTemplate));
}

#[test]
fn file_layout_and_skip_rule() {
    let mut c = FileConfig::default();
    c.is_raw = true;
    assert!(matches!(Layout::for_file(c.clone()), Layout::Raw));
    c.is_raw = false;
    assert!(matches!(Layout::for_file(c), Layout::Default));
    assert!(!keeps_record(&rec(Level::Info, None, None), true));
    assert!(keeps_record(&rec(Level::Info, Some("a"), None), true));
    assert!(keeps_record(&rec(Level::Info, None, None), false));
}

#[test]
fn batch_text_concatenates_kept_lines() {
    let a = encode_record(&rec(Level::Info, Some("x"), Some(1)));
    let b = encode_record(&rec(Level::Warn, None, Some(2)));
    let text = Layout::Raw.format_batch(&vec![a.clone(), b.clone()], TS, false).unwrap();
    assert_eq!(text, "slow query\nslow query\n");
    let text = Layout::Default.format_batch(&vec![a.clone(), b], TS, true).unwrap();
    assert_eq!(text, "2024-01-02 03:04:05.006 [INFO] app::db db.rs:1 - slow query\n");
    assert!(Layout::Raw.format_batch(&vec![a, vec![0]], TS, false).is_err());
}

#[test]
fn timestamp_now_is_rendered() {
    let line = Layout::Default.format_now(&rec(Level::Info, None, Some(3)));
    assert!(line.ends_with(" [INFO] app::db db.rs:3 - slow query\n"));
    assert!(line.starts_with("20"));
    assert_eq!(line.len(), "2024-01-02 03:04:05.006 [INFO] app::db db.rs:3 - slow query\n".len());
}
