use rat_logger::file_sink::{
    after_delete_attempt, join, DateTimeParts, DeleteDecision, DeleteOutcome, FileOp, FileSinkState,
    LogRotator,
};
use rat_logger::retention::{is_log_artifact, prune_plan, LogFileEntry};
use rat_logger::FileConfig;
use rat_logger::config::FileConfigError;

fn kinds(ops: &[FileOp]) -> Vec<&'static str> {
    ops.iter()
        .map(|o| match o {
            FileOp::Append(_) => "append",
            FileOp::Sync => "sync",
            FileOp::Rotate => "rotate",
        })
        .collect()
}

#[test]
fn size_accounting_and_rotation() {
    let mut s = FileSinkState::new(10, false);
    assert_eq!(kinds(&s.write(vec![0; 4])), vec!["append"]);
    assert_eq!(s.current_size, 4);
    assert_eq!(kinds(&s.write(vec![0; 6])), vec!["append", "rotate"]);
    assert_eq!(s.current_size, 0);
    assert!(s.write(Vec::new()).is_empty());
    assert_eq!(kinds(&s.rotate()), vec!["rotate"]);
    assert!(s.flush().is_empty());
}

#[test]
fn oversize_record_written_whole_then_rotated() {
    let mut s = FileSinkState::new(8, false);
    let ops = s.write(vec![7; 25]);
    assert_eq!(kinds(&ops), vec!["append", "rotate"]);
    match &ops[0] {
        FileOp::Append(d) => assert_eq!(d.len(), 25),
        _ => panic!("append first"),
    }
    assert_eq!(s.current_size, 0);
}

#[test]
fn force_sync_syncs_every_write() {
    let mut s = FileSinkState::new(1000, true);
    for _ in 0..100 {
        assert_eq!(kinds(&s.write(vec![1; 3])), vec!["append", "sync"]);
    }
    assert_eq!(s.current_size, 300);
    assert_eq!(kinds(&s.flush()), vec!["sync"]);
}

#[test]
fn rotated_names_never_repeat_within_a_second() {
    let t = DateTimeParts { year: 2024, month: 1, day: 2, hour: 3, minute: 4, second: 5 };
    let mut r = LogRotator::new("logs".to_string(), 5);
    assert_eq!(r.name_at(t), "app_20240102_030405.log");
    assert_eq!(r.name_at(t), "app_20240102_030405_1.log");
    assert_eq!(r.name_at(t), "app_20240102_030405_2.log");
    let t2 = DateTimeParts { second: 6, ..t };
    assert_eq!(r.name_at(t2), "app_20240102_030406.log");
    let p = r.next_path();
    assert!(p.starts_with("logs/app_"));
    assert!(p.ends_with(".log"));
    assert!(is_log_artifact(&p[5..]));
}

#[test]
fn join_paths() {
    assert_eq!(join("logs", "a.log"), "logs/a.log");
    assert_eq!(join("logs/", "a.log"), "logs/a.log");
    assert_eq!(join("", "a.log"), "a.log");
}

#[test]
fn artifact_names() {
    assert!(is_log_artifact("app_20240102_030405.log"));
    assert!(is_log_artifact("app_20240102_030405.log.lz4"));
    assert!(!is_log_artifact("app.log"));
    assert!(!is_log_artifact("app_x.txt"));
    assert!(!is_log_artifact("xapp_1.log"));
}

fn entry(name: &str, modified: u64) -> LogFileEntry {
    LogFileEntry { name: name.to_string(), modified }
}

#[test]
fn pruning_deletes_oldest_but_never_active() {
    let files = vec![
        entry("app_1.log.lz4", 1),
        entry("app_2.log.lz4", 2),
        entry("app_3.log", 3),
        entry("other.txt", 0),
        entry("app_0.log.lz4", 0),
    ];
    assert_eq!(prune_plan(&files, "app_3.log", 2), vec![true, false, false, false, true]);
    assert_eq!(prune_plan(&files, "app_3.log", 5), vec![false; 5]);
    // the active file stays even when it is the oldest
    let files = vec![entry("app_a.log", 0), entry("app_b.log.lz4", 5), entry("app_c.log.lz4", 6)];
    assert_eq!(prune_plan(&files, "app_a.log", 1), vec![false, true, true]);
}

#[test]
fn delete_retry_rule() {
    assert_eq!(after_delete_attempt(0, DeleteOutcome::Removed, 100), DeleteDecision::Done);
    assert_eq!(after_delete_attempt(0, DeleteOutcome::PermissionDenied, 100), DeleteDecision::RetryAfter(100));
    assert_eq!(after_delete_attempt(2, DeleteOutcome::PermissionDenied, 200), DeleteDecision::RetryAfter(600));
    assert_eq!(after_delete_attempt(4, DeleteOutcome::PermissionDenied, 100), DeleteDecision::GiveUp);
    assert_eq!(after_delete_attempt(1, DeleteOutcome::OtherError, 100), DeleteDecision::GiveUp);
}

#[test]
fn file_config_validation() {
    let mut c = FileConfig::default();
    assert_eq!(c.max_file_size, 10 * 1024 * 1024);
    assert!(c.validate().is_ok());
    c.is_raw = true;
    c.format = Some(rat_logger::FormatConfig::default());
    assert_eq!(c.validate(), Err(FileConfigError::RawWithFormat));
    c.compression_level = 23;
    assert_eq!(c.validate(), Err(FileConfigError::CompressionLevelTooHigh));
    c.max_file_size = 0;
    assert_eq!(c.validate(), Err(FileConfigError::ZeroMaxFileSize));
}

#[test]
fn file_processor_config_default() {
    let c = rat_logger::config::FileProcessorConfig::default();
    assert_eq!((c.batch_size, c.flush_interval_ms), (8192, 100));
    assert_eq!(c.file_config.max_compressed_files, 10);
}
