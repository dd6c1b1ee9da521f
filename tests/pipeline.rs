use rat_logger::codec::{decode_record, encode_record};
use rat_logger::config::Metadata;
use rat_logger::dispatch::{route_record, Route};
use rat_logger::worker::{SinkAction, WorkerCore};
use rat_logger::{BatchConfig, Level, LevelFilter, LogCommand, Record};

fn rec(level: Level, msg: &str) -> Record {
    Record {
        metadata: std::sync::Arc::new(Metadata { level, target: "e2e".to_string(), auth_token: None, app_id: None }),
        args: msg.to_string(),
        module: None,
        file: None,
        line: None,
    }
}

/// Routes records as the logger does and returns what reaches the sink.
fn run(records: &[Record], filter: LevelFilter, config: BatchConfig) -> Vec<String> {
    let mut worker = WorkerCore::new(config, 0);
    let mut delivered = Vec::new();
    for (t, r) in records.iter().enumerate() {
        let cmd = match route_record(r, filter) {
            Route::Drop => continue,
            Route::Emergency => LogCommand::WriteForce(encode_record(r)),
            Route::Broadcast => LogCommand::Write(encode_record(r)),
        };
        for action in worker.step(cmd, t as u64) {
            match action {
                SinkAction::ProcessBatch(batch) => {
                    for b in batch {
                        delivered.push(decode_record(&b).unwrap().args);
                    }
                }
                SinkAction::Process(b) => delivered.push(decode_record(&b).unwrap().args),
                _ => {}
            }
        }
    }
    delivered
}

#[test]
fn level_gate_delivers_error_and_warn_in_order() {
    let records: Vec<Record> = [Level::Error, Level::Warn, Level::Info, Level::Debug, Level::Trace]
        .iter()
        .map(|l| rec(*l, l.as_str()))
        .collect();
    assert_eq!(run(&records, LevelFilter::Warn, BatchConfig::immediate()), vec!["ERROR", "WARN"]);
}

#[test]
fn emergency_error_flushes_pending_infos_first() {
    let mut records: Vec<Record> = (1..=5).map(|i| rec(Level::Info, &format!("info{}", i))).collect();
    records.push(rec(Level::Error, "error"));
    let config = BatchConfig { batch_size: 100, batch_interval_ms: 1000, buffer_size: 1024 };
    assert_eq!(
        run(&records, LevelFilter::Info, config),
        vec!["info1", "info2", "info3", "info4", "info5", "error"]
    );
}

#[test]
fn hundred_records_keep_their_order() {
    let records: Vec<Record> = (0..100).map(|i| rec(Level::Info, &format!("m{}", i))).collect();
    let config = BatchConfig { batch_size: 7, batch_interval_ms: 60000, buffer_size: 1024 };
    let mut out = run(&records, LevelFilter::Info, config);
    // the last partial batch is still pending: 100 = 14 * 7 + 2
    assert_eq!(out.len(), 98);
    let expected: Vec<String> = (0..98).map(|i| format!("m{}", i)).collect();
    assert_eq!(out, expected);
    out.clear();
}
