use rat_logger::worker::{sink_batch_config, BatchConfigError, SinkAction, WorkerCore};
use rat_logger::{BatchConfig, LogCommand};

fn batch_of(a: &SinkAction) -> Vec<Vec<u8>> {
    match a {
        SinkAction::ProcessBatch(b) => b.clone(),
        _ => panic!("not a batch"),
    }
}

fn cfg(batch_size: usize, interval: u64) -> BatchConfig {
    BatchConfig { batch_size, batch_interval_ms: interval, buffer_size: 1024 }
}

#[test]
fn writes_are_batched_in_order() {
    let mut w = WorkerCore::new(cfg(2, 1000), 0);
    assert!(w.step(LogCommand::Write(b"a".to_vec()), 1).is_empty());
    let acts = w.step(LogCommand::Write(b"b".to_vec()), 2);
    assert_eq!(acts.len(), 1);
    assert_eq!(batch_of(&acts[0]), vec![b"a".to_vec(), b"b".to_vec()]);
    assert!(w.buffer.is_empty());
}

#[test]
fn interval_elapsed_triggers_batch() {
    let mut w = WorkerCore::new(cfg(100, 50), 0);
    assert!(w.step(LogCommand::Write(b"1".to_vec()), 10).is_empty());
    let acts = w.step(LogCommand::Write(b"2".to_vec()), 60);
    assert_eq!(batch_of(&acts[0]), vec![b"1".to_vec(), b"2".to_vec()]);
    assert_eq!(w.last_flush_ms, 60);
}

#[test]
fn batch_size_one_processes_every_write() {
    let mut w = WorkerCore::new(BatchConfig::immediate(), 0);
    for i in 0..5u8 {
        let acts = w.step(LogCommand::Write(vec![i]), 0);
        assert_eq!(acts.len(), 1);
        assert_eq!(batch_of(&acts[0]), vec![vec![i]]);
    }
}

#[test]
fn force_write_drains_first() {
    let mut w = WorkerCore::new(cfg(100, 1000), 0);
    for i in 1..=5u8 {
        assert!(w.step(LogCommand::Write(vec![i]), 1).is_empty());
    }
    let acts = w.step(LogCommand::WriteForce(vec![99]), 2);
    assert_eq!(acts.len(), 3);
    assert_eq!(batch_of(&acts[0]), vec![vec![1], vec![2], vec![3], vec![4], vec![5]]);
    assert!(matches!(&acts[1], SinkAction::Process(d) if d == &vec![99u8]));
    assert!(matches!(acts[2], SinkAction::Flush));
}

#[test]
fn control_commands_drain_before_acting() {
    let mut w = WorkerCore::new(cfg(100, 1000), 0);
    w.step(LogCommand::Write(b"x".to_vec()), 1);
    let acts = w.step(LogCommand::Rotate, 2);
    assert_eq!(acts.len(), 2);
    assert_eq!(batch_of(&acts[0]), vec![b"x".to_vec()]);
    assert!(matches!(acts[1], SinkAction::Rotate));
    w.step(LogCommand::Write(b"y".to_vec()), 3);
    let acts = w.step(LogCommand::Compress("old.log".to_string()), 4);
    assert_eq!(batch_of(&acts[0]), vec![b"y".to_vec()]);
    assert!(matches!(&acts[1], SinkAction::Compress(p) if p == "old.log"));
    let acts = w.step(LogCommand::Flush, 5);
    assert_eq!(acts.len(), 1);
    assert!(matches!(acts[0], SinkAction::Flush));
}

#[test]
fn shutdown_drains_and_is_idempotent() {
    let mut w = WorkerCore::new(cfg(100, 1000), 0);
    w.step(LogCommand::Write(b"last".to_vec()), 1);
    let acts = w.step(LogCommand::Shutdown("test"), 2);
    assert_eq!(acts.len(), 3);
    assert_eq!(batch_of(&acts[0]), vec![b"last".to_vec()]);
    assert!(matches!(acts[1], SinkAction::Flush));
    assert!(matches!(acts[2], SinkAction::Cleanup));
    assert!(w.is_stopped());
    assert!(w.step(LogCommand::Shutdown("again"), 3).is_empty());
    assert!(w.step(LogCommand::Write(b"late".to_vec()), 4).is_empty());
    assert!(w.buffer.is_empty());
}

#[test]
fn health_check_replies() {
    let mut w = WorkerCore::new(cfg(100, 1000), 0);
    let (tx, rx) = crossbeam_channel::unbounded::<bool>();
    let acts = w.step(LogCommand::HealthCheck(tx), 1);
    assert_eq!(acts.len(), 1);
    match &acts[0] {
        SinkAction::Reply(s) => s.send(true).unwrap(),
        _ => panic!("expected a reply"),
    }
    assert_eq!(rx.recv().unwrap(), true);
}

#[test]
fn batch_config_validation() {
    assert!(BatchConfig::default().validate().is_ok());
    let d = BatchConfig::default();
    assert_eq!((d.batch_size, d.batch_interval_ms, d.buffer_size), (2048, 25, 16384));
    let c = |b: usize, i: u64, s: usize| BatchConfig { batch_size: b, batch_interval_ms: i, buffer_size: s }.validate();
    assert_eq!(c(0, 1, 1), Err(BatchConfigError::ZeroBatchSize));
    assert_eq!(c(1048577, 1, 2000000), Err(BatchConfigError::BatchSizeTooLarge));
    assert_eq!(c(1, 0, 1), Err(BatchConfigError::ZeroInterval));
    assert_eq!(c(1, 60001, 1), Err(BatchConfigError::IntervalTooLong));
    assert_eq!(c(1, 60000, 0), Err(BatchConfigError::ZeroBufferSize));
    assert_eq!(c(1, 1, 10485761), Err(BatchConfigError::BufferSizeTooLarge));
    assert_eq!(c(10, 1, 5), Err(BatchConfigError::BufferSmallerThanBatch));
    assert_eq!(c(10, 1, 10), Ok(()));
    assert!(!BatchConfigError::ZeroBatchSize.message().is_empty());
}

#[test]
fn sink_batch_config_rule() {
    let given = BatchConfig { batch_size: 5, batch_interval_ms: 10, buffer_size: 50 };
    assert_eq!(sink_batch_config(Some(given), true), Some(given));
    assert_eq!(sink_batch_config(None, true), None);
    assert_eq!(sink_batch_config(None, false), Some(BatchConfig::immediate()));
}
