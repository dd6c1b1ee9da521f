use rat_logger::config::{Level, Metadata, Record};
use rat_logger::udp::{after_send_attempt, server_address, SendDecision};
use rat_logger::{NetworkConfig, UdpBatchProcessor, UdpConfig, UdpPacketHelper};

fn record(level: Level, target: &str, app_id: Option<&str>, msg: &str) -> Record {
    Record {
        metadata: std::sync::Arc::new(Metadata {
            level,
            target: target.to_string(),
            auth_token: None,
            app_id: app_id.map(|s| s.to_string()),
        }),
        args: msg.to_string(),
        module: None,
        file: None,
        line: None,
    }
}

#[test]
fn test_encode_decode_roundtrip() {
    let record = Record {
        metadata: std::sync::Arc::new(Metadata {
            level: Level::Info,
            target: "test".to_string(),
            auth_token: None,
            app_id: None,
        }),
        args: "test message".to_string(),
        module: Some("test::module".to_string()),
        file: Some("test.rs".to_string()),
        line: Some(42),
    };

    let encoded = UdpPacketHelper::encode_record(&record, Some("token".to_string()), Some("app".to_string())).unwrap();
    let decoded = UdpPacketHelper::decode_packet(&encoded).unwrap();
    let restored = UdpPacketHelper::net_record_to_record(&decoded);

    assert_eq!(restored.metadata.level, record.metadata.level);
    assert_eq!(restored.metadata.target, record.metadata.target);
    assert_eq!(restored.args, record.args);
    assert_eq!(restored.line, record.line);
}

#[test]
fn test_packet_metadata() {
    let record = record(Level::Error, "test", Some("my_app"), "error message");

    let encoded = UdpPacketHelper::encode_record(&record, None, Some("my_app".to_string())).unwrap();
    let metadata = UdpPacketHelper::get_packet_metadata(&encoded).unwrap();

    assert_eq!(metadata.level, Level::Error);
    assert_eq!(metadata.target, "test");
    assert_eq!(metadata.app_id, Some("my_app".to_string()));
    assert!(metadata.is_from_app("my_app"));
    assert!(!metadata.is_from_app("other_app"));
    assert!(metadata.level.should_log_at_level(Level::Error));
    assert!(metadata.level.should_log_at_level(Level::Warn));
    assert!(metadata.level.should_log_at_level(Level::Info));
    assert!(metadata.level.should_log_at_level(Level::Debug));
    assert!(metadata.level.should_log_at_level(Level::Trace));
}

#[test]
fn udp_helper_test_level_filtering() {
    let debug_record = record(Level::Debug, "test", None, "debug message");

    let encoded = UdpPacketHelper::encode_record(&debug_record, None, None).unwrap();
    let metadata = UdpPacketHelper::get_packet_metadata(&encoded).unwrap();

    assert!(!metadata.level.should_log_at_level(Level::Error));
    assert!(!metadata.level.should_log_at_level(Level::Warn));
    assert!(!metadata.level.should_log_at_level(Level::Info));
    assert!(metadata.level.should_log_at_level(Level::Debug));
    assert!(metadata.level.should_log_at_level(Level::Trace));
}

#[test]
fn encode_record_at_exact_bytes() {
    let r = record(Level::Warn, "t", None, "m");
    let bytes = UdpPacketHelper::encode_record_at(&r, None, Some("A".to_string()), 300);
    let expected: Vec<u8> = vec![
        4, b'W', b'A', b'R', b'N', 1, b't', 1, b'm', 0, 0, 0, 251, 44, 1, 0, 1, 1, b'A',
    ];
    assert_eq!(bytes, expected);
}

#[test]
fn packet_keeps_timestamp_and_credentials() {
    let r = record(Level::Error, "svc", None, "x");
    let bytes = UdpPacketHelper::encode_record_at(&r, Some("tok".to_string()), Some("A".to_string()), 1_700_000_000);
    let n = UdpPacketHelper::decode_packet(&bytes).unwrap();
    assert_eq!(n.timestamp, 1_700_000_000);
    assert_eq!(n.message, "x");
    assert_eq!(n.auth_token, Some("tok".to_string()));
    assert_eq!(n.app_id, Some("A".to_string()));
    assert_eq!(n.level, Level::Error);
}

#[test]
fn encode_record_stamps_current_time() {
    let r = record(Level::Info, "t", None, "m");
    let bytes = UdpPacketHelper::encode_record(&r, None, None).unwrap();
    let md = UdpPacketHelper::get_packet_metadata(&bytes).unwrap();
    assert!(md.timestamp > 1_600_000_000);
    assert!(md.age_seconds() < 1000);
}

#[test]
fn invalid_packets_are_refused() {
    assert!(!UdpPacketHelper::validate_packet(&[5, b'B', b'O', b'G', b'U', b'S', 0, 0]));
    assert!(UdpPacketHelper::decode_packet(&[]).is_err());
    assert!(UdpPacketHelper::get_packet_metadata(&[1, b'X']).is_none());
}

#[test]
fn packet_age_at() {
    let r = record(Level::Info, "t", None, "hello");
    let bytes = UdpPacketHelper::encode_record_at(&r, None, None, 100);
    let md = UdpPacketHelper::get_packet_metadata(&bytes).unwrap();
    assert_eq!(md.message_length, 5);
    assert_eq!(md.age_at(160), 60);
    assert_eq!(md.age_at(50), 0);
    assert!(!md.is_from_app("x"));
}

#[test]
fn batch_processor_decodes_and_filters() {
    let p = UdpBatchProcessor::new(10, 500);
    assert_eq!(p.batch_size, 10);
    let a = UdpPacketHelper::encode_record_at(&record(Level::Info, "a", None, "one"), None, Some("x".to_string()), 1);
    let b = UdpPacketHelper::encode_record_at(&record(Level::Warn, "b", None, "two"), None, Some("y".to_string()), 2);
    let bad = vec![9u8, 9, 9];
    let packets = vec![a.clone(), bad, b.clone()];
    let records = p.process_batch(&packets);
    assert_eq!(records.len(), 2);
    assert_eq!(records[0].args, "one");
    assert_eq!(records[1].args, "two");
    let kept = p.filter_packets(&packets, |m: &rat_logger::PacketMetadata| m.is_from_app("y"));
    assert_eq!(kept, vec![b]);
    let d = UdpBatchProcessor::default();
    assert_eq!((d.batch_size, d.max_wait_time_ms), (100, 1000));
}

#[test]
fn udp_config_validation() {
    let mut c = UdpConfig::default();
    assert_eq!(c.retry_count, 3);
    assert!(c.validate().is_ok());
    c.retry_count = 0;
    assert!(c.validate().is_err());
    c.retry_count = 11;
    assert!(c.validate().is_err());
    c.retry_count = 10;
    assert!(c.validate().is_ok());
}

#[test]
fn server_address_and_retry_rule() {
    assert_eq!(server_address(&NetworkConfig::default()), "127.0.0.1:5140");
    assert_eq!(after_send_attempt(0, 3, true), SendDecision::Done);
    assert_eq!(after_send_attempt(0, 3, false), SendDecision::Retry);
    assert_eq!(after_send_attempt(2, 3, false), SendDecision::GiveUp);
}

#[test]
fn encoder_and_decoder_closures() {
    let encode = UdpPacketHelper::create_encoder("tok".to_string(), "app".to_string());
    let decode = UdpPacketHelper::create_decoder();
    let bytes = encode(&record(Level::Warn, "svc", None, "hi")).unwrap();
    let back = decode(&bytes).unwrap();
    assert_eq!(back.args, "hi");
    assert_eq!(back.metadata.app_id, Some("app".to_string()));
    assert_eq!(back.metadata.auth_token, Some("tok".to_string()));
    assert!(decode(&[0, 1]).is_err());
}

#[test]
fn oversized_length_prefix_in_a_datagram() {
    let mut bytes = vec![253u8];
    bytes.extend_from_slice(&[0xff; 8]);
    assert!(!UdpPacketHelper::validate_packet(&bytes));
    assert!(UdpPacketHelper::get_packet_metadata(&bytes).is_none());
    let p = UdpBatchProcessor::default();
    assert!(p.process_batch(&vec![bytes.clone()]).is_empty());
    assert!(p.filter_packets(&vec![bytes], |_m: &rat_logger::PacketMetadata| true).is_empty());
}
