use rat_logger::codec::{decode_net_record, decode_record, encode_net_record, encode_record, level_from_tag, CodecError};
use rat_logger::config::{Level, Metadata, NetRecord, Record};

fn sample() -> Record {
    Record {
        metadata: std::sync::Arc::new(Metadata {
            level: Level::Debug,
            target: "crate::mod".to_string(),
            auth_token: Some("tok-1".to_string()),
            app_id: Some("A".to_string()),
        }),
        args: "héllo wörld ✓".to_string(),
        module: Some("crate::mod".to_string()),
        file: None,
        line: Some(70000),
    }
}

#[test]
fn record_exact_bytes() {
    let r = Record {
        metadata: std::sync::Arc::new(Metadata {
            level: Level::Info,
            target: "t".to_string(),
            auth_token: None,
            app_id: None,
        }),
        args: "m".to_string(),
        module: None,
        file: None,
        line: Some(7),
    };
    assert_eq!(encode_record(&r), vec![4, b'I', b'N', b'F', b'O', 1, b't', 0, 0, 1, b'm', 0, 0, 1, 7]);
}

#[test]
fn record_round_trip() {
    let r = sample();
    let bytes = encode_record(&r);
    let back = decode_record(&bytes).unwrap();
    assert_eq!(back.metadata.level, r.metadata.level);
    assert_eq!(back.metadata.target, r.metadata.target);
    assert_eq!(back.metadata.auth_token, r.metadata.auth_token);
    assert_eq!(back.metadata.app_id, r.metadata.app_id);
    assert_eq!(back.args, r.args);
    assert_eq!(back.module, r.module);
    assert_eq!(back.file, r.file);
    assert_eq!(back.line, Some(70000));
    // 70000 needs the four-byte varint form
    assert_eq!(&bytes[bytes.len() - 6..], &[1, 252, 0x70, 0x11, 0x01, 0x00]);
}

#[test]
fn every_level_round_trips() {
    for l in [Level::Error, Level::Warn, Level::Info, Level::Debug, Level::Trace] {
        let mut r = sample();
        r.metadata = std::sync::Arc::new(Metadata { level: l, ..(*r.metadata).clone() });
        assert_eq!(decode_record(&encode_record(&r)).unwrap().metadata.level, l);
        assert_eq!(level_from_tag(l.as_str()), Some(l));
    }
    assert_eq!(level_from_tag("error"), None);
}

#[test]
fn unknown_level_tag_is_invalid_data() {
    let bytes = vec![5, b'F', b'A', b'T', b'A', b'L', 1, b't', 0, 0, 1, b'm', 0, 0, 0];
    assert_eq!(decode_record(&bytes).err(), Some(CodecError::InvalidData));
    assert!(decode_record(&[]).is_err());
    let mut truncated = encode_record(&sample());
    truncated.pop();
    assert!(decode_record(&truncated).is_err());
}

#[test]
fn net_record_round_trip() {
    let n = NetRecord {
        level: Level::Error,
        target: "x".to_string(),
        message: "boom".to_string(),
        module: None,
        file: Some("f.rs".to_string()),
        line: None,
        timestamp: 5_000_000_000,
        auth_token: None,
        app_id: Some("A".to_string()),
    };
    let back = decode_net_record(&encode_net_record(&n)).unwrap();
    assert_eq!(back.timestamp, 5_000_000_000);
    assert_eq!(back.level, Level::Error);
    assert_eq!(back.message, "boom");
    assert_eq!(back.file, Some("f.rs".to_string()));
    assert_eq!(back.line, None);
    assert_eq!(back.app_id, Some("A".to_string()));
    assert_eq!(back.auth_token, None);
}

#[test]
fn huge_length_prefix_is_refused_without_allocating() {
    let mut bytes = vec![253u8];
    bytes.extend_from_slice(&[0xff; 8]);
    assert_eq!(decode_record(&bytes).err(), Some(CodecError::InvalidData));
    assert!(decode_net_record(&bytes).is_err());
    // a length that runs past the end of the bytes
    assert!(decode_record(&[10, b'I', b'N']).is_err());
    // a level tag whose announced length is larger than what follows
    assert!(decode_record(&[251, 0x00, 0x10, b'E']).is_err());
}
