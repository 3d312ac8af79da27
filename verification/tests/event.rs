use dirsync::event::{
    EventEnvelope, HeaderError, ShmHeader, SyncEvent, SHM_HEADER_SIZE, SHM_MAGIC, SHM_VERSION,
};
use dirsync::path::SyncPath;

type FlatEvent = (u8, Vec<String>, [u8; 32], u64, i64);

fn names(path: &SyncPath) -> Vec<String> {
    path.parts
        .iter()
        .map(|part| match part {
            dirsync::path::Component::Normal(name) => String::from_utf8(name.clone()).unwrap(),
            _ => panic!("Expected a plain name"),
        })
        .collect()
}

fn flatten(event: &SyncEvent) -> FlatEvent {
    match event {
        SyncEvent::FileCreated { path, content_hash, size } => {
            (0, names(path), *content_hash, *size, 0)
        }
        SyncEvent::Heartbeat { timestamp } => (6, Vec::new(), [0u8; 32], 0, *timestamp),
        _ => panic!("Unexpected event"),
    }
}

fn restore(flat: FlatEvent) -> SyncEvent {
    let (tag, names, content_hash, size, timestamp) = flat;
    match tag {
        0 => SyncEvent::FileCreated {
            path: SyncPath::parse(&names.join("/")),
            content_hash,
            size,
        },
        6 => SyncEvent::Heartbeat { timestamp },
        _ => panic!("Unexpected tag"),
    }
}

#[test]
fn test_event_serde_roundtrip() {
    let event = SyncEvent::FileCreated {
        path: SyncPath::parse("foo/bar.txt"),
        content_hash: [0u8; 32],
        size: 1024,
    };
    let encoded = bincode::serialize(&flatten(&event)).unwrap();
    let decoded: FlatEvent = bincode::deserialize(&encoded).unwrap();
    assert_eq!(event, restore(decoded));
}

#[test]
fn test_envelope_serde_roundtrip() {
    let envelope = EventEnvelope {
        instance_id: 1,
        seq: 42,
        timestamp: 1700000000000,
        event: SyncEvent::Heartbeat { timestamp: 1700000000000 },
    };
    let encoded = bincode::serialize(&(
        envelope.instance_id,
        envelope.seq,
        envelope.timestamp,
        flatten(&envelope.event),
    ))
    .unwrap();
    let flat: (u64, u64, i64, FlatEvent) = bincode::deserialize(&encoded).unwrap();
    let decoded = EventEnvelope {
        instance_id: flat.0,
        seq: flat.1,
        timestamp: flat.2,
        event: restore(flat.3),
    };
    assert_eq!(envelope.instance_id, decoded.instance_id);
    assert_eq!(envelope.seq, decoded.seq);
    assert_eq!(envelope.event, decoded.event);
}

#[test]
fn test_shm_header_validate() {
    let header = ShmHeader::new(1024, 2048);
    assert!(header.validate().is_ok());
}

#[test]
fn header_with_wrong_magic_is_refused() {
    let mut header = ShmHeader::new(1024, 0);
    header.magic = *b"XSYN";
    assert_eq!(header.validate(), Err(HeaderError::InvalidMagic));
}

#[test]
fn header_with_wrong_version_is_refused() {
    let mut header = ShmHeader::new(1024, 0);
    header.version = 7;
    assert_eq!(header.validate(), Err(HeaderError::UnsupportedVersion(7)));
}

#[test]
fn header_fields_lie_at_their_offsets() {
    let mut header = ShmHeader::new(0x11223344, 0x55667788);
    header.seq_a = 0x0102030405060708;
    header.rb_read_b = 9;
    let bytes = header.to_bytes();
    assert_eq!(bytes.len(), SHM_HEADER_SIZE);
    assert_eq!(&bytes[0..4], &SHM_MAGIC);
    assert_eq!(&bytes[0..4], b"DSYN");
    assert_eq!(&bytes[4..8], &SHM_VERSION.to_le_bytes());
    assert_eq!(&bytes[0x08..0x10], &[8, 7, 6, 5, 4, 3, 2, 1]);
    assert_eq!(&bytes[0x28..0x2C], &[9, 0, 0, 0]);
    assert_eq!(&bytes[0x2C..0x30], &[0x44, 0x33, 0x22, 0x11]);
    assert_eq!(&bytes[0x34..0x38], &[0x88, 0x77, 0x66, 0x55]);
}

#[test]
fn header_bytes_read_back() {
    let mut header = ShmHeader::new(4000, 0);
    header.seq_a = 3;
    header.seq_b = u64::MAX;
    header.lock_a = 1;
    header.rb_write = 77;
    header.rb_read_a = 12;
    header.dp_write = 3;
    assert_eq!(ShmHeader::from_bytes(&header.to_bytes()), Some(header));
    assert_eq!(ShmHeader::from_bytes(&[0u8; 55]), None);
    assert_eq!(header.active_mask(), 3);
}

#[test]
fn events_tell_their_path_offset_and_length() {
    let content = SyncEvent::FileContent {
        path: SyncPath::parse("a/b"),
        offset: 12,
        data: vec![1, 2, 3],
    };
    assert_eq!(content.path(), Some(&SyncPath::parse("a/b")));
    assert_eq!(content.offset(), 12);
    assert_eq!(content.data_len(), 3);
    let beat = SyncEvent::Heartbeat { timestamp: 5 };
    assert_eq!(beat.path(), None);
    assert_eq!(beat.offset(), 0);
    assert_eq!(beat.data_len(), 0);
    let copy = content.clone();
    assert_eq!(copy, content);
}
