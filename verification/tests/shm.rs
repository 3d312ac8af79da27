use dirsync::chunker::chunk_data;
use dirsync::cli::{NameStyle, Role};
use dirsync::event::{EventEnvelope, HeaderError, ShmHeader, SyncEvent, SHM_HEADER_SIZE};
use dirsync::path::{Component, SyncPath};
use dirsync::shm::{
    push_next, push_retry, Attach, LockAction, LockAttempt, PopError, PushError, PushNext,
    RegisterError, ShmTransport,
    MAX_SPIN,
};

/// A segment in memory.
struct Segment {
    shm: ShmTransport,
    header: ShmHeader,
    ring: Vec<u8>,
}

type Flat = (u64, u64, i64, u8, String, [u8; 32], u64, Vec<u8>, i64);

fn text(path: &SyncPath) -> String {
    let names: Vec<String> = path
        .parts
        .iter()
        .map(|part| match part {
            Component::Normal(name) => String::from_utf8(name.clone()).unwrap(),
            _ => panic!("Expected a plain name"),
        })
        .collect();
    names.join("/")
}

fn encode(e: &EventEnvelope) -> Vec<u8> {
    let head = (e.instance_id, e.seq, e.timestamp);
    let flat: Flat = match &e.event {
        SyncEvent::FileCreated { path, content_hash, size } => {
            (head.0, head.1, head.2, 0, text(path), *content_hash, *size, vec![], 0)
        }
        SyncEvent::DirCreated { path } => {
            (head.0, head.1, head.2, 3, text(path), [0; 32], 0, vec![], 0)
        }
        SyncEvent::FileContent { path, offset, data } => {
            (head.0, head.1, head.2, 5, text(path), [0; 32], *offset, data.clone(), 0)
        }
        SyncEvent::Heartbeat { timestamp } => {
            (head.0, head.1, head.2, 6, String::new(), [0; 32], 0, vec![], *timestamp)
        }
        _ => panic!("Unexpected event"),
    };
    bincode::serialize(&flat).unwrap()
}

fn decode(bytes: &[u8]) -> EventEnvelope {
    let flat: Flat = bincode::deserialize(bytes).unwrap();
    let path = SyncPath::parse(&flat.4);
    let event = match flat.3 {
        0 => SyncEvent::FileCreated { path, content_hash: flat.5, size: flat.6 },
        3 => SyncEvent::DirCreated { path },
        5 => SyncEvent::FileContent { path, offset: flat.6, data: flat.7 },
        6 => SyncEvent::Heartbeat { timestamp: flat.8 },
        _ => panic!("Unexpected tag"),
    };
    EventEnvelope { instance_id: flat.0, seq: flat.1, timestamp: flat.2, event }
}

impl Segment {
    fn create(name: &str, total_size: usize) -> Segment {
        let (shm, header) = ShmTransport::create(NameStyle::Posix, name, total_size);
        let ring = vec![0u8; header.rb_capacity as usize];
        Segment { shm, header, ring }
    }

    fn existing(&self) -> Option<(usize, ShmHeader)> {
        Some((self.shm.total_size, self.header))
    }

    fn push(&mut self, id: u64, envelope: &EventEnvelope) -> Result<(), PushError> {
        self.push_bytes(id, &encode(envelope))
    }

    fn push_bytes(&mut self, id: u64, payload: &[u8]) -> Result<(), PushError> {
        assert!(self.header.has_cursors_in_ring());
        self.shm.push_event(&mut self.header, &mut self.ring, id, payload)
    }

    fn pop(&mut self, id: u64) -> Vec<EventEnvelope> {
        self.pop_bytes(id).unwrap().iter().map(|bytes| decode(bytes)).collect()
    }

    fn pop_bytes(&mut self, id: u64) -> Result<Vec<Vec<u8>>, PopError> {
        self.shm.pop_events(&mut self.header, &self.ring, id)
    }
}

fn make_envelope(seq: u64, path: &str) -> EventEnvelope {
    EventEnvelope {
        instance_id: 0,
        seq,
        timestamp: 1700000000000 + seq as i64,
        event: SyncEvent::FileCreated {
            path: SyncPath::parse(path),
            content_hash: [0u8; 32],
            size: 100 * seq,
        },
    }
}

fn seq_envelope(instance_id: u64, seq: u64, event: SyncEvent) -> EventEnvelope {
    EventEnvelope { instance_id, seq, timestamp: 1_700_000_000_000, event }
}

#[test]
fn test_shm_create_and_open() {
    let segment = Segment::create("create_open", 4096);
    let shm2 = ShmTransport::open(NameStyle::Posix, "create_open", 4096, &segment.header).unwrap();
    assert_eq!(segment.shm.total_size, shm2.total_size);
}

#[test]
fn test_create_or_open_first_creates() {
    let (shm, header) = ShmTransport::create_or_open(NameStyle::Posix, "first_creates", 8192, None);
    assert!(shm.capacity(&header.unwrap()) > 0);
}

#[test]
fn test_create_or_open_second_opens() {
    let (shm1, created) =
        ShmTransport::create_or_open(NameStyle::Posix, "second_opens", 8192, None);
    let header = created.unwrap();
    let cap1 = shm1.capacity(&header);
    let (shm2, created2) =
        ShmTransport::create_or_open(
            NameStyle::Posix,
            "second_opens",
            8192,
            Some((shm1.total_size, header)),
        );
    assert!(created2.is_none());
    assert_eq!(shm1.capacity(&header), shm2.capacity(&header));
    assert_eq!(cap1, shm2.capacity(&header));
}

#[test]
fn test_push_and_pop_single_event() {
    let mut shm = Segment::create("push_pop_single", 65536);

    let envelope = make_envelope(1, "test.txt");
    shm.push(0, &envelope).unwrap();

    let events = shm.pop(1);
    assert_eq!(events.len(), 1);
    assert_eq!(events[0].seq, 1);
}

#[test]
fn test_push_and_pop_multiple_events() {
    let mut shm = Segment::create("push_pop_multi", 65536);

    for i in 1..=10 {
        let envelope = make_envelope(i, &format!("file_{i}.txt"));
        shm.push(0, &envelope).unwrap();
    }

    let events = shm.pop(1);
    assert_eq!(events.len(), 10);
    for (i, ev) in events.iter().enumerate() {
        assert_eq!(ev.seq, (i + 1) as u64);
    }
}

#[test]
fn test_pop_empty_returns_empty() {
    let mut shm = Segment::create("pop_empty", 4096);
    let events = shm.pop(0);
    assert!(events.is_empty());
}

#[test]
fn test_pop_advances_cursor() {
    let mut shm = Segment::create("pop_advances", 65536);

    shm.push(0, &make_envelope(1, "a.txt")).unwrap();
    shm.push(0, &make_envelope(2, "b.txt")).unwrap();

    let first = shm.pop(1);
    assert_eq!(first.len(), 2);

    let second = shm.pop(1);
    assert!(second.is_empty());
}

#[test]
fn test_ring_buffer_wrap_around() {
    let mut shm = Segment::create("wrap_around", 4096);

    for round in 0..20 {
        let envelope = make_envelope(round, &format!("round_{round}.txt"));
        shm.push(0, &envelope).unwrap();
        let events = shm.pop(1);
        assert_eq!(events.len(), 1);
        assert_eq!(events[0].seq, round);
    }
}

#[test]
fn test_two_instances_independent_read_cursors() {
    let mut shm = Segment::create("independent_cursors", 65536);

    shm.push(0, &make_envelope(1, "shared.txt")).unwrap();

    let ev0 = shm.pop(0);
    assert_eq!(ev0.len(), 1);

    let ev1 = shm.pop(1);
    assert_eq!(ev1.len(), 1);

    assert!(shm.pop(0).is_empty());
    assert!(shm.pop(1).is_empty());
}

#[test]
fn test_overflow_returns_error() {
    let mut shm = Segment::create("overflow", 1024);

    let event = EventEnvelope {
        instance_id: 0,
        seq: 1,
        timestamp: 1700000000000,
        event: SyncEvent::FileContent {
            path: SyncPath::parse("too_large.bin"),
            offset: 0,
            data: vec![0u8; 2048],
        },
    };

    assert!(shm.push(0, &event).is_err());
}

#[test]
fn test_heartbeat_event_roundtrip() {
    let mut shm = Segment::create("heartbeat", 4096);

    let envelope = EventEnvelope {
        instance_id: 1,
        seq: 99,
        timestamp: 1700000000000,
        event: SyncEvent::Heartbeat { timestamp: 1700000000000 },
    };
    shm.push(1, &envelope).unwrap();
    let events = shm.pop(0);
    assert_eq!(events.len(), 1);
    assert_eq!(events[0].seq, 99);
    assert!(matches!(events[0].event, SyncEvent::Heartbeat { .. }));
}

#[test]
fn test_two_instances_create_and_read() {
    let mut segment = Segment::create("two_inst", 65536);
    let shm_b = ShmTransport::open(NameStyle::Posix, "two_inst", 65536, &segment.header).unwrap();

    let env = seq_envelope(
        0,
        1,
        SyncEvent::FileCreated {
            path: SyncPath::parse("shared.txt"),
            content_hash: [0xAA; 32],
            size: 42,
        },
    );
    segment.push(0, &env).unwrap();

    let payloads = shm_b.pop_events(&mut segment.header, &segment.ring, 1).unwrap();
    let events: Vec<EventEnvelope> = payloads.iter().map(|bytes| decode(bytes)).collect();
    assert_eq!(events.len(), 1);
    assert_eq!(events[0].instance_id, 0);
    assert!(matches!(
        &events[0].event,
        SyncEvent::FileCreated { path, .. } if path == &SyncPath::parse("shared.txt")
    ));
}

#[test]
fn test_bidirectional_sync() {
    let mut shm = Segment::create("bidir", 65536);

    shm.push(0, &seq_envelope(0, 1, SyncEvent::DirCreated { path: SyncPath::parse("docs") }))
        .unwrap();

    shm.push(
        1,
        &seq_envelope(
            1,
            1,
            SyncEvent::FileCreated {
                path: SyncPath::parse("readme.md"),
                content_hash: [0xBB; 32],
                size: 100,
            },
        ),
    )
    .unwrap();

    let ev0 = shm.pop(0);
    assert_eq!(ev0.len(), 2);
    let remote_for_0: Vec<_> = ev0.iter().filter(|e| e.instance_id == 1).collect();
    assert_eq!(remote_for_0.len(), 1);

    let ev1 = shm.pop(1);
    assert_eq!(ev1.len(), 2);
    let remote_for_1: Vec<_> = ev1.iter().filter(|e| e.instance_id == 0).collect();
    assert_eq!(remote_for_1.len(), 1);
}

#[test]
fn chunks_pass_through_the_ring_unchanged() {
    let mut shm = Segment::create("chunks", 131072);
    let content = vec![0xABu8; 200];
    let chunks = chunk_data(&SyncPath::parse("big.bin"), &content, 64);
    for (i, chunk) in chunks.iter().enumerate() {
        shm.push(0, &seq_envelope(0, (i + 1) as u64, chunk.clone())).unwrap();
    }
    let events: Vec<SyncEvent> = shm.pop(1).into_iter().map(|e| e.event).collect();
    assert_eq!(events, chunks);
}

#[test]
fn every_payload_comes_out_once_and_in_order() {
    let mut shm = Segment::create("order", SHM_HEADER_SIZE + 101);
    let mut sent: Vec<Vec<u8>> = Vec::new();
    let mut got: Vec<Vec<u8>> = Vec::new();
    for i in 0..500usize {
        let payload = vec![i as u8; i % 23];
        loop {
            match shm.push_bytes(0, &payload) {
                Ok(()) => break,
                Err(PushError::Full { .. }) => {
                    shm.pop_bytes(0).unwrap();
                    got.extend(shm.pop_bytes(1).unwrap());
                }
                Err(other) => panic!("Unexpected refusal: {:?}", other),
            }
        }
        sent.push(payload);
    }
    got.extend(shm.pop_bytes(1).unwrap());
    assert_eq!(got, sent);
    assert_eq!(shm.header.seq_a, 500);
    assert_eq!(shm.header.seq_b, 0);
}

#[test]
fn a_frame_that_can_never_fit_is_too_large() {
    let mut shm = Segment::create("large", SHM_HEADER_SIZE + 100);
    assert_eq!(
        shm.push_bytes(0, &[0u8; 93]),
        Err(PushError::TooLarge { payload_len: 93, capacity: 100 })
    );
    assert_eq!(shm.push_bytes(0, &[0u8; 92]), Ok(()));
}

#[test]
fn a_full_ring_refuses_until_the_readers_caught_up() {
    let mut shm = Segment::create("full", SHM_HEADER_SIZE + 100);
    shm.push_bytes(0, &[1u8; 46]).unwrap();
    assert_eq!(shm.shm.free_bytes_locked(&shm.header), 49);
    assert_eq!(
        shm.push_bytes(0, &[2u8; 46]),
        Err(PushError::Full { required: 50, free: 49 })
    );
    shm.pop_bytes(1).unwrap();
    assert!(shm.push_bytes(0, &[2u8; 46]).is_err());
    shm.pop_bytes(0).unwrap();
    assert_eq!(shm.push_bytes(0, &[2u8; 46]), Ok(()));
    assert_eq!(shm.header.rb_write, 0);
    assert_eq!(shm.pop_bytes(1).unwrap(), vec![vec![2u8; 46]]);
}

#[test]
fn a_tail_without_room_for_the_sentinel_is_refused() {
    let mut shm = Segment::create("tail", SHM_HEADER_SIZE + 100);
    shm.header.rb_write = 98;
    shm.header.rb_read_a = 98;
    shm.header.rb_read_b = 98;
    assert_eq!(
        shm.push_bytes(0, &[0u8; 10]),
        Err(PushError::TailTooSmall { write: 98, capacity: 100 })
    );
}

#[test]
fn only_registered_readers_hold_frames_back() {
    let mut shm = Segment::create("registered", SHM_HEADER_SIZE + 100);
    shm.shm.register_instance(&mut shm.header, 0).unwrap();
    assert_eq!(shm.shm.active_mask(&shm.header), 0b01);
    shm.push_bytes(0, &[1u8; 46]).unwrap();
    shm.pop_bytes(0).unwrap();
    assert_eq!(shm.push_bytes(0, &[2u8; 46]), Ok(()));
}

#[test]
fn a_new_reader_starts_at_the_write_cursor() {
    let mut shm = Segment::create("late", 4096);
    shm.push_bytes(0, b"before").unwrap();
    let mut late = ShmTransport::open(NameStyle::Posix, "late", 4096, &shm.header).unwrap();
    late.register_instance(&mut shm.header, 1).unwrap();
    shm.push_bytes(0, b"after").unwrap();
    assert_eq!(shm.pop_bytes(1).unwrap(), vec![b"after".to_vec()]);
    assert_eq!(late.active_mask(&shm.header), 0b10);
    late.unregister_instance(&mut shm.header);
    assert_eq!(late.active_mask(&shm.header), 0);
    assert_eq!(late.registered_instance, None);
}

#[test]
fn there_are_two_instances() {
    let mut shm = Segment::create("three", 4096);
    let before = shm.header;
    assert_eq!(
        shm.shm.register_instance(&mut shm.header, 2),
        Err(RegisterError::InvalidInstance(2))
    );
    assert_eq!(shm.header, before);
}

#[test]
fn a_broken_frame_stops_the_reader() {
    let mut shm = Segment::create("broken", SHM_HEADER_SIZE + 100);
    shm.push_bytes(0, b"good").unwrap();
    shm.push_bytes(0, b"bad").unwrap();
    shm.ring[8..12].copy_from_slice(&95u32.to_le_bytes());
    assert_eq!(shm.pop_bytes(1).unwrap(), vec![b"good".to_vec()]);
    assert_eq!(shm.header.rb_read_b, 8);
}

#[test]
fn frames_that_lead_in_a_circle_are_corrupt() {
    let mut shm = Segment::create("circle", SHM_HEADER_SIZE + 100);
    shm.ring[0..4].copy_from_slice(&46u32.to_le_bytes());
    shm.ring[50..54].copy_from_slice(&46u32.to_le_bytes());
    shm.header.rb_write = 10;
    assert_eq!(shm.pop_bytes(1), Err(PopError::Corrupt));
    assert_eq!(shm.header.rb_read_b, 0);
}

#[test]
fn a_foreign_segment_is_not_opened() {
    let mut header = Segment::create("foreign", 4096).header;
    header.version = 9;
    assert_eq!(
        ShmTransport::open(NameStyle::Posix, "foreign", 4096, &header).err(),
        Some(HeaderError::UnsupportedVersion(9))
    );
    header.magic = [0; 4];
    assert_eq!(
        ShmTransport::open(NameStyle::Posix, "foreign", 4096, &header).err(),
        Some(HeaderError::InvalidMagic)
    );
    let found = Some((4096, header));
    let (_, created) = ShmTransport::create_or_open(NameStyle::Posix, "foreign", 4096, found);
    assert!(created.is_some());
}

#[test]
fn the_host_creates_and_the_other_side_waits() {
    let segment = Segment::create("roles", 4096);
    assert!(matches!(
        ShmTransport::attach(Role::Join, NameStyle::Posix, "roles", 4096, None),
        Attach::Retry
    ));
    assert!(matches!(
        ShmTransport::attach(Role::Host, NameStyle::Posix, "roles", 4096, None),
        Attach::Created(_, _)
    ));
    assert!(matches!(
        ShmTransport::attach(Role::Join, NameStyle::Posix, "roles", 1024, segment.existing()),
        Attach::Opened(shm) if shm.total_size == 4096
    ));
    assert!(matches!(
        ShmTransport::attach(Role::Host, NameStyle::Posix, "roles", 1024, segment.existing()),
        Attach::Opened(_)
    ));
}

#[test]
fn a_lock_that_is_kept_is_not_had() {
    let mut attempt = LockAttempt::new();
    for _ in 1..MAX_SPIN {
        assert_eq!(attempt.try_acquire_lock(false), LockAction::Spin);
    }
    assert_eq!(attempt.try_acquire_lock(false), LockAction::GiveUp);
}

#[test]
fn a_lock_that_is_released_in_time_is_had() {
    let mut attempt = LockAttempt::new();
    for _ in 1..MAX_SPIN {
        assert_eq!(attempt.try_acquire_lock(false), LockAction::Spin);
    }
    assert_eq!(attempt.try_acquire_lock(true), LockAction::Acquired);
}

#[test]
fn an_existing_segment_is_opened_whatever_size_is_asked_for() {
    let mut segment = Segment::create("any_size", 4096);
    segment.push_bytes(0, b"kept").unwrap();
    for size in [0usize, 10, 4096, 1 << 20] {
        let found = segment.existing();
        let (shm, created) =
            ShmTransport::create_or_open(NameStyle::Posix, "any_size", size, found);
        let found = segment.existing();
        assert!(created.is_none());
        assert_eq!(shm.total_size, 4096);
        assert!(matches!(
            ShmTransport::attach(Role::Host, NameStyle::Posix, "any_size", size, found),
            Attach::Opened(_)
        ));
        assert!(matches!(
            ShmTransport::attach(Role::Join, NameStyle::Posix, "any_size", size, None),
            Attach::Retry
        ));
    }
    assert_eq!(segment.pop_bytes(1).unwrap(), vec![b"kept".to_vec()]);
}

#[test]
fn a_segment_has_the_name_that_the_system_takes() {
    let (posix, header) = ShmTransport::create(NameStyle::Posix, "docs", 4096);
    assert_eq!((posix.shm_name.as_str(), posix.os_name.as_str()), ("docs", "/docs"));
    let (windows, _) = ShmTransport::create(NameStyle::Windows, "/docs", 4096);
    assert_eq!(windows.os_name, "docs");
    let opened = ShmTransport::open(NameStyle::Posix, "docs", 4096, &header).unwrap();
    assert_eq!(opened.os_name, "/docs");
}

#[test]
fn a_refused_push_changes_nothing() {
    let mut shm = Segment::create("refused", SHM_HEADER_SIZE + 100);
    shm.push_bytes(1, &[1u8; 46]).unwrap();
    let before = (shm.header, shm.ring.clone());
    assert!(shm.push_bytes(1, &[2u8; 46]).is_err());
    assert_eq!((shm.header, shm.ring.clone()), before);
    assert_eq!((shm.header.seq_a, shm.header.seq_b), (0, 1));
}

#[test]
fn the_sentinel_always_fits() {
    let mut shm = Segment::create("fits", SHM_HEADER_SIZE + 64);
    shm.shm.register_instance(&mut shm.header, 0).unwrap();
    for i in 0..300usize {
        let _ = shm.push_bytes((i % 2) as u64, &vec![7u8; i % 37]);
        assert!(shm.header.rb_write <= shm.header.rb_capacity - 4);
        if i % 3 == 0 {
            shm.pop_bytes(0).unwrap();
        }
        if i == 150 {
            shm.shm.register_instance(&mut shm.header, 1).unwrap();
        }
        shm.pop_bytes(1).unwrap();
        assert_eq!(shm.header.rb_capacity, 64);
    }
}

#[test]
fn a_free_lock_is_had_at_once() {
    assert_eq!(LockAttempt::new().try_acquire_lock(true), LockAction::Acquired);
}

#[test]
fn a_producer_waits_for_thirty_seconds() {
    assert_eq!(push_retry(0), Some(10));
    assert_eq!(push_retry(29_999), Some(10));
    assert_eq!(push_retry(30_000), None);
}

#[test]
fn only_a_full_ring_is_waited_for() {
    let full = PushError::Full { required: 20, free: 4 };
    let large = PushError::TooLarge { payload_len: 100, capacity: 64 };
    let tail = PushError::TailTooSmall { write: 62, capacity: 64 };
    assert_eq!(push_next(&Ok(()), 0), PushNext::Done);
    assert_eq!(push_next(&Ok(()), 40_000), PushNext::Done);
    assert_eq!(push_next(&Err(full), 0), PushNext::Sleep(10));
    assert_eq!(push_next(&Err(full), 29_999), PushNext::Sleep(10));
    assert_eq!(push_next(&Err(full), 30_000), PushNext::Fail(full));
    assert_eq!(push_next(&Err(large), 0), PushNext::Fail(large));
    assert_eq!(push_next(&Err(tail), 0), PushNext::Fail(tail));
}

#[test]
fn a_pop_hands_out_what_was_pushed_since_the_last() {
    let mut shm = Segment::create("history", SHM_HEADER_SIZE + 96);
    shm.shm.register_instance(&mut shm.header, 1).unwrap();
    let mut due: Vec<Vec<u8>> = vec![];
    for i in 0..400usize {
        let payload = vec![(i % 251) as u8; i % 29];
        if shm.push_bytes(0, &payload).is_ok() {
            due.push(payload);
        }
        if i % 60 == 10 {
            shm.shm.register_instance(&mut shm.header, 0).unwrap();
        }
        if i % 60 == 40 {
            shm.shm.registered_instance = Some(0);
            shm.shm.unregister_instance(&mut shm.header);
        }
        if i % 7 == 3 {
            assert_eq!(shm.pop_bytes(1).unwrap(), due);
            due.clear();
        }
        if i % 5 == 1 {
            shm.pop_bytes(0).unwrap();
        }
    }
}
