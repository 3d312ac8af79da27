//! Synchronisation events and the header of the shared-memory segment.

use crate::path::{Part, SyncPath};
use vstd::bytes::{
    lemma_auto_spec_u32_to_from_le_bytes, lemma_auto_spec_u64_to_from_le_bytes,
    spec_u32_from_le_bytes, spec_u32_to_le_bytes, spec_u64_from_le_bytes, spec_u64_to_le_bytes,
    u32_from_le_bytes, u32_to_le_bytes, u64_from_le_bytes, u64_to_le_bytes,
};
use vstd::prelude::*;
use vstd::slice::{slice_subrange, slice_to_vec};

verus! {

/// Unique identifier of a sync instance.
pub type InstanceId = u64;

/// Sequence number for ordering events.
pub type SeqNum = u64;

/// Synchronisation events exchanged via shared memory.
#[derive(Debug, PartialEq)]
pub enum SyncEvent {
    /// A new file was created.
    FileCreated { path: SyncPath, content_hash: [u8; 32], size: u64 },
    /// An existing file was modified.
    FileModified { path: SyncPath, content_hash: [u8; 32], size: u64 },
    /// A file was deleted.
    FileDeleted { path: SyncPath },
    /// A new directory was created.
    DirCreated { path: SyncPath },
    /// A directory was deleted.
    DirDeleted { path: SyncPath },
    /// A chunk of file content.
    FileContent { path: SyncPath, offset: u64, data: Vec<u8> },
    /// Sign of life of a process.
    Heartbeat { timestamp: i64 },
}

/// The mathematical value of a [`SyncEvent`].
#[verifier::ext_equal]
pub enum EventView {
    FileCreated { path: Seq<Part>, content_hash: [u8; 32], size: u64 },
    FileModified { path: Seq<Part>, content_hash: [u8; 32], size: u64 },
    FileDeleted { path: Seq<Part> },
    DirCreated { path: Seq<Part> },
    DirDeleted { path: Seq<Part> },
    FileContent { path: Seq<Part>, offset: u64, data: Seq<u8> },
    Heartbeat { timestamp: i64 },
}

impl View for SyncEvent {
    type V = EventView;

    open spec fn view(&self) -> EventView {
        match self {
            SyncEvent::FileCreated { path, content_hash, size } => EventView::FileCreated {
                path: path@,
                content_hash: *content_hash,
                size: *size,
            },
            SyncEvent::FileModified { path, content_hash, size } => EventView::FileModified {
                path: path@,
                content_hash: *content_hash,
                size: *size,
            },
            SyncEvent::FileDeleted { path } => EventView::FileDeleted { path: path@ },
            SyncEvent::DirCreated { path } => EventView::DirCreated { path: path@ },
            SyncEvent::DirDeleted { path } => EventView::DirDeleted { path: path@ },
            SyncEvent::FileContent { path, offset, data } => EventView::FileContent {
                path: path@,
                offset: *offset,
                data: data@,
            },
            SyncEvent::Heartbeat { timestamp } => EventView::Heartbeat { timestamp: *timestamp },
        }
    }
}

/// The path that an event speaks of, if any.
pub open spec fn event_path(event: EventView) -> Option<Seq<Part>> {
    match event {
        EventView::FileCreated { path, .. } => Some(path),
        EventView::FileModified { path, .. } => Some(path),
        EventView::FileDeleted { path } => Some(path),
        EventView::DirCreated { path } => Some(path),
        EventView::DirDeleted { path } => Some(path),
        EventView::FileContent { path, .. } => Some(path),
        EventView::Heartbeat { .. } => None,
    }
}

/// The values of a list of events.
pub open spec fn event_views(events: Seq<SyncEvent>) -> Seq<EventView> {
    events.map_values(|e: SyncEvent| e@)
}

impl SyncEvent {
    /// The path affected by this event, if any.
    pub fn path(&self) -> (path: Option<&SyncPath>)
        ensures
            path is Some <==> event_path(self@) is Some,
            path matches Some(p) ==> Some(p@) == event_path(self@),
    {
        match self {
            SyncEvent::FileCreated { path, .. } => Some(path),
            SyncEvent::FileModified { path, .. } => Some(path),
            SyncEvent::FileDeleted { path } => Some(path),
            SyncEvent::DirCreated { path } => Some(path),
            SyncEvent::DirDeleted { path } => Some(path),
            SyncEvent::FileContent { path, .. } => Some(path),
            SyncEvent::Heartbeat { .. } => None,
        }
    }

    /// For content events the offset of the data, else 0.
    pub fn offset(&self) -> (offset: u64)
        ensures
            offset == (match self@ {
                EventView::FileContent { offset, .. } => offset,
                _ => 0,
            }),
    {
        match self {
            SyncEvent::FileContent { offset, .. } => *offset,
            _ => 0,
        }
    }

    /// For content events the length of the data, else 0.
    pub fn data_len(&self) -> (len: usize)
        ensures
            len == (match self@ {
                EventView::FileContent { data, .. } => data.len(),
                _ => 0,
            }),
    {
        match self {
            SyncEvent::FileContent { data, .. } => data.len(),
            _ => 0,
        }
    }
}

impl Clone for SyncEvent {
    fn clone(&self) -> (copy: Self)
        ensures
            copy@ == self@,
    {
        match self {
            SyncEvent::FileCreated { path, content_hash, size } => SyncEvent::FileCreated {
                path: path.clone(),
                content_hash: *content_hash,
                size: *size,
            },
            SyncEvent::FileModified { path, content_hash, size } => SyncEvent::FileModified {
                path: path.clone(),
                content_hash: *content_hash,
                size: *size,
            },
            SyncEvent::FileDeleted { path } => SyncEvent::FileDeleted { path: path.clone() },
            SyncEvent::DirCreated { path } => SyncEvent::DirCreated { path: path.clone() },
            SyncEvent::DirDeleted { path } => SyncEvent::DirDeleted { path: path.clone() },
            SyncEvent::FileContent { path, offset, data } => SyncEvent::FileContent {
                path: path.clone(),
                offset: *offset,
                data: slice_to_vec(data.as_slice()),
            },
            SyncEvent::Heartbeat { timestamp } => SyncEvent::Heartbeat { timestamp: *timestamp },
        }
    }
}

/// An event with the metadata of the shared-memory protocol.
#[derive(Debug, PartialEq)]
pub struct EventEnvelope {
    /// Which instance produced this event.
    pub instance_id: InstanceId,
    /// Monotonic sequence number.
    pub seq: SeqNum,
    /// Wall-clock timestamp in Unix milliseconds.
    pub timestamp: i64,
    /// The event itself.
    pub event: SyncEvent,
}

/// The mathematical value of an [`EventEnvelope`].
#[verifier::ext_equal]
pub struct EnvelopeView {
    pub instance_id: InstanceId,
    pub seq: SeqNum,
    pub timestamp: i64,
    pub event: EventView,
}

impl View for EventEnvelope {
    type V = EnvelopeView;

    open spec fn view(&self) -> EnvelopeView {
        EnvelopeView {
            instance_id: self.instance_id,
            seq: self.seq,
            timestamp: self.timestamp,
            event: self.event@,
        }
    }
}

impl Clone for EventEnvelope {
    fn clone(&self) -> (copy: Self)
        ensures
            copy@ == self@,
    {
        EventEnvelope {
            instance_id: self.instance_id,
            seq: self.seq,
            timestamp: self.timestamp,
            event: self.event.clone(),
        }
    }
}

/// The header at offset 0 of the shared-memory segment.
///
/// Layout (all fields little-endian):
///   0x00  [u8; 4]  magic        "DSYN"
///   0x04  u32      version      protocol version
///   0x08  u64      seq_a        instance A write counter
///   0x10  u64      seq_b        instance B write counter
///   0x18  u32      lock_a       spinlock for A
///   0x1C  u32      lock_b       spinlock for B
///   0x20  u32      rb_write     ring buffer write offset
///   0x24  u32      rb_read_a    ring buffer read cursor for A
///   0x28  u32      rb_read_b    ring buffer read cursor for B
///   0x2C  u32      rb_capacity  ring buffer capacity in bytes
///   0x30  u32      dp_write     data pool write offset
///   0x34  u32      dp_size      data pool total size
///
/// A segment whose data pool is empty has no use for `dp_write` as an offset;
/// there the word holds the bit mask of the active instances, see
/// [`ShmHeader::active_mask`].
#[derive(Clone, Copy, Debug, PartialEq, Eq)]
pub struct ShmHeader {
    pub magic: [u8; 4],
    pub version: u32,
    pub seq_a: u64,
    pub seq_b: u64,
    pub lock_a: u32,
    pub lock_b: u32,
    pub rb_write: u32,
    pub rb_read_a: u32,
    pub rb_read_b: u32,
    pub rb_capacity: u32,
    pub dp_write: u32,
    pub dp_size: u32,
}

pub const SHM_MAGIC: [u8; 4] = [0x44, 0x53, 0x59, 0x4E];

pub const SHM_VERSION: u32 = 1;

pub const SHM_HEADER_SIZE: usize = 0x38;

/// Why a header is not one of this protocol.
#[derive(Clone, Copy, Debug, PartialEq, Eq)]
pub enum HeaderError {
    /// The magic bytes are not "DSYN".
    InvalidMagic,
    /// The protocol version, given here, is not supported.
    UnsupportedVersion(u32),
}

/// The bytes of a header.
pub open spec fn header_bytes(h: ShmHeader) -> Seq<u8> {
    h.magic@ + spec_u32_to_le_bytes(h.version) + spec_u64_to_le_bytes(h.seq_a)
        + spec_u64_to_le_bytes(h.seq_b) + spec_u32_to_le_bytes(h.lock_a) + spec_u32_to_le_bytes(
        h.lock_b,
    ) + spec_u32_to_le_bytes(h.rb_write) + spec_u32_to_le_bytes(h.rb_read_a)
        + spec_u32_to_le_bytes(h.rb_read_b) + spec_u32_to_le_bytes(h.rb_capacity)
        + spec_u32_to_le_bytes(h.dp_write) + spec_u32_to_le_bytes(h.dp_size)
}

/// The little-endian `u32` at an offset.
pub open spec fn word_at(bytes: Seq<u8>, at: int) -> u32 {
    spec_u32_from_le_bytes(bytes.subrange(at, at + 4))
}

/// The little-endian `u64` at an offset.
pub open spec fn counter_at(bytes: Seq<u8>, at: int) -> u64 {
    spec_u64_from_le_bytes(bytes.subrange(at, at + 8))
}

/// `h` is the header that the first bytes hold.
pub open spec fn header_at_start(bytes: Seq<u8>, h: ShmHeader) -> bool {
    &&& h.magic@ == bytes.subrange(0, 4)
    &&& h.version == word_at(bytes, 0x04)
    &&& h.seq_a == counter_at(bytes, 0x08)
    &&& h.seq_b == counter_at(bytes, 0x10)
    &&& h.lock_a == word_at(bytes, 0x18)
    &&& h.lock_b == word_at(bytes, 0x1C)
    &&& h.rb_write == word_at(bytes, 0x20)
    &&& h.rb_read_a == word_at(bytes, 0x24)
    &&& h.rb_read_b == word_at(bytes, 0x28)
    &&& h.rb_capacity == word_at(bytes, 0x2C)
    &&& h.dp_write == word_at(bytes, 0x30)
    &&& h.dp_size == word_at(bytes, 0x34)
}

fn read_word(bytes: &[u8], at: usize) -> (word: u32)
    requires
        at + 4 <= bytes.len(),
    ensures
        word == word_at(bytes@, at as int),
{
    u32_from_le_bytes(slice_subrange(bytes, at, at + 4))
}

fn read_counter(bytes: &[u8], at: usize) -> (counter: u64)
    requires
        at + 8 <= bytes.len(),
    ensures
        counter == counter_at(bytes@, at as int),
{
    u64_from_le_bytes(slice_subrange(bytes, at, at + 8))
}

fn push_word(bytes: &mut Vec<u8>, word: u32)
    ensures
        final(bytes)@ == old(bytes)@ + spec_u32_to_le_bytes(word),
{
    let mut field = u32_to_le_bytes(word);
    bytes.append(&mut field);
}

fn push_counter(bytes: &mut Vec<u8>, counter: u64)
    ensures
        final(bytes)@ == old(bytes)@ + spec_u64_to_le_bytes(counter),
{
    let mut field = u64_to_le_bytes(counter);
    bytes.append(&mut field);
}

impl ShmHeader {
    /// The header of a fresh segment.
    pub fn new(rb_capacity: u32, dp_size: u32) -> (header: ShmHeader)
        ensures
            header == (ShmHeader {
                magic: SHM_MAGIC,
                version: SHM_VERSION,
                seq_a: 0,
                seq_b: 0,
                lock_a: 0,
                lock_b: 0,
                rb_write: 0,
                rb_read_a: 0,
                rb_read_b: 0,
                rb_capacity,
                dp_write: 0,
                dp_size,
            }),
    {
        ShmHeader {
            magic: SHM_MAGIC,
            version: SHM_VERSION,
            seq_a: 0,
            seq_b: 0,
            lock_a: 0,
            lock_b: 0,
            rb_write: 0,
            rb_read_a: 0,
            rb_read_b: 0,
            rb_capacity,
            dp_write: 0,
            dp_size,
        }
    }

    /// Checks magic and version; the magic is looked at first.
    pub fn validate(&self) -> (result: Result<(), HeaderError>)
        ensures
            result == (if self.magic@ != SHM_MAGIC@ {
                Err(HeaderError::InvalidMagic)
            } else if self.version != SHM_VERSION {
                Err(HeaderError::UnsupportedVersion(self.version))
            } else {
                Ok(())
            }),
    {
        if self.magic[0] != SHM_MAGIC[0] || self.magic[1] != SHM_MAGIC[1] || self.magic[2]
            != SHM_MAGIC[2] || self.magic[3] != SHM_MAGIC[3] {
            return Err(HeaderError::InvalidMagic);
        }
        assert(self.magic@ =~= SHM_MAGIC@);
        if self.version != SHM_VERSION {
            return Err(HeaderError::UnsupportedVersion(self.version));
        }
        Ok(())
    }

    /// The mask of the active instances: bit 0 for instance 0, bit 1 for
    /// instance 1.
    #[verifier::allow_in_spec]
    pub fn active_mask(&self) -> (mask: u32)
        returns
            self.dp_write,
    {
        self.dp_write
    }

    /// The bytes of this header as they stand in the segment.
    pub fn to_bytes(&self) -> (bytes: Vec<u8>)
        ensures
            bytes@ == header_bytes(*self),
            bytes@.len() == SHM_HEADER_SIZE,
    {
        proof {
            lemma_auto_spec_u32_to_from_le_bytes();
            lemma_auto_spec_u64_to_from_le_bytes();
        }
        let mut bytes: Vec<u8> = slice_to_vec(self.magic.as_slice());
        push_word(&mut bytes, self.version);
        push_counter(&mut bytes, self.seq_a);
        push_counter(&mut bytes, self.seq_b);
        push_word(&mut bytes, self.lock_a);
        push_word(&mut bytes, self.lock_b);
        push_word(&mut bytes, self.rb_write);
        push_word(&mut bytes, self.rb_read_a);
        push_word(&mut bytes, self.rb_read_b);
        push_word(&mut bytes, self.rb_capacity);
        push_word(&mut bytes, self.dp_write);
        push_word(&mut bytes, self.dp_size);
        bytes
    }

    /// The header at the start of `bytes`, or `None` if they are too few.
    pub fn from_bytes(bytes: &[u8]) -> (header: Option<ShmHeader>)
        ensures
            header is Some <==> bytes@.len() >= SHM_HEADER_SIZE,
            header matches Some(h) ==> header_at_start(bytes@, h),
    {
        if bytes.len() < SHM_HEADER_SIZE {
            return None;
        }
        let magic: [u8; 4] = [bytes[0], bytes[1], bytes[2], bytes[3]];
        assert(magic@ =~= bytes@.subrange(0, 4));
        Some(
            ShmHeader {
                magic,
                version: read_word(bytes, 0x04),
                seq_a: read_counter(bytes, 0x08),
                seq_b: read_counter(bytes, 0x10),
                lock_a: read_word(bytes, 0x18),
                lock_b: read_word(bytes, 0x1C),
                rb_write: read_word(bytes, 0x20),
                rb_read_a: read_word(bytes, 0x24),
                rb_read_b: read_word(bytes, 0x28),
                rb_capacity: read_word(bytes, 0x2C),
                dp_write: read_word(bytes, 0x30),
                dp_size: read_word(bytes, 0x34),
            },
        )
    }
}

/// Every field stands at its documented offset: a header read back from the
/// bytes of another one is that header.
pub proof fn law_header_bytes_read_back(written: ShmHeader, read: ShmHeader)
    requires
        header_at_start(header_bytes(written), read),
    ensures
        read == written,
{
    lemma_auto_spec_u32_to_from_le_bytes();
    lemma_auto_spec_u64_to_from_le_bytes();
    let b = header_bytes(written);
    assert(b.subrange(0, 4) =~= written.magic@);
    assert(b.subrange(0x04, 0x08) =~= spec_u32_to_le_bytes(written.version));
    assert(b.subrange(0x08, 0x10) =~= spec_u64_to_le_bytes(written.seq_a));
    assert(b.subrange(0x10, 0x18) =~= spec_u64_to_le_bytes(written.seq_b));
    assert(b.subrange(0x18, 0x1C) =~= spec_u32_to_le_bytes(written.lock_a));
    assert(b.subrange(0x1C, 0x20) =~= spec_u32_to_le_bytes(written.lock_b));
    assert(b.subrange(0x20, 0x24) =~= spec_u32_to_le_bytes(written.rb_write));
    assert(b.subrange(0x24, 0x28) =~= spec_u32_to_le_bytes(written.rb_read_a));
    assert(b.subrange(0x28, 0x2C) =~= spec_u32_to_le_bytes(written.rb_read_b));
    assert(b.subrange(0x2C, 0x30) =~= spec_u32_to_le_bytes(written.rb_capacity));
    assert(b.subrange(0x30, 0x34) =~= spec_u32_to_le_bytes(written.dp_write));
    assert(b.subrange(0x34, 0x38) =~= spec_u32_to_le_bytes(written.dp_size));
    assert(read.magic =~= written.magic);
}

} // verus!
