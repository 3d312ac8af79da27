//! The shared-memory transport: a ring buffer with one writer side and two
//! read cursors.
//!
//! The functions here work on the header and the ring data of a segment while
//! its lock is held. Mapping the segment and exchanging the lock word is up to
//! the caller; [`LockAttempt`] and [`push_next`] decide how long it tries.

use crate::cli::{normalize_shm_name, NameStyle, Role};
use crate::event::{HeaderError, ShmHeader, SHM_HEADER_SIZE};
use crate::ring::{
    advance, frame_len, frame_offset, holds_queue, law_store_appends, law_walk_collects_queue,
    needs_wrap, required_bytes, run, store_frame, used_between, walk, walk_bound, write_cursor_ok,
    Slot, WRAP_SENTINEL,
};
use vstd::bytes::{u32_from_le_bytes, u32_to_le_bytes};
use vstd::prelude::*;
use vstd::slice::{slice_subrange, slice_to_vec};

verus! {

/// Failed lock exchanges after which a deadlock is declared.
pub const MAX_SPIN: u32 = 2_000_000;

/// How long a producer waits for readers to free ring-buffer space.
pub const PUSH_WAIT_TIMEOUT_MS: u64 = 30_000;

/// Pause between two tries of a producer.
pub const PUSH_RETRY_SLEEP_MS: u64 = 10;

/// The bit of an instance in the active mask.
pub open spec fn instance_bit(instance_id: u64) -> u32 {
    if instance_id == 0 {
        1
    } else {
        2
    }
}

/// Whether the read cursor of an instance holds up the writer: it does if the
/// instance is active, or if no instance is.
pub open spec fn counted(h: ShmHeader, instance_id: u64) -> bool {
    h.dp_write & 3 == 0 || h.dp_write & instance_bit(instance_id) != 0
}

/// The read cursor of an instance.
pub open spec fn read_cursor(h: ShmHeader, instance_id: u64) -> u32 {
    if instance_id == 0 {
        h.rb_read_a
    } else {
        h.rb_read_b
    }
}

/// The cursors that matter lie inside the ring.
pub open spec fn cursors_ok(h: ShmHeader) -> bool {
    &&& h.rb_write <= h.rb_capacity
    &&& counted(h, 0) ==> h.rb_read_a <= h.rb_capacity
    &&& counted(h, 1) ==> h.rb_read_b <= h.rb_capacity
}

/// Bytes that the slowest counted reader has not read yet.
pub open spec fn used_bytes(h: ShmHeader) -> int {
    let a = if counted(h, 0) {
        used_between(h.rb_read_a as int, h.rb_write as int, h.rb_capacity as int)
    } else {
        0
    };
    let b = if counted(h, 1) {
        used_between(h.rb_read_b as int, h.rb_write as int, h.rb_capacity as int)
    } else {
        0
    };
    if a < b {
        b
    } else {
        a
    }
}

/// Bytes that a writer may still use. One byte always stays empty, so that
/// equal cursors mean an empty ring.
pub open spec fn free_bytes(h: ShmHeader) -> int {
    if used_bytes(h) + 1 <= h.rb_capacity {
        h.rb_capacity - used_bytes(h) - 1
    } else {
        0
    }
}

/// Why an event was not pushed.
#[derive(Clone, Copy, Debug, PartialEq, Eq)]
pub enum PushError {
    /// The frame can never fit.
    TooLarge { payload_len: usize, capacity: u32 },
    /// The readers have not freed enough space yet.
    Full { required: u64, free: u32 },
    /// The tail has no room for the wrap sentinel.
    TailTooSmall { write: u32, capacity: u32 },
}

/// The error with which a payload of `len` bytes is refused, if it is.
pub open spec fn push_refusal(h: ShmHeader, len: usize) -> Option<PushError> {
    let cap = h.rb_capacity as int;
    let write = h.rb_write as int;
    if 4 + len > (if cap < 4 {
        0
    } else {
        cap - 4
    }) {
        Some(PushError::TooLarge { payload_len: len, capacity: h.rb_capacity })
    } else if required_bytes(cap, write, 4 + len) > free_bytes(h) {
        Some(
            PushError::Full {
                required: required_bytes(cap, write, 4 + len) as u64,
                free: free_bytes(h) as u32,
            },
        )
    } else if needs_wrap(cap, write, 4 + len) && write != 0 && cap - write < 4 {
        Some(PushError::TailTooSmall { write: h.rb_write, capacity: h.rb_capacity })
    } else {
        None
    }
}

/// The header after an instance pushed a payload of `len` bytes.
pub open spec fn pushed_header(h: ShmHeader, instance_id: u64, len: int) -> ShmHeader {
    let rb_write = advance(h.rb_capacity as int, h.rb_write as int, 4 + len) as u32;
    if instance_id == 0 {
        ShmHeader { rb_write, seq_a: (h.seq_a + 1) as u64, ..h }
    } else {
        ShmHeader { rb_write, seq_b: (h.seq_b + 1) as u64, ..h }
    }
}

/// The header after the read cursor of an instance moved.
pub open spec fn with_read_cursor(h: ShmHeader, instance_id: u64, cursor: u32) -> ShmHeader {
    if instance_id == 0 {
        ShmHeader { rb_read_a: cursor, ..h }
    } else {
        ShmHeader { rb_read_b: cursor, ..h }
    }
}

/// The header after an instance was registered: its bit is set and its read
/// cursor starts at the write cursor.
pub open spec fn registered_header(h: ShmHeader, instance_id: u64) -> ShmHeader {
    with_read_cursor(
        ShmHeader { dp_write: h.dp_write | instance_bit(instance_id), ..h },
        instance_id,
        h.rb_write,
    )
}

/// The header after an instance was unregistered.
pub open spec fn unregistered_header(h: ShmHeader, instance_id: u64) -> ShmHeader {
    ShmHeader { dp_write: h.dp_write & !instance_bit(instance_id), ..h }
}

/// Capacity of the ring in a segment of `total_size` bytes.
pub open spec fn ring_capacity(total_size: int) -> int {
    (total_size - SHM_HEADER_SIZE) % 0x1_0000_0000
}

/// Why no events were popped.
#[derive(Clone, Copy, Debug, PartialEq, Eq)]
pub enum PopError {
    /// The frames lead the reader back to an earlier offset, for ever.
    Corrupt,
}

/// Why an instance was not registered.
#[derive(Clone, Copy, Debug, PartialEq, Eq)]
pub enum RegisterError {
    /// Instance ids are 0 and 1.
    InvalidInstance(u64),
}

/// One side of a shared-memory segment.
#[derive(Debug)]
pub struct ShmTransport {
    /// The name that the two sides agreed on.
    pub shm_name: String,
    /// The name under which the system knows the segment.
    pub os_name: String,
    pub registered_instance: Option<u64>,
    pub total_size: usize,
}

/// What a reader finds at an offset.
enum FoundSlot {
    Frame(Vec<u8>),
    Wrap,
    Broken,
}

impl View for FoundSlot {
    type V = Slot;

    closed spec fn view(&self) -> Slot {
        match self {
            FoundSlot::Frame(payload) => Slot::Frame(payload@),
            FoundSlot::Wrap => Slot::Wrap,
            FoundSlot::Broken => Slot::Broken,
        }
    }
}

fn read_slot(ring: &[u8], at: u32) -> (slot: FoundSlot)
    requires
        ring@.len() <= u32::MAX,
    ensures
        slot@ == crate::ring::slot_at(ring@, at as int),
{
    let cap: u64 = ring.len() as u64;
    if at as u64 + 4 > cap {
        return FoundSlot::Broken;
    }
    let start: usize = at as usize;
    let len: u32 = u32_from_le_bytes(slice_subrange(ring, start, start + 4));
    if len == WRAP_SENTINEL {
        return FoundSlot::Wrap;
    }
    if at as u64 + 4 + len as u64 > cap {
        return FoundSlot::Broken;
    }
    FoundSlot::Frame(
        slice_to_vec(slice_subrange(ring, start + 4, start + 4 + len as usize)),
    )
}

/// What became of an attempt to attach to a segment.
#[derive(Debug)]
pub enum Attach {
    /// The segment that was there is used.
    Opened(ShmTransport),
    /// A new segment is used; its header is to be stored.
    Created(ShmTransport, ShmHeader),
    /// There is no segment yet.
    Retry,
}

/// There is a segment, and it is one of this protocol.
pub open spec fn is_segment(existing: Option<(usize, ShmHeader)>) -> bool {
    existing matches Some((_, h)) && h.magic@ == crate::event::SHM_MAGIC@ && h.version
        == crate::event::SHM_VERSION
}

/// The size of the segment that is there.
pub open spec fn segment_size(existing: Option<(usize, ShmHeader)>) -> Option<usize> {
    match existing {
        Some((size, _)) => Some(size),
        None => None,
    }
}

/// The header of an empty segment without active instances.
pub open spec fn fresh_header(h: ShmHeader) -> bool {
    h == (ShmHeader {
        magic: crate::event::SHM_MAGIC,
        version: crate::event::SHM_VERSION,
        seq_a: 0,
        seq_b: 0,
        lock_a: 0,
        lock_b: 0,
        rb_write: 0,
        rb_read_a: 0,
        rb_read_b: 0,
        rb_capacity: h.rb_capacity,
        dp_write: 0,
        dp_size: 0,
    })
}

fn used_by(read: u32, write: u32, cap: u32) -> (used: u32)
    requires
        read <= cap,
        write <= cap,
    ensures
        used == used_between(read as int, write as int, cap as int),
{
    if write >= read {
        write - read
    } else {
        cap - read + write
    }
}

/// Stores `bytes` from `at` on.
fn put_bytes(ring: &mut [u8], at: usize, bytes: &[u8])
    requires
        at + bytes@.len() <= old(ring)@.len(),
    ensures
        final(ring)@ == crate::ring::put(old(ring)@, at as int, bytes@),
{
    let ghost start = ring@;
    let mut i: usize = 0;
    assert(ring@ =~= crate::ring::put(start, at as int, bytes@.take(0)));
    while i < bytes.len()
        invariant
            i <= bytes@.len(),
            at + bytes@.len() <= start.len(),
            start.len() == ring.len(),
            ring@ == crate::ring::put(start, at as int, bytes@.take(i as int)),
        decreases bytes.len() - i,
    {
        let k: usize = at + i;
        ring[k] = bytes[i];
        i += 1;
        assert(ring@ =~= crate::ring::put(start, at as int, bytes@.take(i as int)));
    }
    assert(bytes@.take(i as int) =~= bytes@);
}

/// The values of a list of payloads.
pub open spec fn payload_views(payloads: Seq<Vec<u8>>) -> Seq<Seq<u8>> {
    payloads.map_values(|p: Vec<u8>| p@)
}

impl ShmHeader {
    /// Whether the cursors that matter lie inside the ring.
    pub fn has_cursors_in_ring(&self) -> (ok: bool)
        ensures
            ok == cursors_ok(*self),
    {
        let active: u32 = self.active_mask() & 3;
        proof {
            lemma_mask_bits(self.dp_write);
        }
        self.rb_write <= self.rb_capacity && (!(active == 0 || active & 1 != 0) || self.rb_read_a
            <= self.rb_capacity) && (!(active == 0 || active & 2 != 0) || self.rb_read_b
            <= self.rb_capacity)
    }
}

proof fn lemma_mask_bits(mask: u32)
    ensures
        (mask & 3) & 1 == mask & 1,
        (mask & 3) & 2 == mask & 2,
{
    assert((mask & 3) & 1 == mask & 1) by (bit_vector);
    assert((mask & 3) & 2 == mask & 2) by (bit_vector);
}

impl ShmTransport {
    /// The transport is that of a segment with the given name, which the system
    /// knows under the name in its own style.
    pub open spec fn is_named(&self, style: NameStyle, name: Seq<char>) -> bool {
        self.shm_name@ == name && self.os_name@ == crate::cli::system_name(style, name)
    }

    /// A new segment of `total_size` bytes: the transport, and the header to
    /// store at its start.
    pub fn create(style: NameStyle, name: &str, total_size: usize) -> (created: (
        ShmTransport,
        ShmHeader,
    ))
        requires
            total_size >= SHM_HEADER_SIZE,
        ensures
            created.0.is_named(style, name@),
            created.0.registered_instance is None,
            created.0.total_size == total_size,
            created.1.rb_capacity == ring_capacity(total_size as int),
            fresh_header(created.1),
    {
        let data_size: usize = total_size - SHM_HEADER_SIZE;
        let rb_capacity: u32 = (data_size as u64 % 0x1_0000_0000) as u32;
        let header = ShmHeader::new(rb_capacity, 0);
        let shm = ShmTransport {
            shm_name: name.to_owned(),
            os_name: normalize_shm_name(style, name),
            registered_instance: None,
            total_size,
        };
        (shm, header)
    }

    /// An existing segment of `total_size` bytes that starts with `header`.
    pub fn open(
        style: NameStyle,
        name: &str,
        total_size: usize,
        header: &ShmHeader,
    ) -> (opened: Result<ShmTransport, HeaderError>)
        ensures
            opened matches Ok(shm) ==> shm.is_named(style, name@) && shm.registered_instance
                is None && shm.total_size == total_size,
            opened is Ok <==> header.magic@ == crate::event::SHM_MAGIC@ && header.version
                == crate::event::SHM_VERSION,
            opened matches Err(e) ==> e == (if header.magic@ != crate::event::SHM_MAGIC@ {
                HeaderError::InvalidMagic
            } else {
                HeaderError::UnsupportedVersion(header.version)
            }),
    {
        match header.validate() {
            Ok(()) => Ok(
                ShmTransport {
                    shm_name: name.to_owned(),
                    os_name: normalize_shm_name(style, name),
                    registered_instance: None,
                    total_size,
                },
            ),
            Err(e) => Err(e),
        }
    }

    /// Opens the segment that is there, if it is one of this protocol, and
    /// else creates a new one, whose header is then to be stored.
    ///
    /// `existing` gives the size and the header of the segment with that name.
    pub fn create_or_open(
        style: NameStyle,
        name: &str,
        total_size: usize,
        existing: Option<(usize, ShmHeader)>,
    ) -> (ready: (ShmTransport, Option<ShmHeader>))
        requires
            !is_segment(existing) ==> total_size >= SHM_HEADER_SIZE,
        ensures
            ready.0.is_named(style, name@),
            ready.0.registered_instance is None,
            ready.1 is None <==> is_segment(existing),
            ready.1 is None ==> Some(ready.0.total_size) == segment_size(existing),
            ready.1 matches Some(h) ==> ready.0.total_size == total_size && fresh_header(h)
                && h.rb_capacity == ring_capacity(total_size as int),
    {
        if let Some((size, header)) = existing {
            if let Ok(shm) = ShmTransport::open(style, name, size, &header) {
                return (shm, None);
            }
        }
        let (shm, header) = ShmTransport::create(style, name, total_size);
        (shm, Some(header))
    }

    /// What a process does about the segment: the host opens or creates it,
    /// the other side only ever opens it and tries again while it is missing.
    pub fn attach(
        role: Role,
        style: NameStyle,
        name: &str,
        total_size: usize,
        existing: Option<(usize, ShmHeader)>,
    ) -> (attached: Attach)
        requires
            role == Role::Host && !is_segment(existing) ==> total_size >= SHM_HEADER_SIZE,
        ensures
            attached is Opened <==> is_segment(existing),
            attached is Created <==> !is_segment(existing) && role == Role::Host,
            attached is Retry <==> !is_segment(existing) && role == Role::Join,
            attached matches Attach::Opened(shm) ==> shm.is_named(style, name@)
                && shm.registered_instance is None && Some(shm.total_size) == segment_size(
                existing,
            ),
            attached matches Attach::Created(shm, h) ==> shm.is_named(style, name@)
                && shm.registered_instance is None && shm.total_size == total_size
                && fresh_header(h) && h.rb_capacity == ring_capacity(total_size as int),
    {
        match role {
            Role::Host => match ShmTransport::create_or_open(style, name, total_size, existing) {
                (shm, None) => Attach::Opened(shm),
                (shm, Some(header)) => Attach::Created(shm, header),
            },
            Role::Join => {
                if let Some((size, header)) = existing {
                    if let Ok(shm) = ShmTransport::open(style, name, size, &header) {
                        return Attach::Opened(shm);
                    }
                }
                Attach::Retry
            },
        }
    }

    /// Capacity of the ring buffer in bytes.
    pub fn capacity(&self, header: &ShmHeader) -> (capacity: u32)
        ensures
            capacity == header.rb_capacity,
    {
        header.rb_capacity
    }

    /// The mask of the active instances.
    pub fn active_mask(&self, header: &ShmHeader) -> (mask: u32)
        ensures
            mask == header.dp_write,
    {
        header.active_mask()
    }

    /// Marks an instance as active.
    ///
    /// Its read cursor starts at the write cursor, so that a restarted process
    /// does not consume frames from before it joined.
    pub fn register_instance(&mut self, header: &mut ShmHeader, instance_id: u64) -> (result:
        Result<(), RegisterError>)
        ensures
            instance_id > 1 ==> result == Err::<(), RegisterError>(
                RegisterError::InvalidInstance(instance_id),
            ) && *final(self) == *old(self) && *final(header) == *old(header),
            instance_id <= 1 ==> result is Ok && *final(self) == (ShmTransport {
                registered_instance: Some(instance_id),
                ..*old(self)
            }) && *final(header) == registered_header(*old(header), instance_id),
    {
        if instance_id > 1 {
            return Err(RegisterError::InvalidInstance(instance_id));
        }
        if instance_id == 0 {
            header.dp_write = header.dp_write | 1;
            header.rb_read_a = header.rb_write;
        } else {
            header.dp_write = header.dp_write | 2;
            header.rb_read_b = header.rb_write;
        }
        self.registered_instance = Some(instance_id);
        Ok(())
    }

    /// Takes the mark of the registered instance back, if there is one.
    pub fn unregister_instance(&mut self, header: &mut ShmHeader)
        ensures
            *final(self) == (ShmTransport { registered_instance: None, ..*old(self) }),
            *final(header) == (match old(self).registered_instance {
                Some(id) => unregistered_header(*old(header), id),
                None => *old(header),
            }),
    {
        match self.registered_instance {
            Some(instance_id) => {
                self.registered_instance = None;
                if instance_id == 0 {
                    header.dp_write = header.dp_write & !1u32;
                } else {
                    header.dp_write = header.dp_write & !2u32;
                }
            },
            None => {},
        }
    }

    /// Bytes that a writer may still use.
    pub fn free_bytes_locked(&self, header: &ShmHeader) -> (free: u32)
        requires
            cursors_ok(*header),
        ensures
            free == free_bytes(*header),
    {
        let cap: u32 = header.rb_capacity;
        let active: u32 = header.active_mask() & 3;
        proof {
            lemma_mask_bits(header.dp_write);
        }
        let mut used: u32 = 0;
        if active == 0 || active & 1 != 0 {
            used = used_by(header.rb_read_a, header.rb_write, cap);
        }
        if active == 0 || active & 2 != 0 {
            let other: u32 = used_by(header.rb_read_b, header.rb_write, cap);
            if other > used {
                used = other;
            }
        }
        cap.saturating_sub(used).saturating_sub(1)
    }

    /// Pushes an encoded event.
    ///
    /// A refused event leaves header and ring as they are. An accepted one is
    /// stored as a frame, behind a sentinel where it has to wrap; the write
    /// cursor and the counter of the instance advance.
    pub fn push_event(
        &self,
        header: &mut ShmHeader,
        ring: &mut [u8],
        instance_id: u64,
        payload: &[u8],
    ) -> (result: Result<(), PushError>)
        requires
            cursors_ok(*old(header)),
            old(ring)@.len() == old(header).rb_capacity,
            instance_id == 0 ==> old(header).seq_a < u64::MAX,
            instance_id != 0 ==> old(header).seq_b < u64::MAX,
        ensures
            result == (match push_refusal(*old(header), payload.len()) {
                Some(e) => Err(e),
                None => Ok(()),
            }),
            result is Err ==> *final(header) == *old(header) && final(ring)@ == old(ring)@,
            result is Ok ==> *final(header) == pushed_header(
                *old(header),
                instance_id,
                payload@.len() as int,
            ) && final(ring)@ == store_frame(old(ring)@, old(header).rb_write as int, payload@),
    {
        let cap: u32 = header.rb_capacity;
        let write: u32 = header.rb_write;
        let room: u32 = cap.saturating_sub(4);
        if payload.len() as u64 > cap as u64 || payload.len() as u64 + 4 > room as u64 {
            return Err(PushError::TooLarge { payload_len: payload.len(), capacity: cap });
        }
        let data_len: u32 = payload.len() as u32;
        let len: u64 = data_len as u64 + 4;
        let end: u64 = write as u64 + len;
        let wrap: bool = end > cap as u64 || (end < cap as u64 && cap as u64 - end < 4);
        let tail: u32 = cap - write;
        let required: u64 = if wrap {
            tail as u64 + len
        } else {
            len
        };
        let free: u32 = self.free_bytes_locked(header);
        if required > free as u64 {
            return Err(PushError::Full { required, free });
        }
        let mut at: u32 = write;
        if wrap {
            if write != 0 {
                if tail < 4 {
                    return Err(PushError::TailTooSmall { write, capacity: cap });
                }
                let mark = u32_to_le_bytes(WRAP_SENTINEL);
                put_bytes(ring, write as usize, mark.as_slice());
            }
            at = 0;
        }
        let prefix = u32_to_le_bytes(data_len);
        put_bytes(ring, at as usize, prefix.as_slice());
        put_bytes(ring, at as usize + 4, payload);
        header.rb_write = ((at as u64 + len) % cap as u64) as u32;
        if instance_id == 0 {
            header.seq_a = header.seq_a + 1;
        } else {
            header.seq_b = header.seq_b + 1;
        }
        Ok(())
    }

    /// Pops all pending events of an instance, still encoded.
    ///
    /// The read cursor ends up where the reader came to rest: at the write
    /// cursor, or before a frame that does not lie inside the ring. Frames
    /// that lead back to an earlier offset are reported as corrupt, and the
    /// cursor then stays where it was.
    pub fn pop_events(
        &self,
        header: &mut ShmHeader,
        ring: &[u8],
        instance_id: u64,
    ) -> (result: Result<Vec<Vec<u8>>, PopError>)
        requires
            ring@.len() == old(header).rb_capacity,
        ensures
            ({
                let read = read_cursor(*old(header), instance_id);
                match walk(ring@, old(header).rb_write as int, read as int, walk_bound(ring@)) {
                    Some((queue, end)) => {
                        &&& result matches Ok(payloads) && payload_views(payloads@) == queue
                        &&& *final(header) == with_read_cursor(
                            *old(header),
                            instance_id,
                            end as u32,
                        )
                        &&& end == end as u32
                    },
                    None => {
                        &&& result == Err::<Vec<Vec<u8>>, PopError>(PopError::Corrupt)
                        &&& *final(header) == *old(header)
                    },
                }
            }),
    {
        let cap: u32 = header.rb_capacity;
        let write: u32 = header.rb_write;
        let read: u32 = if instance_id == 0 {
            header.rb_read_a
        } else {
            header.rb_read_b
        };
        let mut payloads: Vec<Vec<u8>> = Vec::new();
        let mut cursor: u32 = read;
        let mut fuel: u64 = cap as u64 + 1;
        let mut resting = false;
        let ghost whole = walk(ring@, write as int, read as int, walk_bound(ring@));
        assert(payload_views(payloads@) =~= Seq::empty());
        proof {
            if let Some((rest, end)) = whole {
                assert(payload_views(payloads@) + rest =~= rest);
            }
        }
        while cursor != write && !resting
            invariant
                ring@.len() == cap,
                whole == prepend(
                    payload_views(payloads@),
                    if resting {
                        Some((Seq::empty(), cursor as int))
                    } else {
                        walk(ring@, write as int, cursor as int, fuel as nat)
                    },
                ),
                whole == walk(ring@, write as int, read as int, walk_bound(ring@)),
                *header == *old(header),
                write == header.rb_write,
                read == read_cursor(*header, instance_id),
            decreases fuel,
        {
            if fuel == 0 {
                return Err(PopError::Corrupt);
            }
            let ghost before = payloads@;
            let ghost at = cursor;
            let mut found = read_slot(ring, cursor);
            if let FoundSlot::Wrap = found {
                cursor = 0;
                if write == 0 {
                    found = FoundSlot::Broken;
                } else {
                    found = read_slot(ring, 0);
                }
            }
            if let FoundSlot::Frame(payload) = found {
                let next: u32 = ((cursor as u64 + 4 + payload.len() as u64) % cap as u64) as u32;
                assert(crate::ring::next_move(ring@, write as int, at as int)
                    == crate::ring::Move::Take(payload@, next as int));
                proof {
                    lemma_prepend_push(
                        before,
                        payload,
                        walk(ring@, write as int, next as int, (fuel - 1) as nat),
                    );
                }
                payloads.push(payload);
                cursor = next;
            } else {
                assert(crate::ring::next_move(ring@, write as int, at as int)
                    == crate::ring::Move::Rest(cursor as int));
                resting = true;
            }
            fuel = fuel - 1;
        }
        assert(payload_views(payloads@) + Seq::<Seq<u8>>::empty() =~= payload_views(payloads@));
        if instance_id == 0 {
            header.rb_read_a = cursor;
        } else {
            header.rb_read_b = cursor;
        }
        Ok(payloads)
    }
}

/// A walk that was preceded by `before`.
spec fn prepend(before: Seq<Seq<u8>>, rest: Option<(Seq<Seq<u8>>, int)>) -> Option<
    (Seq<Seq<u8>>, int),
> {
    match rest {
        Some((queue, end)) => Some((before + queue, end)),
        None => None,
    }
}

proof fn lemma_prepend_push(
    before: Seq<Vec<u8>>,
    payload: Vec<u8>,
    rest: Option<(Seq<Seq<u8>>, int)>,
)
    ensures
        prepend(payload_views(before.push(payload)), rest) == prepend(
            payload_views(before),
            prepend(seq![payload@], rest),
        ),
{
    assert(payload_views(before.push(payload)) =~= payload_views(before).push(payload@));
    if let Some((queue, end)) = rest {
        assert(payload_views(before).push(payload@) + queue =~= payload_views(before) + (
        seq![payload@] + queue));
    }
}

/// A segment as pushes and pops leave it behind: every counted reader has a
/// proper queue of frames before it.
pub open spec fn segment_ok(h: ShmHeader, ring: Seq<u8>) -> bool {
    &&& ring.len() == h.rb_capacity
    &&& write_cursor_ok(h.rb_capacity as int, h.rb_write as int)
    &&& forall|id: u64|
        id <= 1 && #[trigger] counted(h, id) ==> exists|queue: Seq<Seq<u8>>|
            reader_queue(h, ring, id, queue)
}

/// The cursors of a segment lie where pushes and pops leave them.
pub open spec fn cursors_inside(h: ShmHeader, ring: Seq<u8>) -> bool {
    &&& ring.len() == h.rb_capacity
    &&& write_cursor_ok(h.rb_capacity as int, h.rb_write as int)
    &&& h.rb_read_a <= h.rb_capacity
    &&& h.rb_read_b <= h.rb_capacity
}

/// `queue` is what waits for an instance.
pub open spec fn reader_queue(
    h: ShmHeader,
    ring: Seq<u8>,
    instance_id: u64,
    queue: Seq<Seq<u8>>,
) -> bool {
    holds_queue(ring, read_cursor(h, instance_id) as int, h.rb_write as int, queue)
}

/// In a new segment nothing waits for anybody.
pub proof fn law_new_segment_is_empty(h: ShmHeader, ring: Seq<u8>, instance_id: u64)
    requires
        fresh_header(h),
        ring.len() == h.rb_capacity,
    ensures
        segment_ok(h, ring),
        reader_queue(h, ring, instance_id, Seq::empty()),
{
    assert(run(ring, 0, 0) == Some(Seq::<Seq<u8>>::empty()));
    assert forall|id: u64| id <= 1 && #[trigger] counted(h, id) implies exists|
        queue: Seq<Seq<u8>>,
    |
        reader_queue(h, ring, id, queue) by {
        assert(reader_queue(h, ring, id, Seq::empty()));
    }
}

/// The cursors of a proper segment lie inside its ring, so a push may be tried.
pub proof fn law_segment_cursors(h: ShmHeader, ring: Seq<u8>)
    requires
        segment_ok(h, ring),
    ensures
        cursors_ok(h),
{
    if counted(h, 0) {
        let queue = choose|queue: Seq<Seq<u8>>| reader_queue(h, ring, 0, queue);
        assert(reader_queue(h, ring, 0, queue));
    }
    if counted(h, 1) {
        let queue = choose|queue: Seq<Seq<u8>>| reader_queue(h, ring, 1, queue);
        assert(reader_queue(h, ring, 1, queue));
    }
}

/// In a proper segment there is always room for the wrap sentinel.
pub proof fn law_tail_never_too_small(h: ShmHeader, ring: Seq<u8>, len: usize)
    requires
        segment_ok(h, ring),
    ensures
        !(push_refusal(h, len) matches Some(PushError::TailTooSmall { .. })),
{
}

/// An accepted push appends its payload to what waits for each counted reader,
/// and overwrites nothing of it.
pub proof fn law_push_appends(
    h: ShmHeader,
    ring: Seq<u8>,
    writer: u64,
    payload: Seq<u8>,
    reader: u64,
    queue: Seq<Seq<u8>>,
)
    requires
        ring.len() == h.rb_capacity,
        write_cursor_ok(h.rb_capacity as int, h.rb_write as int),
        payload.len() <= usize::MAX,
        push_refusal(h, payload.len() as usize) is None,
        reader <= 1,
        counted(h, reader),
        reader_queue(h, ring, reader, queue),
    ensures
        reader_queue(
            pushed_header(h, writer, payload.len() as int),
            store_frame(ring, h.rb_write as int, payload),
            reader,
            queue.push(payload),
        ),
{
    law_store_appends(
        ring,
        read_cursor(h, reader) as int,
        h.rb_write as int,
        queue,
        payload,
    );
    lemma_advance_bounds(h.rb_capacity as int, h.rb_write as int, frame_len(payload));
}

proof fn lemma_advance_bounds(cap: int, write: int, len: int)
    requires
        0 < cap,
        0 <= write,
        0 <= len,
    ensures
        0 <= advance(cap, write, len) < cap,
{
    vstd::arithmetic::div_mod::lemma_mod_bound(frame_offset(cap, write, len) + len, cap);
}

/// An accepted push keeps the segment proper.
pub proof fn law_push_keeps_segment(h: ShmHeader, ring: Seq<u8>, writer: u64, payload: Seq<u8>)
    requires
        segment_ok(h, ring),
        payload.len() <= usize::MAX,
        push_refusal(h, payload.len() as usize) is None,
    ensures
        segment_ok(
            pushed_header(h, writer, payload.len() as int),
            store_frame(ring, h.rb_write as int, payload),
        ),
{
    let next = pushed_header(h, writer, payload.len() as int);
    let stored = store_frame(ring, h.rb_write as int, payload);
    assert forall|id: u64| id <= 1 && #[trigger] counted(next, id) implies exists|
        queue: Seq<Seq<u8>>,
    |
        reader_queue(next, stored, id, queue) by {
        assert(counted(h, id));
        let queue = choose|queue: Seq<Seq<u8>>| reader_queue(h, ring, id, queue);
        law_push_appends(h, ring, writer, payload, id, queue);
    }
    lemma_some_reader_counted(h);
    let id: u64 = if counted(h, 0) {
        0
    } else {
        1
    };
    let queue = choose|queue: Seq<Seq<u8>>| reader_queue(h, ring, id, queue);
    law_segment_cursors(h, ring);
    law_store_appends(ring, read_cursor(h, id) as int, h.rb_write as int, queue, payload);
    lemma_advance_bounds(h.rb_capacity as int, h.rb_write as int, frame_len(payload));
}

proof fn lemma_some_reader_counted(h: ShmHeader)
    ensures
        counted(h, 0) || counted(h, 1),
{
    let mask = h.dp_write;
    assert(mask & 3 == 0 || mask & 1 != 0 || mask & 2 != 0) by (bit_vector);
}

/// A pop hands out exactly what waited, in the order in which it was pushed,
/// and leaves the reader at the write cursor.
pub proof fn law_pop_delivers(
    h: ShmHeader,
    ring: Seq<u8>,
    instance_id: u64,
    queue: Seq<Seq<u8>>,
)
    requires
        reader_queue(h, ring, instance_id, queue),
    ensures
        walk(
            ring,
            h.rb_write as int,
            read_cursor(h, instance_id) as int,
            walk_bound(ring),
        ) == Some((queue, h.rb_write as int)),
{
    law_walk_collects_queue(
        ring,
        read_cursor(h, instance_id) as int,
        h.rb_write as int,
        queue,
    );
}

/// After a pop nothing waits for the reader any more, and the segment stays
/// proper.
pub proof fn law_pop_drains(h: ShmHeader, ring: Seq<u8>, instance_id: u64)
    requires
        segment_ok(h, ring),
        instance_id <= 1,
    ensures
        reader_queue(
            with_read_cursor(h, instance_id, h.rb_write),
            ring,
            instance_id,
            Seq::empty(),
        ),
        segment_ok(with_read_cursor(h, instance_id, h.rb_write), ring),
{
    let next = with_read_cursor(h, instance_id, h.rb_write);
    lemma_caught_up(next, ring, instance_id);
    assert forall|id: u64| id <= 1 && #[trigger] counted(next, id) implies exists|
        left: Seq<Seq<u8>>,
    |
        reader_queue(next, ring, id, left) by {
        if id == instance_id {
            assert(reader_queue(next, ring, id, Seq::empty()));
        } else {
            assert(counted(h, id));
            let left = choose|left: Seq<Seq<u8>>| reader_queue(h, ring, id, left);
            assert(reader_queue(next, ring, id, left));
        }
    }
}

/// The read cursors are independent: wherever a pop leaves one of them, the
/// other instance still has before it what waited for it.
pub proof fn law_pop_leaves_other_reader(
    h: ShmHeader,
    ring: Seq<u8>,
    instance_id: u64,
    cursor: u32,
    other: u64,
    queue: Seq<Seq<u8>>,
)
    requires
        (instance_id == 0) != (other == 0),
        reader_queue(h, ring, other, queue),
    ensures
        reader_queue(with_read_cursor(h, instance_id, cursor), ring, other, queue),
{
}

proof fn lemma_caught_up(h: ShmHeader, ring: Seq<u8>, instance_id: u64)
    requires
        read_cursor(h, instance_id) == h.rb_write,
    ensures
        reader_queue(h, ring, instance_id, Seq::empty()),
{
    assert(run(ring, h.rb_write as int, h.rb_write as int) == Some(Seq::<Seq<u8>>::empty()));
}

/// An instance that registers starts with nothing waiting for it, and the
/// segment stays proper.
pub proof fn law_register_starts_empty(h: ShmHeader, ring: Seq<u8>, instance_id: u64)
    requires
        segment_ok(h, ring),
        instance_id <= 1,
    ensures
        counted(registered_header(h, instance_id), instance_id),
        reader_queue(registered_header(h, instance_id), ring, instance_id, Seq::empty()),
        segment_ok(registered_header(h, instance_id), ring),
{
    let next = registered_header(h, instance_id);
    let mask = h.dp_write;
    assert((mask | 1) & 3 != 0 && (mask | 2) & 3 != 0) by (bit_vector);
    assert((mask | 1) & 1 != 0 && (mask | 2) & 2 != 0) by (bit_vector);
    assert((mask | 1) & 2 == mask & 2 && (mask | 2) & 1 == mask & 1) by (bit_vector);
    lemma_caught_up(next, ring, instance_id);
    assert forall|id: u64| id <= 1 && #[trigger] counted(next, id) implies exists|
        queue: Seq<Seq<u8>>,
    |
        reader_queue(next, ring, id, queue) by {
        if id == instance_id {
            assert(reader_queue(next, ring, id, Seq::empty()));
        } else {
            assert(counted(h, id));
            let queue = choose|queue: Seq<Seq<u8>>| reader_queue(h, ring, id, queue);
            assert(reader_queue(next, ring, id, queue));
        }
    }
}

/// What a pop of an instance would hand out.
pub open spec fn waiting(h: ShmHeader, ring: Seq<u8>, instance_id: u64) -> Option<Seq<Seq<u8>>> {
    match walk(
        ring,
        h.rb_write as int,
        read_cursor(h, instance_id) as int,
        walk_bound(ring),
    ) {
        Some((queue, _)) => Some(queue),
        None => None,
    }
}

/// Header and ring after a push was tried: unchanged if it is refused.
pub open spec fn after_push(
    h: ShmHeader,
    ring: Seq<u8>,
    writer: u64,
    payload: Seq<u8>,
) -> (ShmHeader, Seq<u8>) {
    if push_refusal(h, payload.len() as usize) is None {
        (
            pushed_header(h, writer, payload.len() as int),
            store_frame(ring, h.rb_write as int, payload),
        )
    } else {
        (h, ring)
    }
}

/// A push adds its payload behind what a pop would have handed out, to every
/// counted reader, and counts up the counter of its writer alone. A push that is
/// refused changes neither.
pub proof fn law_push_adds_to_what_is_popped(
    h: ShmHeader,
    ring: Seq<u8>,
    writer: u64,
    payload: Seq<u8>,
    reader: u64,
)
    requires
        segment_ok(h, ring),
        payload.len() <= usize::MAX,
        reader <= 1,
        counted(h, reader),
        writer == 0 ==> h.seq_a < u64::MAX,
        writer != 0 ==> h.seq_b < u64::MAX,
    ensures
        ({
            let after = after_push(h, ring, writer, payload);
            let accepted = push_refusal(h, payload.len() as usize) is None;
            &&& waiting(h, ring, reader) is Some
            &&& accepted ==> waiting(after.0, after.1, reader) == Some(
                waiting(h, ring, reader)->0.push(payload),
            )
            &&& !accepted ==> waiting(after.0, after.1, reader) == waiting(h, ring, reader)
            &&& after.0.seq_a == h.seq_a + (if accepted && writer == 0 {
                1int
            } else {
                0
            })
            &&& after.0.seq_b == h.seq_b + (if accepted && writer != 0 {
                1int
            } else {
                0
            })
        }),
{
    let queue = choose|queue: Seq<Seq<u8>>| reader_queue(h, ring, reader, queue);
    assert(reader_queue(h, ring, reader, queue));
    law_pop_delivers(h, ring, reader, queue);
    if push_refusal(h, payload.len() as usize) is None {
        law_push_appends(h, ring, writer, payload, reader, queue);
        let after = after_push(h, ring, writer, payload);
        law_pop_delivers(after.0, after.1, reader, queue.push(payload));
    }
}

/// Something that is done with a segment.
pub enum SegmentUse {
    Push { writer: u64, payload: Seq<u8> },
    Pop { reader: u64 },
    Register { instance_id: u64 },
    Unregister { instance_id: u64 },
}

/// Header and ring after a use of the segment.
pub open spec fn after_use(h: ShmHeader, ring: Seq<u8>, done: SegmentUse) -> (ShmHeader, Seq<u8>) {
    match done {
        SegmentUse::Push { writer, payload } => after_push(h, ring, writer, payload),
        SegmentUse::Pop { reader } => match walk(
            ring,
            h.rb_write as int,
            read_cursor(h, reader) as int,
            walk_bound(ring),
        ) {
            Some((_, end)) => (with_read_cursor(h, reader, end as u32), ring),
            None => (h, ring),
        },
        SegmentUse::Register { instance_id } => if instance_id <= 1 {
            (registered_header(h, instance_id), ring)
        } else {
            (h, ring)
        },
        SegmentUse::Unregister { instance_id } => (unregistered_header(h, instance_id), ring),
    }
}

/// Header and ring after a history of uses.
pub open spec fn after_uses(h: ShmHeader, ring: Seq<u8>, history: Seq<SegmentUse>) -> (
    ShmHeader,
    Seq<u8>,
)
    decreases history.len(),
{
    if history.len() == 0 {
        (h, ring)
    } else {
        let before = after_uses(h, ring, history.drop_last());
        after_use(before.0, before.1, history.last())
    }
}

/// A use that the two instances make of a segment.
pub open spec fn by_an_instance(done: SegmentUse) -> bool {
    match done {
        SegmentUse::Push { payload, .. } => payload.len() <= usize::MAX,
        SegmentUse::Pop { reader } => reader <= 1,
        SegmentUse::Register { .. } => true,
        SegmentUse::Unregister { instance_id } => instance_id <= 1,
    }
}

/// Pushes, pops and registrations keep a segment proper.
pub proof fn law_use_keeps_segment(h: ShmHeader, ring: Seq<u8>, done: SegmentUse)
    requires
        segment_ok(h, ring),
        by_an_instance(done),
        done !is Unregister,
    ensures
        segment_ok(after_use(h, ring, done).0, after_use(h, ring, done).1),
        after_use(h, ring, done).0.rb_capacity == h.rb_capacity,
{
    match done {
        SegmentUse::Push { writer, payload } => {
            if push_refusal(h, payload.len() as usize) is None {
                law_push_keeps_segment(h, ring, writer, payload);
            }
        },
        SegmentUse::Pop { reader } => {
            if counted(h, reader) {
                let queue = choose|queue: Seq<Seq<u8>>| reader_queue(h, ring, reader, queue);
                assert(reader_queue(h, ring, reader, queue));
                law_pop_delivers(h, ring, reader, queue);
                law_pop_drains(h, ring, reader);
            } else {
                let next = after_use(h, ring, done).0;
                assert forall|id: u64| id <= 1 && #[trigger] counted(next, id) implies exists|
                    left: Seq<Seq<u8>>,
                |
                    reader_queue(next, ring, id, left) by {
                    assert(counted(h, id));
                    let left = choose|left: Seq<Seq<u8>>| reader_queue(h, ring, id, left);
                    assert(reader_queue(next, ring, id, left));
                }
            }
        },
        SegmentUse::Register { instance_id } => {
            if instance_id <= 1 {
                law_register_starts_empty(h, ring, instance_id);
            }
        },
        SegmentUse::Unregister { .. } => {},
    }
}

/// All uses of a history are made by the two instances.
pub open spec fn by_instances(history: Seq<SegmentUse>) -> bool {
    forall|i: int| 0 <= i < history.len() ==> by_an_instance(#[trigger] history[i])
}

proof fn lemma_earlier_uses(history: Seq<SegmentUse>)
    requires
        by_instances(history),
        history.len() > 0,
    ensures
        by_instances(history.drop_last()),
        by_an_instance(history.last()),
{
    let before = history.drop_last();
    assert forall|i: int| 0 <= i < before.len() implies by_an_instance(#[trigger] before[i]) by {
        assert(before[i] == history[i]);
    }
    assert(by_an_instance(history[history.len() - 1]));
}

/// A walk inside the ring comes to rest inside it.
proof fn lemma_walk_stays_inside(buf: Seq<u8>, write: int, at: int, fuel: nat)
    requires
        0 <= at <= buf.len(),
        0 <= write <= buf.len(),
    ensures
        walk(buf, write, at, fuel) matches Some((_, end)) ==> 0 <= end <= buf.len(),
    decreases fuel,
{
    if at != write && fuel > 0 {
        match crate::ring::next_move(buf, write, at) {
            crate::ring::Move::Take(payload, next) => {
                assert(buf.len() > 0);
                assert(0 <= next < buf.len());
                lemma_walk_stays_inside(buf, write, next, (fuel - 1) as nat);
            },
            crate::ring::Move::Rest(_) => {},
        }
    }
}

proof fn lemma_use_keeps_cursors(h: ShmHeader, ring: Seq<u8>, done: SegmentUse)
    requires
        cursors_inside(h, ring),
        by_an_instance(done),
    ensures
        cursors_inside(after_use(h, ring, done).0, after_use(h, ring, done).1),
        after_use(h, ring, done).0.rb_capacity == h.rb_capacity,
{
    match done {
        SegmentUse::Push { payload, .. } => {
            if push_refusal(h, payload.len() as usize) is None {
                let cap = h.rb_capacity as int;
                let write = h.rb_write as int;
                let len = frame_len(payload);
                let end = frame_offset(cap, write, len) + len;
                if end < cap {
                    vstd::arithmetic::div_mod::lemma_small_mod(end as nat, cap as nat);
                } else {
                    assert(end % cap == 0) by (nonlinear_arith)
                        requires
                            end == cap,
                            cap > 0,
                    ;
                }
            }
        },
        SegmentUse::Pop { reader } => {
            lemma_walk_stays_inside(
                ring,
                h.rb_write as int,
                read_cursor(h, reader) as int,
                walk_bound(ring),
            );
        },
        _ => {},
    }
}

/// Whatever was pushed, popped, registered and unregistered since a segment with
/// room for the sentinel was created: the cursors lie inside the ring, the
/// sentinel fits at the write cursor, no push is ever refused for want of that
/// room, and the capacity is what it was.
pub proof fn law_sentinel_always_fits(
    h: ShmHeader,
    ring: Seq<u8>,
    history: Seq<SegmentUse>,
    len: usize,
)
    requires
        fresh_header(h),
        ring.len() == h.rb_capacity,
        h.rb_capacity >= 4,
        by_instances(history),
    ensures
        ({
            let now = after_uses(h, ring, history);
            &&& cursors_inside(now.0, now.1)
            &&& cursors_ok(now.0)
            &&& now.0.rb_capacity == h.rb_capacity
            &&& now.0.rb_write + 4 <= now.0.rb_capacity
            &&& !(push_refusal(now.0, len) matches Some(PushError::TailTooSmall { .. }))
        }),
    decreases history.len(),
{
    if history.len() > 0 {
        lemma_earlier_uses(history);
        law_sentinel_always_fits(h, ring, history.drop_last(), len);
        let then = after_uses(h, ring, history.drop_last());
        lemma_use_keeps_cursors(then.0, then.1, history.last());
    }
}

/// A push is accepted by a segment.
pub open spec fn accepts_push(h: ShmHeader, payload: Seq<u8>) -> bool {
    push_refusal(h, payload.len() as usize) is None
}

/// The payloads that were pushed since a reader last popped or registered, or
/// else since the segment was created.
pub open spec fn pushed_since(
    h: ShmHeader,
    ring: Seq<u8>,
    history: Seq<SegmentUse>,
    reader: u64,
) -> Seq<Seq<u8>>
    decreases history.len(),
{
    if history.len() == 0 {
        Seq::empty()
    } else {
        let earlier = pushed_since(h, ring, history.drop_last(), reader);
        match history.last() {
            SegmentUse::Push { payload, .. } => if accepts_push(
                after_uses(h, ring, history.drop_last()).0,
                payload,
            ) {
                earlier.push(payload)
            } else {
                earlier
            },
            SegmentUse::Pop { reader: own } => if own == reader {
                Seq::empty()
            } else {
                earlier
            },
            SegmentUse::Register { instance_id } => if instance_id == reader {
                Seq::empty()
            } else {
                earlier
            },
            SegmentUse::Unregister { .. } => earlier,
        }
    }
}

/// Since a reader registered, or else since the segment was created, its read
/// cursor was counted whenever a push was accepted.
pub open spec fn was_counted(
    h: ShmHeader,
    ring: Seq<u8>,
    history: Seq<SegmentUse>,
    reader: u64,
) -> bool
    decreases history.len(),
{
    if history.len() == 0 {
        true
    } else {
        let then = after_uses(h, ring, history.drop_last()).0;
        match history.last() {
            SegmentUse::Push { payload, .. } => was_counted(h, ring, history.drop_last(), reader)
                && (accepts_push(then, payload) ==> counted(then, reader)),
            SegmentUse::Register { instance_id } => instance_id == reader || was_counted(
                h,
                ring,
                history.drop_last(),
                reader,
            ),
            _ => was_counted(h, ring, history.drop_last(), reader),
        }
    }
}

proof fn lemma_history_waits(
    h: ShmHeader,
    ring: Seq<u8>,
    history: Seq<SegmentUse>,
    reader: u64,
)
    requires
        fresh_header(h),
        ring.len() == h.rb_capacity,
        by_instances(history),
        reader <= 1,
    ensures
        cursors_inside(after_uses(h, ring, history).0, after_uses(h, ring, history).1),
        was_counted(h, ring, history, reader) ==> reader_queue(
            after_uses(h, ring, history).0,
            after_uses(h, ring, history).1,
            reader,
            pushed_since(h, ring, history, reader),
        ),
    decreases history.len(),
{
    if history.len() == 0 {
        law_new_segment_is_empty(h, ring, reader);
    } else {
        let before = history.drop_last();
        let then = after_uses(h, ring, before);
        let now = after_uses(h, ring, history);
        let queue = pushed_since(h, ring, before, reader);
        lemma_earlier_uses(history);
        lemma_history_waits(h, ring, before, reader);
        lemma_use_keeps_cursors(then.0, then.1, history.last());
        if was_counted(h, ring, history, reader) {
            match history.last() {
                SegmentUse::Push { writer, payload } => {
                    if accepts_push(then.0, payload) {
                        law_push_appends(then.0, then.1, writer, payload, reader, queue);
                    }
                },
                SegmentUse::Pop { reader: own } => {
                    if own == reader {
                        law_pop_delivers(then.0, then.1, reader, queue);
                        lemma_caught_up(now.0, now.1, reader);
                    }
                },
                SegmentUse::Register { instance_id } => {
                    if instance_id == reader {
                        lemma_caught_up(now.0, now.1, reader);
                    }
                },
                SegmentUse::Unregister { .. } => {},
            }
        }
    }
}

/// Over any history of a segment, a pop hands out exactly what was pushed since
/// its reader last popped or registered, in that order, and leaves the reader at
/// the write cursor.
pub proof fn law_pop_hands_out_what_was_pushed(
    h: ShmHeader,
    ring: Seq<u8>,
    history: Seq<SegmentUse>,
    reader: u64,
)
    requires
        fresh_header(h),
        ring.len() == h.rb_capacity,
        by_instances(history),
        reader <= 1,
        was_counted(h, ring, history, reader),
    ensures
        ({
            let now = after_uses(h, ring, history);
            walk(
                now.1,
                now.0.rb_write as int,
                read_cursor(now.0, reader) as int,
                walk_bound(now.1),
            ) == Some((pushed_since(h, ring, history, reader), now.0.rb_write as int))
        }),
{
    let now = after_uses(h, ring, history);
    lemma_history_waits(h, ring, history, reader);
    law_pop_delivers(now.0, now.1, reader, pushed_since(h, ring, history, reader));
}

proof fn lemma_stays_active(h: ShmHeader, ring: Seq<u8>, done: SegmentUse, reader: u64)
    requires
        reader <= 1,
        h.dp_write & instance_bit(reader) != 0,
        by_an_instance(done),
        done != (SegmentUse::Unregister { instance_id: reader }),
    ensures
        after_use(h, ring, done).0.dp_write & instance_bit(reader) != 0,
{
    let mask = h.dp_write;
    assert(mask & 1 != 0 ==> (mask | 1) & 1 != 0 && (mask | 2) & 1 != 0 && (mask & !2u32) & 1 != 0)
        by (bit_vector);
    assert(mask & 2 != 0 ==> (mask | 1) & 2 != 0 && (mask | 2) & 2 != 0 && (mask & !1u32) & 2 != 0)
        by (bit_vector);
}

/// An instance that registered is counted until it unregisters: it misses
/// nothing, whatever the other instance does.
pub proof fn law_registered_reader_is_counted(
    h: ShmHeader,
    ring: Seq<u8>,
    history: Seq<SegmentUse>,
    since: int,
    reader: u64,
)
    requires
        reader <= 1,
        by_instances(history),
        0 <= since < history.len(),
        history[since] == (SegmentUse::Register { instance_id: reader }),
        forall|i: int|
            since < i < history.len() ==> #[trigger] history[i] != (SegmentUse::Unregister {
                instance_id: reader,
            }),
    ensures
        was_counted(h, ring, history, reader),
        after_uses(h, ring, history).0.dp_write & instance_bit(reader) != 0,
    decreases history.len(),
{
    let before = history.drop_last();
    let then = after_uses(h, ring, before);
    lemma_earlier_uses(history);
    if since == history.len() - 1 {
        let mask = then.0.dp_write;
        assert((mask | 1) & 1 != 0 && (mask | 2) & 2 != 0) by (bit_vector);
    } else {
        assert forall|i: int| since < i < before.len() implies #[trigger] before[i] != (
        SegmentUse::Unregister { instance_id: reader }) by {
            assert(before[i] == history[i]);
        }
        law_registered_reader_is_counted(h, ring, before, since, reader);
        assert(history[history.len() - 1] == history.last());
        lemma_stays_active(then.0, then.1, history.last(), reader);
    }
}

/// Where no instance ever registers, both are counted: neither misses anything.
pub proof fn law_unregistered_readers_are_counted(
    h: ShmHeader,
    ring: Seq<u8>,
    history: Seq<SegmentUse>,
    reader: u64,
)
    requires
        fresh_header(h),
        forall|i: int|
            0 <= i < history.len() ==> (#[trigger] history[i]) is Push || history[i] is Pop,
    ensures
        was_counted(h, ring, history, reader),
        after_uses(h, ring, history).0.dp_write == 0,
    decreases history.len(),
{
    assert(0u32 & 3 == 0) by (bit_vector);
    if history.len() > 0 {
        let before = history.drop_last();
        assert forall|i: int| 0 <= i < before.len() implies (#[trigger] before[i]) is Push
            || before[i] is Pop by {
            assert(before[i] == history[i]);
        }
        law_unregistered_readers_are_counted(h, ring, before, reader);
        assert(history[history.len() - 1] == history.last());
    }
}

/// A proper queue of frames waits for an instance.
pub open spec fn has_queue(h: ShmHeader, ring: Seq<u8>, instance_id: u64) -> bool {
    exists|queue: Seq<Seq<u8>>| reader_queue(h, ring, instance_id, queue)
}

/// As long as another instance stays active, unregistering keeps the segment
/// proper and frees the writer from the reader that left. Without one both
/// cursors count again, and the segment is proper exactly if both readers still
/// have a proper queue before them.
pub proof fn law_unregister_keeps_segment(h: ShmHeader, ring: Seq<u8>, instance_id: u64)
    requires
        segment_ok(h, ring),
        instance_id <= 1,
    ensures
        counted(unregistered_header(h, instance_id), instance_id) <==> unregistered_header(
            h,
            instance_id,
        ).dp_write & 3 == 0,
        segment_ok(unregistered_header(h, instance_id), ring) <==> (unregistered_header(
            h,
            instance_id,
        ).dp_write & 3 != 0 || (has_queue(h, ring, 0) && has_queue(h, ring, 1))),
{
    let next = unregistered_header(h, instance_id);
    let mask = h.dp_write;
    assert((mask & !1u32) & 1 == 0 && (mask & !2u32) & 2 == 0) by (bit_vector);
    assert((mask & !1u32) & 2 == mask & 2 && (mask & !2u32) & 1 == mask & 1) by (bit_vector);
    lemma_same_queue(h, next, ring, 0);
    lemma_same_queue(h, next, ring, 1);
    assert(counted(h, 0) ==> has_queue(h, ring, 0));
    assert(counted(h, 1) ==> has_queue(h, ring, 1));
    assert(segment_ok(next, ring) ==> (counted(next, 0) ==> has_queue(next, ring, 0)) && (counted(
        next,
        1,
    ) ==> has_queue(next, ring, 1)));
    if (counted(next, 0) ==> has_queue(next, ring, 0)) && (counted(next, 1) ==> has_queue(
        next,
        ring,
        1,
    )) {
        assert forall|id: u64| id <= 1 && #[trigger] counted(next, id) implies exists|
            queue: Seq<Seq<u8>>,
        |
            reader_queue(next, ring, id, queue) by {
            assert(id == 0 || id == 1);
            assert(has_queue(next, ring, id));
        }
    }
}

proof fn lemma_same_queue(h: ShmHeader, next: ShmHeader, ring: Seq<u8>, instance_id: u64)
    requires
        next.rb_write == h.rb_write,
        read_cursor(next, instance_id) == read_cursor(h, instance_id),
    ensures
        has_queue(next, ring, instance_id) == has_queue(h, ring, instance_id),
{
    assert forall|queue: Seq<Seq<u8>>|
        reader_queue(next, ring, instance_id, queue) == #[trigger] reader_queue(
            h,
            ring,
            instance_id,
            queue,
        ) by {}
    if has_queue(next, ring, instance_id) {
        let queue = choose|queue: Seq<Seq<u8>>| reader_queue(next, ring, instance_id, queue);
        assert(reader_queue(h, ring, instance_id, queue));
    }
}

/// A process that tries to take the lock of a segment.
#[derive(Clone, Copy, Debug, PartialEq, Eq)]
pub struct LockAttempt {
    /// Failed exchanges so far.
    pub spins: u32,
}

/// What to do after an exchange of the lock word was tried.
#[derive(Clone, Copy, Debug, PartialEq, Eq, Structural)]
pub enum LockAction {
    /// The lock is held.
    Acquired,
    /// Spin, then try again.
    Spin,
    /// The lock could not be had in time.
    GiveUp,
}

impl LockAttempt {
    /// An attempt that can still go on.
    pub open spec fn wf(self) -> bool {
        self.spins < MAX_SPIN
    }

    /// How many more failed exchanges end this attempt.
    pub open spec fn patience(self) -> int {
        MAX_SPIN - self.spins
    }

    /// An attempt that has not begun.
    pub fn new() -> (attempt: LockAttempt)
        ensures
            attempt.wf(),
            attempt == (LockAttempt { spins: 0 }),
    {
        LockAttempt { spins: 0 }
    }

    /// What follows on an exchange that succeeded or failed. After `MAX_SPIN`
    /// failed exchanges the attempt is given up: the lock is never taken from
    /// its holder.
    pub fn try_acquire_lock(&mut self, exchanged: bool) -> (action: LockAction)
        requires
            old(self).wf(),
        ensures
            action == (if exchanged {
                LockAction::Acquired
            } else if old(self).spins + 1 >= MAX_SPIN {
                LockAction::GiveUp
            } else {
                LockAction::Spin
            }),
            *final(self) == (if action == LockAction::Spin {
                LockAttempt { spins: (old(self).spins + 1) as u32 }
            } else {
                *old(self)
            }),
            final(self).wf(),
            action is Spin ==> final(self).patience() < old(self).patience(),
    {
        if exchanged {
            return LockAction::Acquired;
        }
        if self.spins >= MAX_SPIN - 1 {
            return LockAction::GiveUp;
        }
        self.spins = self.spins + 1;
        LockAction::Spin
    }
}

/// What an attempt comes to over a sequence of exchanges, of which `outcomes`
/// says whether they succeeded; `None` while it still goes on.
pub open spec fn lock_outcome(attempt: LockAttempt, outcomes: Seq<bool>) -> Option<bool>
    decreases outcomes.len(),
{
    if outcomes.len() == 0 {
        None
    } else if outcomes[0] {
        Some(true)
    } else if attempt.spins + 1 >= MAX_SPIN {
        Some(false)
    } else {
        lock_outcome(LockAttempt { spins: (attempt.spins + 1) as u32 }, outcomes.skip(1))
    }
}

/// A lock is had only by an exchange that succeeded: one that its holder keeps
/// throughout is not had, and the attempt ends after `MAX_SPIN` exchanges.
pub proof fn law_held_lock_is_not_taken(attempt: LockAttempt, outcomes: Seq<bool>)
    requires
        attempt.wf(),
        forall|i: int| 0 <= i < outcomes.len() ==> !(#[trigger] outcomes[i]),
    ensures
        lock_outcome(attempt, outcomes) == (if outcomes.len() < attempt.patience() {
            None
        } else {
            Some(false)
        }),
    decreases outcomes.len(),
{
    if outcomes.len() > 0 && attempt.spins + 1 < MAX_SPIN {
        let next = LockAttempt { spins: (attempt.spins + 1) as u32 };
        assert forall|i: int| 0 <= i < outcomes.skip(1).len() implies !(
        #[trigger] outcomes.skip(1)[i]) by {
            assert(!outcomes[i + 1]);
        }
        law_held_lock_is_not_taken(next, outcomes.skip(1));
    }
}

/// What a producer does after it tried to push.
#[derive(Clone, Copy, Debug, PartialEq, Eq)]
pub enum PushNext {
    /// The event is pushed.
    Done,
    /// The ring is full: the producer sleeps that many milliseconds and tries
    /// again.
    Sleep(u64),
    /// The event is given up.
    Fail(PushError),
}

/// What a producer does after it tried to push, at the given time after its first
/// try. Only for readers that have not freed enough space yet it waits.
pub fn push_next(pushed: &Result<(), PushError>, waited_ms: u64) -> (next: PushNext)
    ensures
        next == (match *pushed {
            Ok(()) => PushNext::Done,
            Err(error) => if error is Full && waited_ms < PUSH_WAIT_TIMEOUT_MS {
                PushNext::Sleep(PUSH_RETRY_SLEEP_MS)
            } else {
                PushNext::Fail(error)
            },
        }),
{
    match pushed {
        Ok(()) => PushNext::Done,
        Err(error) => {
            if let PushError::Full { .. } = error {
                if let Some(pause) = push_retry(waited_ms) {
                    return PushNext::Sleep(pause);
                }
            }
            PushNext::Fail(*error)
        },
    }
}

/// How long a producer that found the ring full sleeps before its next try, or
/// `None` if it has waited long enough.
pub fn push_retry(waited_ms: u64) -> (sleep_ms: Option<u64>)
    ensures
        sleep_ms == (if waited_ms >= PUSH_WAIT_TIMEOUT_MS {
            None
        } else {
            Some(PUSH_RETRY_SLEEP_MS)
        }),
{
    if waited_ms >= PUSH_WAIT_TIMEOUT_MS {
        None
    } else {
        Some(PUSH_RETRY_SLEEP_MS)
    }
}

} // verus!
