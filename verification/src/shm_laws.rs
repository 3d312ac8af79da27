//! Laws of [`crate::shm`], [`crate::ring`], the header in [`crate::event`] and the
//! names in [`crate::cli`]: what stands where in a segment, and when there is room.

use crate::cli;
use crate::cli::NameStyle;
use crate::event;
use crate::event::ShmHeader;
use crate::ring;
use crate::shm;
use crate::shm::PushError;
use vstd::bytes::{
    lemma_auto_spec_u32_to_from_le_bytes, lemma_auto_spec_u64_to_from_le_bytes,
    spec_u32_from_le_bytes, spec_u32_to_le_bytes, spec_u64_to_le_bytes,
};
use vstd::prelude::*;

verus! {

/// Instance 0 is counted if bit 0 of the mask is set, instance 1 if bit 1 is, and
/// both are if neither bit is set.
pub proof fn law_who_is_counted(h: ShmHeader, other: u64)
    ensures
        shm::counted(h, 0) <==> h.dp_write & 3 == 0 || h.dp_write & 1 != 0,
        shm::counted(h, 1) <==> h.dp_write & 3 == 0 || h.dp_write & 2 != 0,
        shm::read_cursor(h, 0) == h.rb_read_a,
        other != 0 ==> shm::read_cursor(h, other) == h.rb_read_b,
{
}

/// The cursors that matter lie inside the ring if the write cursor does, and each
/// read cursor that is counted.
pub proof fn law_cursors_that_matter(h: ShmHeader)
    ensures
        shm::cursors_ok(h) <==> h.rb_write <= h.rb_capacity && (shm::counted(h, 0) ==> h.rb_read_a
            <= h.rb_capacity) && (shm::counted(h, 1) ==> h.rb_read_b <= h.rb_capacity),
{
}

/// Bytes from a read cursor round to the write cursor.
pub open spec fn unread(read: int, write: int, cap: int) -> int {
    if read <= write {
        write - read
    } else {
        cap - (read - write)
    }
}

/// What no counted reader needs any more is free, but for one byte.
pub proof fn law_free_bytes(h: ShmHeader, free: int)
    requires
        shm::cursors_ok(h),
    ensures
        free == shm::free_bytes(h) && free > 0 ==> (shm::counted(h, 0) ==> free + unread(
            h.rb_read_a as int,
            h.rb_write as int,
            h.rb_capacity as int,
        ) < h.rb_capacity) && (shm::counted(h, 1) ==> free + unread(
            h.rb_read_b as int,
            h.rb_write as int,
            h.rb_capacity as int,
        ) < h.rb_capacity),
        free > 0 && (shm::counted(h, 0) ==> free + unread(
            h.rb_read_a as int,
            h.rb_write as int,
            h.rb_capacity as int,
        ) < h.rb_capacity) && (shm::counted(h, 1) ==> free + unread(
            h.rb_read_b as int,
            h.rb_write as int,
            h.rb_capacity as int,
        ) < h.rb_capacity) ==> free <= shm::free_bytes(h),
        shm::free_bytes(h) >= 0,
{
    let mask = h.dp_write;
    assert(mask & 3 == 0 || mask & 1 != 0 || mask & 2 != 0) by (bit_vector);
}

/// Bytes that a frame with a payload of `len` bytes needs at the write cursor: it
/// is stored in one piece, and no tail of one to three bytes is left behind it.
pub open spec fn needed(h: ShmHeader, len: int) -> int {
    let behind = h.rb_capacity - h.rb_write - 4 - len;
    if behind == 0 || behind >= 4 {
        4 + len
    } else {
        h.rb_capacity - h.rb_write + 4 + len
    }
}

/// A push is accepted whenever there is room for it: a payload is too large only
/// if it could never be stored with eight bytes to spare, the ring is full only if
/// the frame needs more than is free, and in a segment whose cursors are as pushes
/// leave them there is no other reason.
pub proof fn law_push_is_accepted_if_there_is_room(h: ShmHeader, len: usize)
    requires
        shm::cursors_ok(h),
        h.rb_write == 0 || h.rb_write + 4 <= h.rb_capacity,
    ensures
        len + 8 > h.rb_capacity ==> shm::push_refusal(h, len) == Some(
            PushError::TooLarge { payload_len: len, capacity: h.rb_capacity },
        ),
        len + 8 <= h.rb_capacity && needed(h, len as int) > shm::free_bytes(h)
            ==> (shm::push_refusal(h, len) matches Some(PushError::Full { required, free })
            && required == needed(h, len as int) && free == shm::free_bytes(h)),
        len + 8 <= h.rb_capacity && needed(h, len as int) <= shm::free_bytes(h)
            ==> shm::push_refusal(h, len) is None,
{
}

/// Where the write cursor leaves no room for the sentinel that is needed there, a
/// push is refused for that reason; nowhere else.
pub proof fn law_tail_too_small(h: ShmHeader, len: usize)
    requires
        shm::cursors_ok(h),
        len + 8 <= h.rb_capacity,
        needed(h, len as int) <= shm::free_bytes(h),
    ensures
        shm::push_refusal(h, len) == (if h.rb_write + len + 4 != h.rb_capacity && h.rb_write + len
            + 8 > h.rb_capacity && 0 < h.rb_write && h.rb_capacity < h.rb_write + 4 {
            Some(PushError::TailTooSmall { write: h.rb_write, capacity: h.rb_capacity })
        } else {
            None::<PushError>
        }),
{
}

/// A new segment takes every payload that leaves eight bytes of its ring.
pub proof fn law_new_segment_takes_large_payloads(h: ShmHeader, len: usize)
    requires
        shm::fresh_header(h),
    ensures
        shm::push_refusal(h, len) is None <==> len + 8 <= h.rb_capacity,
{
    assert(0u32 & 3 == 0) by (bit_vector);
}

/// Once the readers have read all, every payload is taken that is no larger than
/// half of the ring.
pub proof fn law_empty_ring_takes_half_of_it(h: ShmHeader, len: usize)
    requires
        h.rb_write == 0 || h.rb_write + 4 <= h.rb_capacity,
        shm::counted(h, 0) ==> h.rb_read_a == h.rb_write,
        shm::counted(h, 1) ==> h.rb_read_b == h.rb_write,
        2 * (len + 8) <= h.rb_capacity,
        h.rb_write <= h.rb_capacity,
    ensures
        shm::push_refusal(h, len) is None <==> needed(h, len as int) < h.rb_capacity,
        len + 8 <= h.rb_write || h.rb_write + len + 8 <= h.rb_capacity ==> shm::push_refusal(
            h,
            len,
        ) is None,
{
    let mask = h.dp_write;
    assert(mask & 3 == 0 || mask & 1 != 0 || mask & 2 != 0) by (bit_vector);
}

/// An accepted push moves the write cursor behind its frame, round to 0 at the
/// end of the ring, counts its writer up and changes nothing else in the header.
pub proof fn law_header_after_a_push(h: ShmHeader, writer: u64, len: usize)
    requires
        shm::push_refusal(h, len) is None,
        h.seq_a < u64::MAX,
        h.seq_b < u64::MAX,
        shm::cursors_ok(h),
    ensures
        ({
            let after = shm::pushed_header(h, writer, len as int);
            let start = if needed(h, len as int) == 4 + len {
                h.rb_write as int
            } else {
                0
            };
            let end = start + 4 + len;
            &&& end <= h.rb_capacity
            &&& after == (ShmHeader {
                rb_write: if end == h.rb_capacity {
                    0
                } else {
                    end as u32
                },
                seq_a: (h.seq_a + (if writer == 0 {
                    1int
                } else {
                    0
                })) as u64,
                seq_b: (h.seq_b + (if writer == 0 {
                    0int
                } else {
                    1
                })) as u64,
                ..h
            })
        }),
{
    let cap = h.rb_capacity as int;
    let end = ring::frame_offset(cap, h.rb_write as int, 4 + len) + 4 + len;
    if end < cap {
        vstd::arithmetic::div_mod::lemma_small_mod(end as nat, cap as nat);
    } else {
        assert(end % cap == 0) by (nonlinear_arith)
            requires
                end == cap,
                cap > 0,
        ;
    }
}

/// A frame is the length of its payload in four bytes, the lowest first, and then
/// the payload. It stands at the write cursor, or at the start of the ring behind
/// a mark at the write cursor, the largest length there is; nothing else in the
/// ring changes.
pub proof fn law_frame_in_the_ring(
    h: ShmHeader,
    buf: Seq<u8>,
    payload: Seq<u8>,
    i: int,
)
    requires
        payload.len() <= usize::MAX,
        shm::cursors_ok(h),
        buf.len() == h.rb_capacity,
        shm::push_refusal(h, payload.len() as usize) is None,
        0 <= i < buf.len(),
    ensures
        ({
            let after = ring::store_frame(buf, h.rb_write as int, payload);
            let wraps = needed(h, payload.len() as int) != 4 + payload.len();
            let start = if wraps {
                0
            } else {
                h.rb_write as int
            };
            &&& after.len() == buf.len()
            &&& start <= i < start + 4 ==> after[i] == spec_u32_to_le_bytes(
                payload.len() as u32,
            )[i - start]
            &&& start + 4 <= i < start + 4 + payload.len() ==> after[i] == payload[i - start - 4]
            &&& wraps && h.rb_write <= i < h.rb_write + 4 ==> after[i]
                == spec_u32_to_le_bytes(0xFFFF_FFFF)[i - h.rb_write]
            &&& !(start <= i < start + 4 + payload.len()) && !(wraps && h.rb_write <= i < h.rb_write
                + 4) ==> after[i] == buf[i]
        }),
{
    lemma_auto_spec_u32_to_from_le_bytes();
    assert(spec_u32_to_le_bytes(ring::WRAP_SENTINEL).len() == 4);
    law_free_bytes(h, shm::free_bytes(h));
    let mask = h.dp_write;
    assert(mask & 3 == 0 || mask & 1 != 0 || mask & 2 != 0) by (bit_vector);
    assert(spec_u32_to_le_bytes(payload.len() as u32).len() == 4);
}

/// A reader before a frame takes its payload and goes on behind it, round to 0 at
/// the end of the ring; before the mark it goes on at 0; and where neither stands
/// it rests. At the write cursor it is done.
pub proof fn law_reader_in_the_ring(buf: Seq<u8>, write: int, at: int, fuel: nat)
    requires
        0 <= at,
        fuel > 0,
    ensures
        at == write ==> ring::walk(buf, write, at, fuel) == Some(
            (Seq::<Seq<u8>>::empty(), at),
        ),
        at != write && at + 4 > buf.len() ==> ring::walk(buf, write, at, fuel) == Some(
            (Seq::<Seq<u8>>::empty(), at),
        ),
        at != write && at + 4 <= buf.len() ==> ({
            let word = spec_u32_from_le_bytes(buf.subrange(at, at + 4));
            let end = at + 4 + word;
            let next = if end == buf.len() {
                0
            } else {
                end
            };
            &&& word != 0xFFFF_FFFF && end <= buf.len() ==> ring::walk(buf, write, at, fuel) == (
            match ring::walk(buf, write, next, (fuel - 1) as nat) {
                Some((rest, rests_at)) => Some(
                    (seq![buf.subrange(at + 4, end)] + rest, rests_at),
                ),
                None => None,
            })
            &&& word != 0xFFFF_FFFF && end > buf.len() ==> ring::walk(buf, write, at, fuel)
                == Some((Seq::<Seq<u8>>::empty(), at))
            &&& word == 0xFFFF_FFFF && write == 0 ==> ring::walk(buf, write, at, fuel) == Some(
                (Seq::<Seq<u8>>::empty(), 0int),
            )
            &&& word == 0xFFFF_FFFF && write != 0 && !(ring::slot_at(buf, 0) is Wrap)
                ==> ring::walk(buf, write, at, fuel) == ring::walk(buf, write, 0, fuel)
            &&& word == 0xFFFF_FFFF && write != 0 && ring::slot_at(buf, 0) is Wrap ==> ring::walk(
                buf,
                write,
                at,
                fuel,
            ) == Some((Seq::<Seq<u8>>::empty(), 0int))
        }),
        ring::slot_at(buf, 0) is Wrap <==> buf.len() >= 4 && spec_u32_from_le_bytes(
            buf.subrange(0, 4),
        ) == 0xFFFF_FFFF,
{
    if at + 4 <= buf.len() {
        let word = spec_u32_from_le_bytes(buf.subrange(at, at + 4));
        let end = at + 4 + word;
        if end <= buf.len() {
            lemma_round(end, buf.len() as int);
        }
        let first = spec_u32_from_le_bytes(buf.subrange(0, 4));
        if 4 + first <= buf.len() {
            lemma_round(4 + first, buf.len() as int);
        }
    }
}

proof fn lemma_round(end: int, cap: int)
    requires
        0 <= end <= cap,
        cap > 0,
    ensures
        end % cap == (if end == cap {
            0
        } else {
            end
        }),
{
    if end < cap {
        vstd::arithmetic::div_mod::lemma_small_mod(end as nat, cap as nat);
    } else {
        assert(end % cap == 0) by (nonlinear_arith)
            requires
                end == cap,
                cap > 0,
        ;
    }
}

/// A reader may make one move more than there are bytes in the ring.
pub proof fn law_moves_of_a_reader(buf: Seq<u8>, write: int, at: int)
    ensures
        ring::walk_bound(buf) == buf.len() + 1,
        ring::walk(buf, write, at, 0) == (if at == write {
            Some((Seq::<Seq<u8>>::empty(), at))
        } else {
            None
        }),
{
}

/// Registering an instance sets its bit and moves its read cursor to the write
/// cursor; unregistering it takes the bit back; a pop moves its read cursor. Each
/// leaves all else in the header as it is.
pub proof fn law_header_after_other_uses(h: ShmHeader, cursor: u32, other: u64)
    ensures
        shm::registered_header(h, 0) == (ShmHeader {
            dp_write: h.dp_write | 1,
            rb_read_a: h.rb_write,
            ..h
        }),
        shm::registered_header(h, 1) == (ShmHeader {
            dp_write: h.dp_write | 2,
            rb_read_b: h.rb_write,
            ..h
        }),
        shm::unregistered_header(h, 0) == (ShmHeader { dp_write: h.dp_write & !1u32, ..h }),
        other != 0 ==> shm::unregistered_header(h, other) == (ShmHeader {
            dp_write: h.dp_write & !2u32,
            ..h
        }),
        shm::with_read_cursor(h, 0, cursor) == (ShmHeader { rb_read_a: cursor, ..h }),
        other != 0 ==> shm::with_read_cursor(h, other, cursor) == (ShmHeader {
            rb_read_b: cursor,
            ..h
        }),
{
}

/// A new segment is one of this protocol, with nothing in its ring and no active
/// instance. Its ring is all of it behind the header of 56 bytes.
pub proof fn law_new_segment(h: ShmHeader, total_size: int)
    ensures
        shm::fresh_header(h) <==> h.magic == [0x44u8, 0x53u8, 0x59u8, 0x4Eu8] && h.version == 1
            && h.seq_a == 0 && h.seq_b == 0 && h.lock_a == 0 && h.lock_b == 0 && h.rb_write == 0
            && h.rb_read_a == 0 && h.rb_read_b == 0 && h.dp_write == 0 && h.dp_size == 0,
        56 <= total_size < 0x1_0000_0000 ==> shm::ring_capacity(total_size) == total_size - 56,
        56 <= total_size ==> 0 <= shm::ring_capacity(total_size) < 0x1_0000_0000 && (total_size - 56
            - shm::ring_capacity(total_size)) % 0x1_0000_0000 == 0,
        event::SHM_HEADER_SIZE == 56,
        event::SHM_VERSION == 1,
        event::SHM_MAGIC@ == seq![0x44u8, 0x53u8, 0x59u8, 0x4Eu8],
{
    assert(event::SHM_MAGIC@ =~= seq![0x44u8, 0x53u8, 0x59u8, 0x4Eu8]);
    assert(event::SHM_MAGIC =~= [0x44u8, 0x53u8, 0x59u8, 0x4Eu8]);
}

/// What is there is a segment of this protocol if its header starts with `DSYN`
/// and version 1, whatever else it holds.
pub proof fn law_known_segments(size: usize, h: ShmHeader)
    ensures
        !shm::is_segment(None),
        shm::is_segment(Some((size, h))) <==> h.magic@ == seq![0x44u8, 0x53u8, 0x59u8, 0x4Eu8]
            && h.version == 1,
        shm::segment_size(Some((size, h))) == Some(size),
        shm::segment_size(None) is None,
{
    assert(event::SHM_MAGIC@ =~= seq![0x44u8, 0x53u8, 0x59u8, 0x4Eu8]);
}

/// The header is 56 bytes long, and each field stands at its documented offset,
/// with its lowest byte first.
pub proof fn law_header_layout(h: ShmHeader)
    ensures
        ({
            let b = event::header_bytes(h);
            &&& b.len() == 56
            &&& b.subrange(0x00, 0x04) == h.magic@
            &&& b.subrange(0x04, 0x08) == spec_u32_to_le_bytes(h.version)
            &&& b.subrange(0x08, 0x10) == spec_u64_to_le_bytes(h.seq_a)
            &&& b.subrange(0x10, 0x18) == spec_u64_to_le_bytes(h.seq_b)
            &&& b.subrange(0x18, 0x1C) == spec_u32_to_le_bytes(h.lock_a)
            &&& b.subrange(0x1C, 0x20) == spec_u32_to_le_bytes(h.lock_b)
            &&& b.subrange(0x20, 0x24) == spec_u32_to_le_bytes(h.rb_write)
            &&& b.subrange(0x24, 0x28) == spec_u32_to_le_bytes(h.rb_read_a)
            &&& b.subrange(0x28, 0x2C) == spec_u32_to_le_bytes(h.rb_read_b)
            &&& b.subrange(0x2C, 0x30) == spec_u32_to_le_bytes(h.rb_capacity)
            &&& b.subrange(0x30, 0x34) == spec_u32_to_le_bytes(h.dp_write)
            &&& b.subrange(0x34, 0x38) == spec_u32_to_le_bytes(h.dp_size)
        }),
{
    lemma_auto_spec_u32_to_from_le_bytes();
    lemma_auto_spec_u64_to_from_le_bytes();
    let b = event::header_bytes(h);
    assert(b.subrange(0x00, 0x04) =~= h.magic@);
    assert(b.subrange(0x04, 0x08) =~= spec_u32_to_le_bytes(h.version));
    assert(b.subrange(0x08, 0x10) =~= spec_u64_to_le_bytes(h.seq_a));
    assert(b.subrange(0x10, 0x18) =~= spec_u64_to_le_bytes(h.seq_b));
    assert(b.subrange(0x18, 0x1C) =~= spec_u32_to_le_bytes(h.lock_a));
    assert(b.subrange(0x1C, 0x20) =~= spec_u32_to_le_bytes(h.lock_b));
    assert(b.subrange(0x20, 0x24) =~= spec_u32_to_le_bytes(h.rb_write));
    assert(b.subrange(0x24, 0x28) =~= spec_u32_to_le_bytes(h.rb_read_a));
    assert(b.subrange(0x28, 0x2C) =~= spec_u32_to_le_bytes(h.rb_read_b));
    assert(b.subrange(0x2C, 0x30) =~= spec_u32_to_le_bytes(h.rb_capacity));
    assert(b.subrange(0x30, 0x34) =~= spec_u32_to_le_bytes(h.dp_write));
    assert(b.subrange(0x34, 0x38) =~= spec_u32_to_le_bytes(h.dp_size));
}

/// Of any 56 bytes that stand at the start of a segment, and of whatever follows
/// them, exactly that header is read whose bytes they are.
pub proof fn law_header_is_read(h: ShmHeader, rest: Seq<u8>, read: ShmHeader)
    ensures
        event::header_at_start(event::header_bytes(h) + rest, h),
        event::header_at_start(event::header_bytes(h) + rest, read) ==> read == h,
{
    law_header_layout(h);
    lemma_auto_spec_u32_to_from_le_bytes();
    lemma_auto_spec_u64_to_from_le_bytes();
    let b = event::header_bytes(h);
    let all = b + rest;
    assert(all.subrange(0x00, 0x04) =~= b.subrange(0x00, 0x04));
    assert(all.subrange(0x04, 0x08) =~= b.subrange(0x04, 0x08));
    assert(all.subrange(0x08, 0x10) =~= b.subrange(0x08, 0x10));
    assert(all.subrange(0x10, 0x18) =~= b.subrange(0x10, 0x18));
    assert(all.subrange(0x18, 0x1C) =~= b.subrange(0x18, 0x1C));
    assert(all.subrange(0x1C, 0x20) =~= b.subrange(0x1C, 0x20));
    assert(all.subrange(0x20, 0x24) =~= b.subrange(0x20, 0x24));
    assert(all.subrange(0x24, 0x28) =~= b.subrange(0x24, 0x28));
    assert(all.subrange(0x28, 0x2C) =~= b.subrange(0x28, 0x2C));
    assert(all.subrange(0x2C, 0x30) =~= b.subrange(0x2C, 0x30));
    assert(all.subrange(0x30, 0x34) =~= b.subrange(0x30, 0x34));
    assert(all.subrange(0x34, 0x38) =~= b.subrange(0x34, 0x38));
    if event::header_at_start(all, read) {
        assert(read.magic =~= h.magic);
    }
}

/// A list of payloads is read in order.
pub proof fn law_payloads_in_order(payloads: Seq<Vec<u8>>, i: int)
    ensures
        shm::payload_views(payloads).len() == payloads.len(),
        0 <= i < payloads.len() ==> shm::payload_views(payloads)[i] == payloads[i]@,
{
}

/// The name of a segment on a POSIX system is the given one behind a slash, unless
/// it starts with one already. On Windows it is the given one from the first
/// character on that is no slash.
pub proof fn law_names_of_segments(name: Seq<char>, slashes: nat, rest: Seq<char>)
    requires
        rest.len() == 0 || rest[0] != '/',
        name.len() == 0 || name[0] != '/',
    ensures
        cli::system_name(NameStyle::Posix, name) == seq!['/'] + name,
        cli::system_name(NameStyle::Posix, seq!['/'] + rest) == seq!['/'] + rest,
        slashes > 0 ==> cli::system_name(
            NameStyle::Posix,
            Seq::new(slashes, |i: int| '/') + rest,
        ) == Seq::new(slashes, |i: int| '/') + rest,
        cli::system_name(NameStyle::Windows, Seq::new(slashes, |i: int| '/') + rest) == rest,
    decreases slashes,
{
    let slashed = Seq::new(slashes, |i: int| '/') + rest;
    if slashes > 0 {
        let fewer = (slashes - 1) as nat;
        law_names_of_segments(name, fewer, rest);
        assert(slashed[0] == '/');
        assert(slashed.skip(1) =~= Seq::new(fewer, |i: int| '/') + rest);
    } else {
        assert(slashed =~= rest);
    }
}

/// The limits of the transport, and the settings that hold unless others are
/// given.
pub proof fn law_limits_and_defaults()
    ensures
        shm::MAX_SPIN == 2_000_000,
        shm::PUSH_WAIT_TIMEOUT_MS == 30_000,
        shm::PUSH_RETRY_SLEEP_MS == 10,
        cli::DEFAULT_SHM_SIZE == 64 * 1024 * 1024,
        cli::DEFAULT_DEBOUNCE_MS == 100,
        ring::WRAP_SENTINEL == 0xFFFF_FFFF,
        crate::watcher::HASH_RETRIES == 3,
        crate::watcher::HASH_RETRY_PAUSE_MS == 100,
{
}

/// A transport has the name that the two sides agreed on, and the one under which
/// the system knows it.
pub proof fn law_names_of_a_transport(
    transport: shm::ShmTransport,
    style: NameStyle,
    name: Seq<char>,
)
    ensures
        transport.is_named(style, name) <==> transport.shm_name@ == name && transport.os_name@
            == cli::system_name(style, name),
{
}

} // verus!
