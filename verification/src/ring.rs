//! The byte-level ring buffer that carries length-prefixed frames.
//!
//! A frame is a little-endian `u32` length followed by that many payload
//! bytes. A frame never straddles the end of the buffer: when it does not fit
//! in the tail, the tail starts with `WRAP_SENTINEL` and the frame is placed
//! at offset 0.

use vstd::bytes::{
    lemma_auto_spec_u32_to_from_le_bytes, spec_u32_from_le_bytes, spec_u32_to_le_bytes,
};
use vstd::prelude::*;

verus! {

/// Length value that marks the rest of the buffer as padding: the reader goes
/// on at offset 0.
pub const WRAP_SENTINEL: u32 = 0xFFFF_FFFF;

/// The little-endian `u32` stored at `at`.
pub open spec fn u32_at(buf: Seq<u8>, at: int) -> u32 {
    spec_u32_from_le_bytes(buf.subrange(at, at + 4))
}

/// What a reader finds at an offset of the buffer.
pub enum Slot {
    /// A frame that lies inside the buffer, with its payload.
    Frame(Seq<u8>),
    /// The wrap sentinel.
    Wrap,
    /// Neither: no room for a prefix, or a frame that runs past the end.
    Broken,
}

pub open spec fn slot_at(buf: Seq<u8>, at: int) -> Slot {
    if at < 0 || at + 4 > buf.len() {
        Slot::Broken
    } else if u32_at(buf, at) == WRAP_SENTINEL {
        Slot::Wrap
    } else if at + 4 + u32_at(buf, at) > buf.len() {
        Slot::Broken
    } else {
        Slot::Frame(buf.subrange(at + 4, at + 4 + u32_at(buf, at)))
    }
}

/// One move of a reader that has not caught up with the writer.
pub enum Move {
    /// A payload is taken and the reader goes on at the given offset.
    Take(Seq<u8>, int),
    /// The reader can go no further and rests at the given offset.
    Rest(int),
}

pub open spec fn next_move(buf: Seq<u8>, write: int, at: int) -> Move {
    match slot_at(buf, at) {
        Slot::Frame(payload) => Move::Take(
            payload,
            (at + 4 + payload.len()) % (buf.len() as int),
        ),
        Slot::Broken => Move::Rest(at),
        Slot::Wrap => if write == 0 {
            Move::Rest(0)
        } else {
            match slot_at(buf, 0) {
                Slot::Frame(payload) => Move::Take(
                    payload,
                    (4int + payload.len()) % (buf.len() as int),
                ),
                _ => Move::Rest(0),
            }
        },
    }
}

/// The payloads a reader at `at` collects on its way to `write`, and where it
/// comes to rest; `None` if that takes more than `fuel` moves.
pub open spec fn walk(buf: Seq<u8>, write: int, at: int, fuel: nat) -> Option<
    (Seq<Seq<u8>>, int),
>
    decreases fuel,
{
    if at == write {
        Some((Seq::empty(), at))
    } else if fuel == 0 {
        None
    } else {
        match next_move(buf, write, at) {
            Move::Rest(end) => Some((Seq::empty(), end)),
            Move::Take(payload, next) => match walk(buf, write, next, (fuel - 1) as nat) {
                Some((rest, end)) => Some((seq![payload] + rest, end)),
                None => None,
            },
        }
    }
}

/// Number of moves after which a walk that has not ended never ends.
pub open spec fn walk_bound(buf: Seq<u8>) -> nat {
    buf.len() + 1
}

/// The payloads of the frames that tile `[from, to)` exactly, or `None`.
pub open spec fn run(buf: Seq<u8>, from: int, to: int) -> Option<Seq<Seq<u8>>>
    decreases to - from,
{
    if from == to {
        Some(Seq::empty())
    } else if from < 0 || from + 4 > to || to > buf.len() {
        None
    } else {
        let len = u32_at(buf, from);
        if len == WRAP_SENTINEL || from + 4 + len > to {
            None
        } else {
            match run(buf, from + 4 + len, to) {
                Some(rest) => Some(seq![buf.subrange(from + 4, from + 4 + len)] + rest),
                None => None,
            }
        }
    }
}

/// The tail of the buffer is given up at `at`: either it is empty, or it
/// starts with the sentinel.
pub open spec fn tail_closed(buf: Seq<u8>, at: int) -> bool {
    at == buf.len() || (0 <= at && at + 4 <= buf.len() && u32_at(buf, at) == WRAP_SENTINEL)
}

/// The frames from `read` round to `0` end at `turn`, those from `0` end at
/// `write`.
pub open spec fn wrapped_queue(
    buf: Seq<u8>,
    read: int,
    write: int,
    turn: int,
    queue: Seq<Seq<u8>>,
) -> bool {
    &&& read <= turn <= buf.len()
    &&& tail_closed(buf, turn)
    &&& run(buf, read, turn) is Some
    &&& run(buf, 0, write) is Some
    &&& queue == run(buf, read, turn)->0 + run(buf, 0, write)->0
}

/// `queue` is the sequence of payloads that wait between a read cursor and the
/// write cursor.
pub open spec fn holds_queue(buf: Seq<u8>, read: int, write: int, queue: Seq<Seq<u8>>) -> bool {
    if read <= write {
        &&& 0 <= read
        &&& write < buf.len() || read == write
        &&& run(buf, read, write) == Some(queue)
    } else {
        &&& 0 <= write
        &&& read < buf.len()
        &&& exists|turn: int| wrapped_queue(buf, read, write, turn, queue)
    }
}

/// `buf` with `bytes` stored from `at` on.
pub open spec fn put(buf: Seq<u8>, at: int, bytes: Seq<u8>) -> Seq<u8> {
    Seq::new(
        buf.len(),
        |i: int|
            if at <= i < at + bytes.len() {
                bytes[i - at]
            } else {
                buf[i]
            },
    )
}

/// Bytes that a frame with this payload takes.
pub open spec fn frame_len(payload: Seq<u8>) -> int {
    4int + payload.len()
}

/// A frame of `len` bytes cannot stand at `write`: it runs past the end, or it
/// leaves a tail too short for the sentinel.
pub open spec fn needs_wrap(cap: int, write: int, len: int) -> bool {
    write + len > cap || (write + len < cap && cap - (write + len) < 4)
}

/// Bytes that the write cursor moves over for a frame of `len` bytes.
pub open spec fn required_bytes(cap: int, write: int, len: int) -> int {
    if needs_wrap(cap, write, len) {
        cap - write + len
    } else {
        len
    }
}

/// Offset at which a frame of `len` bytes is placed.
pub open spec fn frame_offset(cap: int, write: int, len: int) -> int {
    if needs_wrap(cap, write, len) {
        0
    } else {
        write
    }
}

/// The buffer after a frame was stored.
pub open spec fn store_frame(buf: Seq<u8>, write: int, payload: Seq<u8>) -> Seq<u8> {
    let cap = buf.len() as int;
    let len = frame_len(payload);
    let closed = if needs_wrap(cap, write, len) && write != 0 {
        put(buf, write, spec_u32_to_le_bytes(WRAP_SENTINEL))
    } else {
        buf
    };
    let at = frame_offset(cap, write, len);
    put(put(closed, at, spec_u32_to_le_bytes(payload.len() as u32)), at + 4, payload)
}

/// The write cursor after a frame was stored.
pub open spec fn advance(cap: int, write: int, len: int) -> int {
    (frame_offset(cap, write, len) + len) % cap
}

/// Bytes in use between a read cursor and the write cursor.
pub open spec fn used_between(read: int, write: int, cap: int) -> int {
    if write >= read {
        write - read
    } else {
        cap - read + write
    }
}

/// A write cursor that a sequence of stored frames can leave behind: the tail
/// behind it has room for the sentinel.
pub open spec fn write_cursor_ok(cap: int, write: int) -> bool {
    write == 0 || (0 < write && write + 4 <= cap)
}

/// Two buffers agree on `[from, to)`.
spec fn same_bytes(a: Seq<u8>, b: Seq<u8>, from: int, to: int) -> bool {
    &&& a.len() == b.len()
    &&& forall|i: int| from <= i < to ==> a[i] == b[i]
}

proof fn lemma_u32_same(a: Seq<u8>, b: Seq<u8>, at: int)
    requires
        0 <= at,
        at + 4 <= a.len(),
        same_bytes(a, b, at, at + 4),
    ensures
        u32_at(a, at) == u32_at(b, at),
{
    assert(a.subrange(at, at + 4) =~= b.subrange(at, at + 4));
}

/// A run depends only on the bytes that it covers.
proof fn lemma_run_same(a: Seq<u8>, b: Seq<u8>, from: int, to: int)
    requires
        0 <= from <= to <= a.len(),
        same_bytes(a, b, from, to),
    ensures
        run(a, from, to) == run(b, from, to),
    decreases to - from,
{
    if from < to && from + 4 <= to {
        lemma_u32_same(a, b, from);
        let len = u32_at(a, from);
        if len != WRAP_SENTINEL && from + 4 + len <= to {
            lemma_run_same(a, b, from + 4 + len, to);
            assert(a.subrange(from + 4, from + 4 + len) =~= b.subrange(from + 4, from + 4 + len));
        }
    }
}

/// A run followed by one more frame is a run.
proof fn lemma_run_append(buf: Seq<u8>, from: int, mid: int, payload: Seq<u8>)
    requires
        0 <= from <= mid,
        mid + 4 + payload.len() <= buf.len(),
        run(buf, from, mid) is Some,
        slot_at(buf, mid) == Slot::Frame(payload),
    ensures
        run(buf, from, mid + 4 + payload.len()) == Some(run(buf, from, mid)->0.push(payload)),
    decreases mid - from,
{
    let to = mid + 4 + payload.len();
    let len = u32_at(buf, from);
    if from == mid {
        assert(buf.subrange(from + 4, from + 4 + len).len() == len);
        assert(payload.len() == len);
        assert(run(buf, to, to) == Some(Seq::<Seq<u8>>::empty()));
        assert(run(buf, from, to)->0 =~= Seq::<Seq<u8>>::empty().push(payload));
    } else {
        lemma_run_append(buf, from + 4 + len, mid, payload);
        let head = buf.subrange(from + 4, from + 4 + len);
        let rest = run(buf, from + 4 + len, mid)->0;
        assert(seq![head] + rest.push(payload) =~= (seq![head] + rest).push(payload));
    }
}

proof fn lemma_run_len(buf: Seq<u8>, from: int, to: int)
    requires
        0 <= from <= to,
        run(buf, from, to) is Some,
    ensures
        4 * run(buf, from, to)->0.len() <= to - from,
    decreases to - from,
{
    if from < to {
        let len = u32_at(buf, from);
        lemma_run_len(buf, from + 4 + len, to);
    }
}

/// More fuel does not change a walk that ended.
proof fn lemma_walk_fuel(buf: Seq<u8>, write: int, at: int, fuel: nat, more: nat)
    requires
        fuel <= more,
        walk(buf, write, at, fuel) is Some,
    ensures
        walk(buf, write, at, more) == walk(buf, write, at, fuel),
    decreases fuel,
{
    if at != write {
        match next_move(buf, write, at) {
            Move::Rest(_) => {},
            Move::Take(_, next) => {
                lemma_walk_fuel(buf, write, next, (fuel - 1) as nat, (more - 1) as nat);
            },
        }
    }
}

/// A reader walks over a run that the write cursor does not interrupt.
proof fn lemma_walk_run(buf: Seq<u8>, write: int, from: int, to: int, fuel: nat)
    requires
        0 <= from <= to <= buf.len(),
        run(buf, from, to) is Some,
        write < from || to <= write,
        walk(buf, write, if to == buf.len() && from < to { 0 } else { to }, fuel) is Some,
    ensures
        ({
            let queue = run(buf, from, to)->0;
            let rest = walk(buf, write, if to == buf.len() && from < to { 0 } else { to }, fuel)->0;
            walk(buf, write, from, fuel + queue.len()) == Some((queue + rest.0, rest.1))
        }),
    decreases to - from,
{
    let queue = run(buf, from, to)->0;
    let after = if to == buf.len() && from < to { 0 } else { to };
    let rest = walk(buf, write, after, fuel)->0;
    if from == to {
        assert(queue + rest.0 =~= rest.0);
    } else {
        let len = u32_at(buf, from);
        let next = from + 4 + len;
        let head = buf.subrange(from + 4, next);
        let tail = run(buf, next, to)->0;
        assert(slot_at(buf, from) == Slot::Frame(head));
        if next == to {
            assert(tail =~= Seq::empty());
            assert(queue =~= seq![head]);
            if to == buf.len() {
                assert(next % (buf.len() as int) == 0) by (nonlinear_arith)
                    requires next == buf.len(), buf.len() > 0;
            } else {
                vstd::arithmetic::div_mod::lemma_small_mod(next as nat, buf.len());
            }
            assert(next_move(buf, write, from) == Move::Take(head, after));
            assert(queue.len() == 1);
            assert(walk(buf, write, from, fuel + 1) == Some((seq![head] + rest.0, rest.1)));
        } else {
            vstd::arithmetic::div_mod::lemma_small_mod(next as nat, buf.len());
            lemma_walk_run(buf, write, next, to, fuel);
            assert(next_move(buf, write, from) == Move::Take(head, next));
            assert(queue.len() == tail.len() + 1);
            assert(walk(buf, write, from, fuel + queue.len()) == Some(
                (seq![head] + (tail + rest.0), rest.1),
            ));
            assert(seq![head] + (tail + rest.0) =~= queue + rest.0);
        }
    }
}

/// A reader at the sentinel goes on with the frames from offset 0.
proof fn lemma_walk_turn(buf: Seq<u8>, write: int, turn: int)
    requires
        0 <= write < turn,
        turn + 4 <= buf.len(),
        u32_at(buf, turn) == WRAP_SENTINEL,
        run(buf, 0, write) is Some,
    ensures
        walk(buf, write, turn, run(buf, 0, write)->0.len() + 1) == Some(
            (run(buf, 0, write)->0, write),
        ),
{
    let queue = run(buf, 0, write)->0;
    assert(slot_at(buf, turn) == Slot::Wrap);
    if write == 0 {
        assert(queue =~= Seq::empty());
    } else {
        let len = u32_at(buf, 0);
        let next = 4 + len;
        let head = buf.subrange(4, next);
        let tail = run(buf, next, write)->0;
        assert(slot_at(buf, 0) == Slot::Frame(head));
        assert(queue =~= seq![head] + tail);
        vstd::arithmetic::div_mod::lemma_small_mod(next as nat, buf.len());
        assert(next_move(buf, write, turn) == Move::Take(head, next));
        lemma_walk_run(buf, write, next, write, 0);
        assert(tail + Seq::<Seq<u8>>::empty() =~= tail);
        lemma_walk_fuel(buf, write, next, tail.len(), queue.len());
    }
}

/// A reader behind a queue collects exactly that queue, in order, and comes to
/// rest at the write cursor.
pub proof fn law_walk_collects_queue(
    buf: Seq<u8>,
    read: int,
    write: int,
    queue: Seq<Seq<u8>>,
)
    requires
        holds_queue(buf, read, write, queue),
    ensures
        walk(buf, write, read, walk_bound(buf)) == Some((queue, write)),
{
    let bound = walk_bound(buf);
    if read == write {
        assert(queue =~= Seq::empty());
    } else if read < write {
        lemma_walk_run(buf, write, read, write, 0);
        lemma_run_len(buf, read, write);
        assert(queue + Seq::<Seq<u8>>::empty() =~= queue);
        lemma_walk_fuel(buf, write, read, queue.len(), bound);
    } else {
        let turn = choose|turn: int| wrapped_queue(buf, read, write, turn, queue);
        let first = run(buf, read, turn)->0;
        let second = run(buf, 0, write)->0;
        lemma_run_len(buf, read, turn);
        lemma_run_len(buf, 0, write);
        lemma_walk_run(buf, write, 0, write, 0);
        assert(second + Seq::<Seq<u8>>::empty() =~= second);
        let half = second.len();
        if turn == buf.len() {
            lemma_walk_run(buf, write, read, turn, half);
            lemma_walk_fuel(buf, write, read, half + first.len(), bound);
        } else {
            lemma_walk_turn(buf, write, turn);
            lemma_walk_run(buf, write, read, turn, half + 1);
            lemma_walk_fuel(buf, write, read, half + 1 + first.len(), bound);
        }
    }
}

/// What is stored at `at` is a frame with this payload.
proof fn lemma_frame_stored(buf: Seq<u8>, at: int, payload: Seq<u8>)
    requires
        0 <= at,
        at + 4 + payload.len() <= buf.len(),
        payload.len() < WRAP_SENTINEL,
    ensures
        slot_at(
            put(put(buf, at, spec_u32_to_le_bytes(payload.len() as u32)), at + 4, payload),
            at,
        ) == Slot::Frame(payload),
{
    lemma_auto_spec_u32_to_from_le_bytes();
    let prefix = spec_u32_to_le_bytes(payload.len() as u32);
    let stored = put(put(buf, at, prefix), at + 4, payload);
    assert(prefix.len() == 4);
    assert(stored.subrange(at, at + 4) =~= prefix);
    assert(stored.subrange(at + 4, at + 4 + payload.len()) =~= payload);
}

/// Storing a frame in the free part of the buffer appends its payload to the
/// queue of a reader and leaves what already waited as it was.
pub proof fn law_store_appends(
    buf: Seq<u8>,
    read: int,
    write: int,
    queue: Seq<Seq<u8>>,
    payload: Seq<u8>,
)
    requires
        holds_queue(buf, read, write, queue),
        write_cursor_ok(buf.len() as int, write),
        buf.len() <= u32::MAX,
        frame_len(payload) <= buf.len() - 4,
        required_bytes(buf.len() as int, write, frame_len(payload)) <= buf.len() - used_between(
            read,
            write,
            buf.len() as int,
        ) - 1,
    ensures
        holds_queue(
            store_frame(buf, write, payload),
            read,
            advance(buf.len() as int, write, frame_len(payload)),
            queue.push(payload),
        ),
        write_cursor_ok(
            buf.len() as int,
            advance(buf.len() as int, write, frame_len(payload)),
        ),
{
    let cap = buf.len() as int;
    let len = frame_len(payload);
    let stored = store_frame(buf, write, payload);
    let at = frame_offset(cap, write, len);
    let end = at + len;
    lemma_auto_spec_u32_to_from_le_bytes();
    let mark = spec_u32_to_le_bytes(WRAP_SENTINEL);
    let closed = if needs_wrap(cap, write, len) && write != 0 {
        put(buf, write, mark)
    } else {
        buf
    };
    assert(mark.len() == 4);
    lemma_frame_stored(closed, at, payload);
    if end < cap {
        vstd::arithmetic::div_mod::lemma_small_mod(end as nat, cap as nat);
    } else {
        assert(end % cap == 0) by (nonlinear_arith)
            requires end == cap, cap > 0;
    }
    if needs_wrap(cap, write, len) {
        assert(read <= write);
        assert(write != 0);
        lemma_run_same(buf, stored, read, write);
        assert(stored.subrange(write, write + 4) =~= mark);
        assert(u32_at(stored, write) == WRAP_SENTINEL);
        lemma_run_append(stored, 0, 0, payload);
        assert(run(stored, 0, end) == Some(Seq::<Seq<u8>>::empty().push(payload)));
        assert(queue + Seq::<Seq<u8>>::empty().push(payload) =~= queue.push(payload));
        assert(wrapped_queue(stored, read, end, write, queue.push(payload)));
    } else if read <= write {
        lemma_run_same(buf, stored, read, write);
        lemma_run_append(stored, read, write, payload);
        if end == cap {
            assert(run(stored, 0, 0) == Some(Seq::<Seq<u8>>::empty()));
            assert(queue.push(payload) + Seq::<Seq<u8>>::empty() =~= queue.push(payload));
            assert(wrapped_queue(stored, read, 0, cap, queue.push(payload)));
        }
    } else {
        let turn = choose|turn: int| wrapped_queue(buf, read, write, turn, queue);
        let first = run(buf, read, turn)->0;
        let second = run(buf, 0, write)->0;
        lemma_run_same(buf, stored, read, turn);
        lemma_run_same(buf, stored, 0, write);
        lemma_run_append(stored, 0, write, payload);
        if turn != cap {
            lemma_u32_same(buf, stored, turn);
        }
        assert(first + second.push(payload) =~= queue.push(payload));
        assert(wrapped_queue(stored, read, end, turn, queue.push(payload)));
    }
}

/// Where a reader stands after `moves` moves.
spec fn position_after(buf: Seq<u8>, write: int, at: int, moves: nat) -> int
    decreases moves,
{
    if moves == 0 {
        at
    } else {
        match next_move(buf, write, at) {
            Move::Take(_, next) => position_after(buf, write, next, (moves - 1) as nat),
            Move::Rest(end) => end,
        }
    }
}

proof fn lemma_walk_none_suffix(buf: Seq<u8>, write: int, at: int, fuel: nat, moves: nat)
    requires
        walk(buf, write, at, fuel) is None,
        moves <= fuel,
    ensures
        walk(buf, write, position_after(buf, write, at, moves), (fuel - moves) as nat) is None,
    decreases moves,
{
    if moves > 0 {
        match next_move(buf, write, at) {
            Move::Take(_, next) => {
                lemma_walk_none_suffix(
                    buf,
                    write,
                    next,
                    (fuel - 1) as nat,
                    (moves - 1) as nat,
                );
            },
            Move::Rest(_) => {},
        }
    }
}

proof fn lemma_walk_none_join(buf: Seq<u8>, write: int, at: int, fuel: nat, moves: nat)
    requires
        moves <= fuel,
        walk(buf, write, at, moves) is None,
        walk(buf, write, position_after(buf, write, at, moves), (fuel - moves) as nat) is None,
    ensures
        walk(buf, write, at, fuel) is None,
    decreases moves,
{
    if moves > 0 {
        match next_move(buf, write, at) {
            Move::Take(_, next) => {
                lemma_walk_none_join(
                    buf,
                    write,
                    next,
                    (fuel - 1) as nat,
                    (moves - 1) as nat,
                );
            },
            Move::Rest(_) => {},
        }
    }
}

proof fn lemma_position_split(buf: Seq<u8>, write: int, at: int, first: nat, then: nat)
    requires
        walk(buf, write, at, first) is None,
    ensures
        position_after(buf, write, at, first + then) == position_after(
            buf,
            write,
            position_after(buf, write, at, first),
            then,
        ),
    decreases first,
{
    if first > 0 {
        match next_move(buf, write, at) {
            Move::Take(_, next) => {
                lemma_position_split(buf, write, next, (first - 1) as nat, then);
            },
            Move::Rest(_) => {},
        }
    }
}

/// A walk that comes back to where it was never ends.
proof fn lemma_cycle_never_ends(buf: Seq<u8>, write: int, at: int, period: nat, fuel: nat)
    requires
        period > 0,
        walk(buf, write, at, period) is None,
        position_after(buf, write, at, period) == at,
    ensures
        walk(buf, write, at, fuel) is None,
    decreases fuel,
{
    if fuel <= period {
        if walk(buf, write, at, fuel) is Some {
            lemma_walk_fuel(buf, write, at, fuel, period);
        }
    } else {
        lemma_cycle_never_ends(buf, write, at, period, (fuel - period) as nat);
        lemma_walk_none_join(buf, write, at, fuel, period);
    }
}

/// A walk that ends at all ends within `walk_bound` moves: one that is still
/// going after that many moves has come back to an earlier offset and goes
/// round for ever.
pub proof fn law_walk_bound(buf: Seq<u8>, write: int, at: int, fuel: nat)
    requires
        walk(buf, write, at, walk_bound(buf)) is None,
    ensures
        walk(buf, write, at, fuel) is None,
{
    let bound = walk_bound(buf);
    let cap = buf.len() as int;
    let spots = Seq::new(bound, |k: int| position_after(buf, write, at, k as nat));
    assert forall|k: int| 0 <= k < bound implies 0 <= #[trigger] spots[k] < cap by {
        lemma_walk_none_suffix(buf, write, at, bound, k as nat);
    }
    if spots.no_duplicates() {
        spots.unique_seq_to_set();
        vstd::set_lib::lemma_int_range(0, cap);
        assert(spots.to_set().subset_of(vstd::set_lib::set_int_range(0, cap)));
        vstd::set_lib::lemma_len_subset(spots.to_set(), vstd::set_lib::set_int_range(0, cap));
        assert(false);
    }
    let (i, j) = choose|i: int, j: int|
        0 <= i < j < spots.len() && #[trigger] spots[i] == #[trigger] spots[j];
    assert(0 <= i < j < spots.len() && spots[i] == spots[j]);
    let loop_start = spots[i];
    let period = (j - i) as nat;
    lemma_walk_none_suffix(buf, write, at, bound, i as nat);
    if walk(buf, write, at, i as nat) is Some {
        lemma_walk_fuel(buf, write, at, i as nat, bound);
    }
    lemma_position_split(buf, write, at, i as nat, period);
    if walk(buf, write, loop_start, period) is Some {
        lemma_walk_fuel(buf, write, loop_start, period, (bound - i) as nat);
    }
    if fuel < i {
        if walk(buf, write, at, fuel) is Some {
            lemma_walk_fuel(buf, write, at, fuel, i as nat);
        }
    } else {
        lemma_cycle_never_ends(buf, write, loop_start, period, (fuel - i) as nat);
        lemma_walk_none_join(buf, write, at, fuel, i as nat);
    }
}

} // verus!
