//! Splitting file content into chunks for transfer.

use crate::event::{event_views, EventView, SyncEvent};
use crate::path::{Part, SyncPath};
use vstd::prelude::*;
use vstd::slice::{slice_subrange, slice_to_vec};

verus! {

/// Default chunk size for file content transfer (64 KiB).
pub const DEFAULT_CHUNK_SIZE: usize = 65536;

/// The content events of `data` from `from` on: chunks of `chunk_size` bytes,
/// the last one possibly shorter.
pub open spec fn chunks_from(path: Seq<Part>, data: Seq<u8>, chunk_size: nat, from: nat) -> Seq<
    EventView,
>
    decreases data.len() - from,
{
    if chunk_size == 0 || from >= data.len() {
        Seq::empty()
    } else {
        let to = if from + chunk_size < data.len() {
            from + chunk_size
        } else {
            data.len()
        };
        seq![
            EventView::FileContent {
                path,
                offset: from as u64,
                data: data.subrange(from as int, to as int),
            },
        ] + chunks_from(path, data, chunk_size, to)
    }
}

/// The content events that stand for `data`; empty data is one empty chunk.
pub open spec fn content_events(path: Seq<Part>, data: Seq<u8>, chunk_size: nat) -> Seq<
    EventView,
> {
    if data.len() == 0 {
        seq![EventView::FileContent { path, offset: 0, data: Seq::empty() }]
    } else {
        chunks_from(path, data, chunk_size, 0)
    }
}

/// The content events for file data that was already read.
pub fn chunk_data(relative_path: &SyncPath, data: &[u8], chunk_size: usize) -> (events: Vec<
    SyncEvent,
>)
    requires
        chunk_size > 0,
    ensures
        event_views(events@) == content_events(relative_path@, data@, chunk_size as nat),
{
    let mut events: Vec<SyncEvent> = Vec::new();
    let mut from: usize = 0;
    assert(event_views(events@) =~= Seq::empty());
    assert(event_views(events@) + chunks_from(relative_path@, data@, chunk_size as nat, 0)
        =~= chunks_from(relative_path@, data@, chunk_size as nat, 0));
    while from < data.len()
        invariant
            from <= data.len(),
            chunk_size > 0,
            from == 0 ==> events@.len() == 0,
            chunks_from(relative_path@, data@, chunk_size as nat, 0) == event_views(events@)
                + chunks_from(relative_path@, data@, chunk_size as nat, from as nat),
        decreases data.len() - from,
    {
        let to: usize = if data.len() - from > chunk_size {
            from + chunk_size
        } else {
            data.len()
        };
        let ghost before = events@;
        let event = SyncEvent::FileContent {
            path: relative_path.clone(),
            offset: from as u64,
            data: slice_to_vec(slice_subrange(data, from, to)),
        };
        events.push(event);
        proof {
            let rest = chunks_from(relative_path@, data@, chunk_size as nat, to as nat);
            assert(event_views(events@) =~= event_views(before) + seq![event@]);
            assert(event_views(before) + (seq![event@] + rest) =~= event_views(events@) + rest);
        }
        from = to;
    }
    if data.len() == 0 {
        let empty: Vec<u8> = Vec::new();
        events.push(
            SyncEvent::FileContent { path: relative_path.clone(), offset: 0, data: empty },
        );
        assert(event_views(events@) =~= content_events(
            relative_path@,
            data@,
            chunk_size as nat,
        ));
    } else {
        assert(event_views(events@) + Seq::<EventView>::empty() =~= event_views(events@));
    }
    events
}

/// File content `content` after a chunk was written at its offset, growing the
/// file with zeros where the chunk starts behind its end.
pub open spec fn write_at(content: Seq<u8>, offset: int, data: Seq<u8>) -> Seq<u8> {
    let end = offset + data.len();
    Seq::new(
        if data.len() == 0 || end <= content.len() {
            content.len()
        } else {
            end as nat
        },
        |i: int|
            if offset <= i < end {
                data[i - offset]
            } else if i < content.len() {
                content[i]
            } else {
                0u8
            },
    )
}

/// File content after a sequence of content events was written one by one.
pub open spec fn replay(content: Seq<u8>, events: Seq<EventView>) -> Seq<u8>
    decreases events.len(),
{
    if events.len() == 0 {
        content
    } else {
        match events[0] {
            EventView::FileContent { offset, data, .. } => replay(
                write_at(content, offset as int, data),
                events.skip(1),
            ),
            _ => replay(content, events.skip(1)),
        }
    }
}

proof fn lemma_replay_chunks(path: Seq<Part>, data: Seq<u8>, chunk_size: nat, from: nat)
    requires
        chunk_size > 0,
        from <= data.len() <= u64::MAX,
    ensures
        replay(data.take(from as int), chunks_from(path, data, chunk_size, from)) == data,
    decreases data.len() - from,
{
    let events = chunks_from(path, data, chunk_size, from);
    if from < data.len() {
        let to = if from + chunk_size < data.len() {
            from + chunk_size
        } else {
            data.len()
        };
        lemma_replay_chunks(path, data, chunk_size, to);
        assert(events.skip(1) =~= chunks_from(path, data, chunk_size, to));
        assert(write_at(
            data.take(from as int),
            from as int,
            data.subrange(from as int, to as int),
        ) =~= data.take(to as int));
    } else {
        assert(data.take(from as int) =~= data);
    }
}

/// Writing the chunks of some data one after the other into an empty file
/// gives back the data.
pub proof fn law_chunks_rebuild_data(path: Seq<Part>, data: Seq<u8>, chunk_size: nat)
    requires
        chunk_size > 0,
        data.len() <= u64::MAX,
    ensures
        replay(Seq::empty(), content_events(path, data, chunk_size)) == data,
{
    if data.len() == 0 {
        let events = content_events(path, data, chunk_size);
        assert(events.skip(1) =~= Seq::empty());
        assert(write_at(Seq::empty(), 0, Seq::empty()) =~= data);
        assert(replay(data, events.skip(1)) == data);
    } else {
        lemma_replay_chunks(path, data, chunk_size, 0);
        assert(data.take(0) =~= Seq::empty());
    }
}

/// Every chunk but the last is full, none is longer than the chunk size, and
/// each starts where the one before it ends.
pub proof fn law_chunk_layout(path: Seq<Part>, data: Seq<u8>, chunk_size: nat, index: int)
    requires
        chunk_size > 0,
        data.len() <= u64::MAX,
        0 <= index < content_events(path, data, chunk_size).len(),
    ensures
        content_events(path, data, chunk_size)[index] matches EventView::FileContent {
            path: p,
            offset,
            data: d,
        } && p == path && offset == index * chunk_size && d.len() <= chunk_size && (index
            + 1 < content_events(path, data, chunk_size).len() ==> d.len() == chunk_size),
{
    if data.len() > 0 {
        lemma_chunk_layout(path, data, chunk_size, 0, index);
    }
}

proof fn lemma_chunk_layout(
    path: Seq<Part>,
    data: Seq<u8>,
    chunk_size: nat,
    from: nat,
    index: int,
)
    requires
        chunk_size > 0,
        from <= data.len() <= u64::MAX,
        0 <= index < chunks_from(path, data, chunk_size, from).len(),
    ensures
        chunks_from(path, data, chunk_size, from)[index] matches EventView::FileContent {
            path: p,
            offset,
            data: d,
        } && p == path && offset == from + index * chunk_size && d.len() <= chunk_size && (
        index + 1 < chunks_from(path, data, chunk_size, from).len() ==> d.len() == chunk_size),
    decreases data.len() - from,
{
    let to = if from + chunk_size < data.len() {
        from + chunk_size
    } else {
        data.len()
    };
    let rest = chunks_from(path, data, chunk_size, to);
    if index > 0 {
        assert(rest.len() > 0);
        lemma_chunk_layout(path, data, chunk_size, to, index - 1);
        assert((index - 1) * chunk_size + chunk_size == index * chunk_size) by (nonlinear_arith);
    } else {
        assert(index * chunk_size == 0) by (nonlinear_arith)
            requires index == 0;
        if rest.len() > 0 {
            assert(to < data.len());
        }
    }
}

/// Chunk number `index` holds the bytes of the file from its offset on, up to the
/// chunk size or the end of the file, and there are as many chunks as it takes to
/// get there: one for an empty file.
pub proof fn law_chunks_hold_the_data(path: Seq<Part>, data: Seq<u8>, chunk_size: nat, index: int)
    requires
        chunk_size > 0,
        data.len() <= u64::MAX,
    ensures
        ({
            let events = content_events(path, data, chunk_size);
            let from = index * chunk_size;
            let to = if from + chunk_size <= data.len() {
                from + chunk_size
            } else {
                data.len() as int
            };
            &&& 0 <= index < events.len() <==> index == 0 || (0 < index && from < data.len())
            &&& 0 <= index < events.len() ==> events[index] == (EventView::FileContent {
                path,
                offset: from as u64,
                data: data.subrange(from, to),
            })
        }),
{
    let events = content_events(path, data, chunk_size);
    assert(index == 0 ==> index * chunk_size == 0) by (nonlinear_arith);
    assert(index > 0 ==> index * chunk_size >= index) by (nonlinear_arith)
        requires
            chunk_size > 0,
    ;
    if data.len() == 0 {
        assert(data.subrange(0, 0) =~= Seq::empty());
    } else if index >= 0 {
        lemma_chunks_hold(path, data, chunk_size, 0, index);
    }
}

proof fn lemma_chunks_hold(path: Seq<Part>, data: Seq<u8>, chunk_size: nat, from: nat, index: int)
    requires
        chunk_size > 0,
        from <= data.len() <= u64::MAX,
        index >= 0,
    ensures
        ({
            let events = chunks_from(path, data, chunk_size, from);
            let start = from + index * chunk_size;
            let to = if start + chunk_size <= data.len() {
                start + chunk_size
            } else {
                data.len() as int
            };
            &&& index < events.len() <==> start < data.len()
            &&& index < events.len() ==> events[index] == (EventView::FileContent {
                path,
                offset: start as u64,
                data: data.subrange(start, to),
            })
        }),
    decreases data.len() - from,
{
    assert(index * chunk_size >= 0) by (nonlinear_arith)
        requires
            index >= 0,
    ;
    if from < data.len() {
        let to = if from + chunk_size < data.len() {
            from + chunk_size
        } else {
            data.len()
        };
        if index > 0 {
            assert((index - 1) * chunk_size + chunk_size == index * chunk_size)
                by (nonlinear_arith);
            assert((index - 1) * chunk_size >= 0) by (nonlinear_arith)
                requires
                    index > 0,
            ;
            lemma_chunks_hold(path, data, chunk_size, to, index - 1);
        } else {
            assert(index * chunk_size == 0) by (nonlinear_arith)
                requires
                    index == 0,
            ;
        }
    }
}

/// Writing at an offset puts the data there and changes no other byte; a gap
/// before it is filled with zeros, and no data makes no file longer.
pub proof fn law_writing_at_an_offset(content: Seq<u8>, offset: int, data: Seq<u8>, i: int)
    requires
        offset >= 0,
    ensures
        ({
            let after = write_at(content, offset, data);
            &&& data.len() == 0 ==> after == content
            &&& data.len() > 0 ==> after.len() == (if offset + data.len() > content.len() {
                offset + data.len()
            } else {
                content.len() as int
            })
            &&& offset <= i < offset + data.len() ==> after[i] == data[i - offset]
            &&& 0 <= i < content.len() && !(offset <= i < offset + data.len()) ==> after[i]
                == content[i]
            &&& content.len() <= i < offset && data.len() > 0 ==> after[i] == 0u8
        }),
{
    if data.len() == 0 {
        assert(write_at(content, offset, data) =~= content);
    }
}

} // verus!
