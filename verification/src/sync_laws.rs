//! Laws of [`crate::sync`]: what the sync loop does over a whole round.

use crate::cli::Role;
use crate::event::{EnvelopeView, EventView};
use crate::sync;
use crate::sync::{LoopActionView, LoopNewsView, RoundView, SyncEngine};
use vstd::prelude::*;

verus! {

/// The step of the loop after a pop and so many events that were applied.
pub open spec fn after_pop(
    engine: SyncEngine,
    round: RoundView,
    envelopes: Seq<EnvelopeView>,
    now: u64,
    applied: nat,
) -> (SyncEngine, (RoundView, LoopActionView))
    decreases applied,
{
    if applied == 0 {
        sync::loop_step(engine, round, LoopNewsView::Popped { envelopes, now })
    } else {
        let before = after_pop(engine, round, envelopes, now, (applied - 1) as nat);
        sync::loop_step(before.0, before.1.0, LoopNewsView::Applied { ok: true })
    }
}

/// The envelopes of a list that another instance sent.
pub open spec fn foreign(id: u64, envelopes: Seq<EnvelopeView>) -> Seq<EnvelopeView>
    decreases envelopes.len(),
{
    if envelopes.len() == 0 {
        Seq::empty()
    } else {
        let before = foreign(id, envelopes.drop_last());
        if envelopes.last().instance_id == id {
            before
        } else {
            before.push(envelopes.last())
        }
    }
}

/// Of the envelopes in the ring all those that another instance sent are taken,
/// each once and in order, and no other.
pub proof fn law_all_foreign_envelopes_are_taken(id: u64, envelopes: Seq<EnvelopeView>)
    ensures
        sync::from_others(id, envelopes) == foreign(id, envelopes),
    decreases envelopes.len(),
{
    reveal(Seq::filter);
    if envelopes.len() > 0 {
        law_all_foreign_envelopes_are_taken(id, envelopes.drop_last());
    } else {
        assert(sync::from_others(id, envelopes) =~= Seq::empty());
    }
}

proof fn lemma_after_pop(
    engine: SyncEngine,
    round: RoundView,
    envelopes: Seq<EnvelopeView>,
    now: u64,
    applied: nat,
)
    requires
        applied <= foreign(engine.instance_id, envelopes).len(),
    ensures
        ({
            let all = foreign(engine.instance_id, envelopes);
            let step = after_pop(engine, round, envelopes, now, applied);
            &&& step.0.instance_id == engine.instance_id
            &&& step.0 == after_pop(engine, round, envelopes, now, 0).0
            &&& step.1.0.local == round.local
            &&& step.1.0.remote == all.len()
            &&& step.1.0.to_send == round.to_send
            &&& applied < all.len() ==> step.1.0.to_apply == all.skip(applied as int + 1)
            &&& applied < all.len() ==> step.1.1 == (LoopActionView::Apply {
                event: all[applied as int].event,
                timestamp: all[applied as int].timestamp,
            })
            &&& applied == all.len() ==> step.1.0.to_apply.len() == 0 && step.1.1 == (
            if round.local == 0 && all.len() == 0 {
                LoopActionView::Pause(10)
            } else {
                LoopActionView::Collect(100)
            })
        }),
    decreases applied,
{
    let all = foreign(engine.instance_id, envelopes);
    law_all_foreign_envelopes_are_taken(engine.instance_id, envelopes);
    if applied > 0 {
        let fewer = (applied - 1) as nat;
        lemma_after_pop(engine, round, envelopes, now, fewer);
        let before = after_pop(engine, round, envelopes, now, fewer);
        assert(before.1.0.to_apply == all.skip(applied as int));
        if applied < all.len() {
            assert(all.skip(applied as int)[0] == all[applied as int]);
            assert(all.skip(applied as int).skip(1) =~= all.skip(applied as int + 1));
        }
    }
}

/// All events that the other side sent are applied, each once, in the order of the
/// ring and with the time at which it was sent, as long as each succeeds. Then the
/// next round begins, after a pause of 10 ms if this one saw nothing at all.
pub proof fn law_popped_events_are_applied(
    engine: SyncEngine,
    round: RoundView,
    envelopes: Seq<EnvelopeView>,
    now: u64,
    applied: nat,
)
    requires
        applied <= foreign(engine.instance_id, envelopes).len(),
    ensures
        ({
            let all = foreign(engine.instance_id, envelopes);
            let action = after_pop(engine, round, envelopes, now, applied).1.1;
            &&& applied < all.len() ==> action == (LoopActionView::Apply {
                event: all[applied as int].event,
                timestamp: all[applied as int].timestamp,
            })
            &&& applied == all.len() && (round.local > 0 || all.len() > 0) ==> action
                == LoopActionView::Collect(100)
            &&& applied == all.len() && round.local == 0 && all.len() == 0 ==> action
                == LoopActionView::Pause(10)
        }),
{
    lemma_after_pop(engine, round, envelopes, now, applied);
}

/// An event that fails ends the round: none of the events behind it is applied,
/// and the next round begins.
pub proof fn law_failed_event_ends_the_round(
    engine: SyncEngine,
    round: RoundView,
    envelopes: Seq<EnvelopeView>,
    now: u64,
    applied: nat,
)
    requires
        applied < foreign(engine.instance_id, envelopes).len(),
    ensures
        ({
            let before = after_pop(engine, round, envelopes, now, applied);
            let after = sync::loop_step(
                before.0,
                before.1.0,
                LoopNewsView::Applied { ok: false },
            );
            &&& after.0 == before.0
            &&& after.1.1 == LoopActionView::Collect(100)
            &&& after.1.0.to_apply.len() == 0
        }),
{
    lemma_after_pop(engine, round, envelopes, now, applied);
}

/// The step of the loop after a collection and so many events that were sent.
pub open spec fn after_collection(
    engine: SyncEngine,
    round: RoundView,
    events: Seq<EventView>,
    now: u64,
    timestamp: i64,
    sent: nat,
) -> (SyncEngine, (RoundView, LoopActionView))
    decreases sent,
{
    if sent == 0 {
        sync::loop_step(engine, round, LoopNewsView::Collected { events, now, timestamp })
    } else {
        let before = after_collection(engine, round, events, now, timestamp, (sent - 1) as nat);
        sync::loop_step(before.0, before.1.0, LoopNewsView::Pushed)
    }
}

/// All local events that were collected are sent, each once and in order, then a
/// sign of life if the last one is 5 s old, and only then the ring is read. That
/// nothing was collected is remembered until the end of the round.
pub proof fn law_collected_events_go_out(
    engine: SyncEngine,
    round: RoundView,
    events: Seq<EventView>,
    now: u64,
    timestamp: i64,
    sent: nat,
)
    requires
        sent <= events.len() + (if now - engine.last_beat >= 5000 {
            1int
        } else {
            0
        }),
    ensures
        ({
            let due = now - engine.last_beat >= 5000;
            let step = after_collection(engine, round, events, now, timestamp, sent);
            &&& sent < events.len() ==> step.1.1 == LoopActionView::Push(events[sent as int])
            &&& sent == events.len() && due ==> step.1.1 == LoopActionView::Push(
                EventView::Heartbeat { timestamp },
            )
            &&& sent == events.len() && !due ==> step.1.1 == LoopActionView::Pop
            &&& sent > events.len() ==> step.1.1 == LoopActionView::Pop
            &&& step.0.last_beat == (if due {
                now
            } else {
                engine.last_beat
            })
            &&& step.0.last_seen == engine.last_seen
            &&& step.1.0.local == events.len()
        }),
    decreases sent,
{
    lemma_after_collection(engine, round, events, now, timestamp, sent);
}

proof fn lemma_after_collection(
    engine: SyncEngine,
    round: RoundView,
    events: Seq<EventView>,
    now: u64,
    timestamp: i64,
    sent: nat,
)
    requires
        sent <= sync::with_heartbeat(engine, events, now, timestamp).1.len(),
    ensures
        ({
            let all = sync::with_heartbeat(engine, events, now, timestamp).1;
            let step = after_collection(engine, round, events, now, timestamp, sent);
            &&& step.0 == sync::with_heartbeat(engine, events, now, timestamp).0
            &&& step.1.0.local == events.len()
            &&& sent < all.len() ==> step.1.0.to_send == all.skip(sent as int + 1) && step.1.1
                == LoopActionView::Push(all[sent as int])
            &&& sent == all.len() ==> step.1.0.to_send.len() == 0 && step.1.1
                == LoopActionView::Pop
        }),
    decreases sent,
{
    let all = sync::with_heartbeat(engine, events, now, timestamp).1;
    if sent > 0 {
        let fewer = (sent - 1) as nat;
        lemma_after_collection(engine, round, events, now, timestamp, fewer);
        if sent < all.len() {
            assert(all.skip(sent as int)[0] == all[sent as int]);
            assert(all.skip(sent as int).skip(1) =~= all.skip(sent as int + 1));
        }
    }
}

/// A round starts by collecting local changes for up to 100 ms, and a ring that
/// cannot be read ends the loop.
pub proof fn law_rounds_begin_and_end(engine: SyncEngine, round: RoundView)
    ensures
        sync::loop_step(engine, round, LoopNewsView::Started) == (
            engine,
            (round, LoopActionView::Collect(100)),
        ),
        sync::loop_step(engine, round, LoopNewsView::Paused) == (
            engine,
            (round, LoopActionView::Collect(100)),
        ),
        sync::loop_step(engine, round, LoopNewsView::PopFailed) == (
            engine,
            (round, LoopActionView::Stop),
        ),
{
}

/// The other side counts as heard of exactly when something of it was in the
/// ring. Nothing that happens changes the own identity, the own count or the
/// chunk size.
pub proof fn law_what_the_engine_remembers(
    engine: SyncEngine,
    round: RoundView,
    news: LoopNewsView,
)
    ensures
        ({
            let after = sync::loop_step(engine, round, news).0;
            &&& after.instance_id == engine.instance_id
            &&& after.seq == engine.seq
            &&& after.chunk_size == engine.chunk_size
            &&& !(news is Collected) ==> after.last_beat == engine.last_beat
            &&& after.last_seen == (match news {
                LoopNewsView::Popped { envelopes, now } => if foreign(
                    engine.instance_id,
                    envelopes,
                ).len() > 0 {
                    now
                } else {
                    engine.last_seen
                },
                _ => engine.last_seen,
            })
        }),
{
    if let LoopNewsView::Popped { envelopes, .. } = news {
        law_all_foreign_envelopes_are_taken(engine.instance_id, envelopes);
    }
}

/// Behind the announcement of a file its content is sent, if it could be read;
/// every other event, and an announcement without content, is sent alone.
pub proof fn law_what_is_sent_of_an_event(
    event: EventView,
    content: Option<Seq<u8>>,
    chunk_size: nat,
)
    ensures
        ({
            let sent = sync::outgoing(event, content, chunk_size);
            match (event, content) {
                (EventView::FileCreated { path, .. }, Some(data)) => sent == seq![event]
                    + crate::chunker::content_events(path, data, chunk_size),
                (EventView::FileModified { path, .. }, Some(data)) => sent == seq![event]
                    + crate::chunker::content_events(path, data, chunk_size),
                _ => sent == seq![event],
            }
        }),
        sync::announces_file(event) <==> event is FileCreated || event is FileModified,
{
}

/// The host is instance 0, the other side instance 1.
pub proof fn law_roles()
    ensures
        sync::role_instance(Role::Host) == 0,
        sync::role_instance(Role::Join) == 1,
{
}

/// The times of the loop: a sign of life every 5 s, a peer that is silent for 15 s
/// is offline, and chunks of 64 KiB.
pub proof fn law_times_of_the_loop()
    ensures
        sync::HEARTBEAT_INTERVAL_MS == 5000,
        sync::PEER_TIMEOUT_MS == 15000,
        sync::COLLECT_LIMIT_MS == 100,
        sync::IDLE_PAUSE_MS == 10,
        crate::chunker::DEFAULT_CHUNK_SIZE == 65536,
{
}

/// The values of envelopes, actions and news are read field by field.
pub proof fn law_values_of_the_loop(
    envelopes: Seq<crate::event::EventEnvelope>,
    action: sync::LoopAction,
    news: sync::LoopNews,
    round: sync::SyncRound,
    i: int,
)
    ensures
        sync::envelope_views(envelopes).len() == envelopes.len(),
        0 <= i < envelopes.len() ==> sync::envelope_views(envelopes)[i] == (EnvelopeView {
            instance_id: envelopes[i].instance_id,
            seq: envelopes[i].seq,
            timestamp: envelopes[i].timestamp,
            event: envelopes[i].event@,
        }),
        match action {
            sync::LoopAction::Collect(limit) => action@ == LoopActionView::Collect(limit),
            sync::LoopAction::Push(event) => action@ == LoopActionView::Push(event@),
            sync::LoopAction::Pop => action@ == LoopActionView::Pop,
            sync::LoopAction::Apply { event, timestamp } => action@ == (LoopActionView::Apply {
                event: event@,
                timestamp,
            }),
            sync::LoopAction::Pause(millis) => action@ == LoopActionView::Pause(millis),
            sync::LoopAction::Stop => action@ == LoopActionView::Stop,
        },
        match news {
            sync::LoopNews::Started => news@ == LoopNewsView::Started,
            sync::LoopNews::Collected { events, now, timestamp } => news@ == (
            LoopNewsView::Collected {
                events: crate::event::event_views(events@),
                now,
                timestamp,
            }),
            sync::LoopNews::Pushed => news@ == LoopNewsView::Pushed,
            sync::LoopNews::Popped { envelopes, now } => news@ == (LoopNewsView::Popped {
                envelopes: sync::envelope_views(envelopes@),
                now,
            }),
            sync::LoopNews::PopFailed => news@ == LoopNewsView::PopFailed,
            sync::LoopNews::Applied { ok } => news@ == (LoopNewsView::Applied { ok }),
            sync::LoopNews::Paused => news@ == LoopNewsView::Paused,
        },
        round@.to_send == crate::event::event_views(round.to_send@),
        round@.to_apply == sync::envelope_views(round.to_apply@),
        round@.local == round.local,
        round@.remote == round.remote,
{
}

} // verus!
