//! The sync engine: what is sent, what is taken, and when the peer is gone.

use crate::chunker::{chunk_data, DEFAULT_CHUNK_SIZE};
use crate::cli::{ConflictStrategy, Role};
use crate::event::{EnvelopeView, EventEnvelope, EventView, InstanceId, SyncEvent};
use vstd::prelude::*;

verus! {

/// How often a sign of life is sent, in milliseconds.
pub const HEARTBEAT_INTERVAL_MS: u64 = 5000;

/// After how long without any word the peer counts as offline, in milliseconds.
pub const PEER_TIMEOUT_MS: u64 = 15000;

/// For how long a round of the sync loop waits for local changes, in milliseconds.
pub const COLLECT_LIMIT_MS: u64 = 100;

/// Pause of the sync loop when there was nothing to do, in milliseconds.
pub const IDLE_PAUSE_MS: u64 = 10;

/// The instance of a side of the pair: the host is the first.
pub open spec fn role_instance(role: Role) -> InstanceId {
    match role {
        Role::Host => 0,
        Role::Join => 1,
    }
}

/// The instance of a side of the pair: the host is the first.
pub fn instance_of(role: Role) -> (id: InstanceId)
    ensures
        id == role_instance(role),
{
    match role {
        Role::Host => 0,
        Role::Join => 1,
    }
}

/// The announcement of a file, which its content follows.
pub open spec fn announces_file(event: EventView) -> bool {
    event is FileCreated || event is FileModified
}

/// What is sent of a local event: the event itself, and behind the announcement
/// of a file its content, if that could be read.
pub open spec fn outgoing(event: EventView, content: Option<Seq<u8>>, chunk_size: nat) -> Seq<
    EventView,
> {
    match (crate::event::event_path(event), content) {
        (Some(path), Some(data)) => if announces_file(event) {
            seq![event] + crate::chunker::content_events(path, data, chunk_size)
        } else {
            seq![event]
        },
        _ => seq![event],
    }
}

/// The values of a list of envelopes.
pub open spec fn envelope_views(envelopes: Seq<EventEnvelope>) -> Seq<EnvelopeView> {
    envelopes.map_values(|e: EventEnvelope| e@)
}

/// The envelopes of the other side.
pub open spec fn from_others(id: InstanceId, envelopes: Seq<EnvelopeView>) -> Seq<EnvelopeView> {
    envelopes.filter(|e: EnvelopeView| e.instance_id != id)
}

/// What one side of a pair knows of its own sending and of the other side. All
/// times are in milliseconds on a clock that does not go back.
pub struct SyncEngine {
    pub instance_id: InstanceId,
    /// Number of the last event sent.
    pub seq: u64,
    pub chunk_size: usize,
    /// When the last sign of life was sent, or the engine started.
    pub last_beat: u64,
    /// When the other side was last heard of, or the engine started.
    pub last_seen: u64,
}

impl SyncEngine {
    /// There is something in a chunk.
    pub open spec fn wf(&self) -> bool {
        self.chunk_size > 0
    }

    /// An engine that starts now and has sent nothing.
    pub fn new(instance_id: InstanceId, now: u64) -> (engine: SyncEngine)
        ensures
            engine.wf(),
            engine == (SyncEngine {
                instance_id,
                seq: 0,
                chunk_size: DEFAULT_CHUNK_SIZE,
                last_beat: now,
                last_seen: now,
            }),
    {
        SyncEngine {
            instance_id,
            seq: 0,
            chunk_size: DEFAULT_CHUNK_SIZE,
            last_beat: now,
            last_seen: now,
        }
    }

    /// Puts the next event to be sent into its envelope, with the wall-clock time
    /// in milliseconds since the epoch.
    pub fn push(&mut self, event: SyncEvent, timestamp: i64) -> (envelope: EventEnvelope)
        requires
            old(self).seq < u64::MAX,
        ensures
            *final(self) == (SyncEngine { seq: (old(self).seq + 1) as u64, ..*old(self) }),
            envelope@ == (EnvelopeView {
                instance_id: old(self).instance_id,
                seq: (old(self).seq + 1) as u64,
                timestamp,
                event: event@,
            }),
    {
        self.seq = self.seq + 1;
        EventEnvelope { instance_id: self.instance_id, seq: self.seq, timestamp, event }
    }

    /// Whether the content of a file is sent behind an event.
    pub fn needs_content(event: &SyncEvent) -> (needs: bool)
        ensures
            needs == announces_file(event@),
    {
        match event {
            SyncEvent::FileCreated { .. } | SyncEvent::FileModified { .. } => true,
            _ => false,
        }
    }

    /// What is sent of a local event, given the content of its file if there is
    /// one that could be read.
    pub fn push_with_content(&self, event: SyncEvent, content: Option<&[u8]>) -> (events: Vec<
        SyncEvent,
    >)
        requires
            self.wf(),
        ensures
            crate::event::event_views(events@) == outgoing(
                event@,
                (match content {
                    Some(data) => Some(data@),
                    None => None,
                }),
                self.chunk_size as nat,
            ),
    {
        let mut chunks: Vec<SyncEvent> = match (event.path(), content) {
            (Some(path), Some(data)) => {
                if SyncEngine::needs_content(&event) {
                    chunk_data(path, data, self.chunk_size)
                } else {
                    Vec::new()
                }
            },
            _ => Vec::new(),
        };
        let mut events: Vec<SyncEvent> = Vec::new();
        events.push(event);
        let ghost sent = chunks@;
        events.append(&mut chunks);
        assert(crate::event::event_views(events@) =~= seq![event@] + crate::event::event_views(
            sent,
        ));
        assert(sent.len() == 0 ==> crate::event::event_views(events@) =~= seq![event@]);
        events
    }

    /// The envelopes of the other side, in order.
    pub fn take_remote(&self, envelopes: Vec<EventEnvelope>) -> (remote: Vec<EventEnvelope>)
        ensures
            envelope_views(remote@) == from_others(self.instance_id, envelope_views(envelopes@)),
    {
        let ghost views = envelope_views(envelopes@);
        let ghost others = |e: EnvelopeView| e.instance_id != self.instance_id;
        let mut remote: Vec<EventEnvelope> = Vec::new();
        let mut i: usize = 0;
        assert(views.take(0) =~= Seq::empty());
        assert(envelope_views(remote@) =~= views.take(0).filter(others)) by {
            reveal(Seq::filter);
        }
        while i < envelopes.len()
            invariant
                i <= envelopes@.len(),
                views == envelope_views(envelopes@),
                others == (|e: EnvelopeView| e.instance_id != self.instance_id),
                envelope_views(remote@) == views.take(i as int).filter(others),
            decreases envelopes@.len() - i,
        {
            assert(views.take(i + 1).drop_last() =~= views.take(i as int));
            assert(views.take(i + 1).last() == envelopes@[i as int]@);
            let ghost before = remote@;
            if envelopes[i].instance_id != self.instance_id {
                remote.push(envelopes[i].clone());
                assert(envelope_views(remote@) =~= envelope_views(before).push(
                    envelopes@[i as int]@,
                ));
            }
            assert(envelope_views(remote@) == views.take(i + 1).filter(others)) by {
                reveal(Seq::filter);
            }
            i += 1;
        }
        assert(views.take(i as int) =~= views);
        remote
    }

    /// Notes that the other side was heard of.
    pub fn note_peer(&mut self, now: u64)
        ensures
            *final(self) == (SyncEngine { last_seen: now, ..*old(self) }),
    {
        self.last_seen = now;
    }

    /// Whether the other side counts as online.
    pub fn peer_online(&self, now: u64) -> (online: bool)
        ensures
            online == (now - self.last_seen < PEER_TIMEOUT_MS),
    {
        now < self.last_seen || now - self.last_seen < PEER_TIMEOUT_MS
    }

    /// The sign of life to be sent, if it is time for one.
    pub fn heartbeat(&mut self, now: u64, timestamp: i64) -> (event: Option<SyncEvent>)
        ensures
            event is Some <==> now - old(self).last_beat >= HEARTBEAT_INTERVAL_MS,
            event matches Some(beat) ==> beat@ == (EventView::Heartbeat { timestamp }),
            *final(self) == (SyncEngine {
                last_beat: if event is Some {
                    now
                } else {
                    old(self).last_beat
                },
                ..*old(self)
            }),
    {
        if now >= self.last_beat && now - self.last_beat >= HEARTBEAT_INTERVAL_MS {
            self.last_beat = now;
            Some(SyncEvent::Heartbeat { timestamp })
        } else {
            None
        }
    }
}

/// The pause of the sync loop after a round in which so many local and remote
/// events were seen.
pub fn idle_pause(local: usize, remote: usize) -> (pause: Option<u64>)
    ensures
        pause == (if local == 0 && remote == 0 {
            Some(IDLE_PAUSE_MS)
        } else {
            None
        }),
{
    if local == 0 && remote == 0 {
        Some(IDLE_PAUSE_MS)
    } else {
        None
    }
}

/// What the sync loop does next.
#[derive(Debug, PartialEq)]
pub enum LoopAction {
    /// Wait for local changes, for no more than so many milliseconds, and
    /// collect them.
    Collect(u64),
    /// Send an event, and its content where [`SyncEngine::needs_content`].
    Push(SyncEvent),
    /// Take what is in the ring.
    Pop,
    /// Apply an event that the other side sent at the given time.
    Apply { event: SyncEvent, timestamp: i64 },
    /// Pause for so many milliseconds.
    Pause(u64),
    /// End the loop: the ring cannot be read.
    Stop,
}

/// The mathematical value of a [`LoopAction`].
#[verifier::ext_equal]
pub enum LoopActionView {
    Collect(u64),
    Push(EventView),
    Pop,
    Apply { event: EventView, timestamp: i64 },
    Pause(u64),
    Stop,
}

impl View for LoopAction {
    type V = LoopActionView;

    open spec fn view(&self) -> LoopActionView {
        match self {
            LoopAction::Collect(limit) => LoopActionView::Collect(*limit),
            LoopAction::Push(event) => LoopActionView::Push(event@),
            LoopAction::Pop => LoopActionView::Pop,
            LoopAction::Apply { event, timestamp } => LoopActionView::Apply {
                event: event@,
                timestamp: *timestamp,
            },
            LoopAction::Pause(millis) => LoopActionView::Pause(*millis),
            LoopAction::Stop => LoopActionView::Stop,
        }
    }
}

/// What came of the last action of the sync loop.
pub enum LoopNews {
    /// The loop starts.
    Started,
    /// The local events that were collected, with the time on the clock of the
    /// engine and the wall-clock time.
    Collected { events: Vec<SyncEvent>, now: u64, timestamp: i64 },
    /// An event was sent, or could not be.
    Pushed,
    /// What was in the ring, with the time on the clock of the engine.
    Popped { envelopes: Vec<EventEnvelope>, now: u64 },
    /// The ring cannot be read.
    PopFailed,
    /// An event was applied, or failed.
    Applied { ok: bool },
    /// The pause is over.
    Paused,
}

/// The mathematical value of a [`LoopNews`].
#[verifier::ext_equal]
pub enum LoopNewsView {
    Started,
    Collected { events: Seq<EventView>, now: u64, timestamp: i64 },
    Pushed,
    Popped { envelopes: Seq<EnvelopeView>, now: u64 },
    PopFailed,
    Applied { ok: bool },
    Paused,
}

impl View for LoopNews {
    type V = LoopNewsView;

    open spec fn view(&self) -> LoopNewsView {
        match self {
            LoopNews::Started => LoopNewsView::Started,
            LoopNews::Collected { events, now, timestamp } => LoopNewsView::Collected {
                events: crate::event::event_views(events@),
                now: *now,
                timestamp: *timestamp,
            },
            LoopNews::Pushed => LoopNewsView::Pushed,
            LoopNews::Popped { envelopes, now } => LoopNewsView::Popped {
                envelopes: envelope_views(envelopes@),
                now: *now,
            },
            LoopNews::PopFailed => LoopNewsView::PopFailed,
            LoopNews::Applied { ok } => LoopNewsView::Applied { ok: *ok },
            LoopNews::Paused => LoopNewsView::Paused,
        }
    }
}

/// A round of the sync loop.
pub struct SyncRound {
    /// Local events that are still to be sent.
    pub to_send: Vec<SyncEvent>,
    /// Envelopes of the other side that are still to be applied.
    pub to_apply: Vec<EventEnvelope>,
    /// How many local events were collected.
    pub local: usize,
    /// How many envelopes of the other side came in.
    pub remote: usize,
}

/// The mathematical value of a [`SyncRound`].
#[verifier::ext_equal]
pub struct RoundView {
    pub to_send: Seq<EventView>,
    pub to_apply: Seq<EnvelopeView>,
    pub local: int,
    pub remote: int,
}

impl View for SyncRound {
    type V = RoundView;

    open spec fn view(&self) -> RoundView {
        RoundView {
            to_send: crate::event::event_views(self.to_send@),
            to_apply: envelope_views(self.to_apply@),
            local: self.local as int,
            remote: self.remote as int,
        }
    }
}

/// The next local event is sent; once there is none left the ring is read.
pub open spec fn send_next(round: RoundView) -> (RoundView, LoopActionView) {
    if round.to_send.len() == 0 {
        (round, LoopActionView::Pop)
    } else {
        (
            RoundView { to_send: round.to_send.skip(1), ..round },
            LoopActionView::Push(round.to_send[0]),
        )
    }
}

/// The next event of the other side is applied; once there is none left a new
/// round begins, after a pause if there was nothing to do in this one.
pub open spec fn apply_next(round: RoundView) -> (RoundView, LoopActionView) {
    if round.to_apply.len() > 0 {
        (
            RoundView { to_apply: round.to_apply.skip(1), ..round },
            LoopActionView::Apply {
                event: round.to_apply[0].event,
                timestamp: round.to_apply[0].timestamp,
            },
        )
    } else if round.local == 0 && round.remote == 0 {
        (round, LoopActionView::Pause(IDLE_PAUSE_MS))
    } else {
        (round, LoopActionView::Collect(COLLECT_LIMIT_MS))
    }
}

/// The engine and what is sent after local events were collected: the events,
/// and a sign of life if it is time for one.
pub open spec fn with_heartbeat(
    engine: SyncEngine,
    events: Seq<EventView>,
    now: u64,
    timestamp: i64,
) -> (SyncEngine, Seq<EventView>) {
    if now - engine.last_beat >= HEARTBEAT_INTERVAL_MS {
        (
            SyncEngine { last_beat: now, ..engine },
            events.push(EventView::Heartbeat { timestamp }),
        )
    } else {
        (engine, events)
    }
}

/// A step of the sync loop. An event of the other side that fails takes the
/// rest of its round with it.
pub open spec fn loop_step(engine: SyncEngine, round: RoundView, news: LoopNewsView) -> (
    SyncEngine,
    (RoundView, LoopActionView),
) {
    match news {
        LoopNewsView::Started | LoopNewsView::Paused => (
            engine,
            (round, LoopActionView::Collect(COLLECT_LIMIT_MS)),
        ),
        LoopNewsView::Collected { events, now, timestamp } => {
            let after = with_heartbeat(engine, events, now, timestamp);
            (
                after.0,
                send_next(RoundView { to_send: after.1, local: events.len() as int, ..round }),
            )
        },
        LoopNewsView::Pushed => (engine, send_next(round)),
        LoopNewsView::Popped { envelopes, now } => {
            let remote = from_others(engine.instance_id, envelopes);
            (
                if remote.len() > 0 {
                    SyncEngine { last_seen: now, ..engine }
                } else {
                    engine
                },
                apply_next(
                    RoundView { to_apply: remote, remote: remote.len() as int, ..round },
                ),
            )
        },
        LoopNewsView::PopFailed => (engine, (round, LoopActionView::Stop)),
        LoopNewsView::Applied { ok } => (
            engine,
            apply_next(
                if ok {
                    round
                } else {
                    RoundView { to_apply: Seq::empty(), ..round }
                },
            ),
        ),
    }
}

impl SyncRound {
    /// A round in which nothing has happened yet.
    pub fn new() -> (round: SyncRound)
        ensures
            round@ == (RoundView {
                to_send: Seq::empty(),
                to_apply: Seq::empty(),
                local: 0,
                remote: 0,
            }),
    {
        let round = SyncRound { to_send: Vec::new(), to_apply: Vec::new(), local: 0, remote: 0 };
        assert(round@.to_send =~= Seq::empty());
        assert(round@.to_apply =~= Seq::empty());
        round
    }

    fn send(&mut self) -> (action: LoopAction)
        ensures
            (final(self)@, action@) == send_next(old(self)@),
    {
        if self.to_send.len() == 0 {
            return LoopAction::Pop;
        }
        let event = self.to_send.remove(0);
        assert(self@.to_send =~= old(self)@.to_send.skip(1));
        LoopAction::Push(event)
    }

    fn apply(&mut self) -> (action: LoopAction)
        ensures
            (final(self)@, action@) == apply_next(old(self)@),
    {
        if self.to_apply.len() > 0 {
            let envelope = self.to_apply.remove(0);
            assert(self@.to_apply =~= old(self)@.to_apply.skip(1));
            return LoopAction::Apply { event: envelope.event, timestamp: envelope.timestamp };
        }
        match idle_pause(self.local, self.remote) {
            Some(millis) => LoopAction::Pause(millis),
            None => LoopAction::Collect(COLLECT_LIMIT_MS),
        }
    }
}

impl SyncEngine {
    /// Goes on with the sync loop after its last action.
    pub fn run_sync_loop(&mut self, round: &mut SyncRound, news: LoopNews) -> (action: LoopAction)
        ensures
            (*final(self), (final(round)@, action@)) == loop_step(
                *old(self),
                old(round)@,
                news@,
            ),
    {
        match news {
            LoopNews::Started | LoopNews::Paused => LoopAction::Collect(COLLECT_LIMIT_MS),
            LoopNews::Collected { events, now, timestamp } => {
                let mut to_send = events;
                round.local = to_send.len();
                match self.heartbeat(now, timestamp) {
                    Some(beat) => {
                        to_send.push(beat);
                        assert(crate::event::event_views(to_send@)
                            =~= crate::event::event_views(events@).push(beat@));
                    },
                    None => {},
                }
                round.to_send = to_send;
                round.send()
            },
            LoopNews::Pushed => round.send(),
            LoopNews::Popped { envelopes, now } => {
                let remote = self.take_remote(envelopes);
                if remote.len() > 0 {
                    self.note_peer(now);
                }
                round.remote = remote.len();
                round.to_apply = remote;
                round.apply()
            },
            LoopNews::PopFailed => LoopAction::Stop,
            LoopNews::Applied { ok } => {
                if !ok {
                    round.to_apply = Vec::new();
                    assert(round@.to_apply =~= Seq::empty());
                }
                round.apply()
            },
        }
    }
}

/// What is sent from here on until the ring is read.
pub open spec fn sent_before_reading(round: RoundView) -> Seq<EventView>
    decreases round.to_send.len(),
{
    if round.to_send.len() == 0 {
        Seq::empty()
    } else {
        let after = send_next(round);
        match after.1 {
            LoopActionView::Push(event) => seq![event] + sent_before_reading(after.0),
            _ => Seq::empty(),
        }
    }
}

/// All local events that were collected are sent, in order, before the ring is
/// read.
pub proof fn law_collected_events_are_sent(round: RoundView)
    ensures
        sent_before_reading(round) == round.to_send,
    decreases round.to_send.len(),
{
    if round.to_send.len() > 0 {
        law_collected_events_are_sent(send_next(round).0);
        assert(seq![round.to_send[0]] + round.to_send.skip(1) =~= round.to_send);
    } else {
        assert(round.to_send =~= Seq::empty());
    }
}

/// No sign of life is overdue after a collection: it is sent with the collected
/// events, whether or not there are any, as soon as the last one is as old as the
/// interval. So if collections come at most `gap` apart, no sign of life comes
/// later than the interval and that gap after the one before it.
pub proof fn law_heartbeat_is_never_overdue(
    engine: SyncEngine,
    round: RoundView,
    events: Seq<EventView>,
    now: u64,
    timestamp: i64,
    gap: u64,
    later: u64,
)
    requires
        now <= later <= now + gap,
    ensures
        ({
            let after = loop_step(
                engine,
                round,
                (LoopNewsView::Collected { events, now, timestamp }),
            );
            let due = now - engine.last_beat >= HEARTBEAT_INTERVAL_MS;
            let beat = EventView::Heartbeat { timestamp };
            &&& now - after.0.last_beat < HEARTBEAT_INTERVAL_MS
            &&& later - after.0.last_beat < HEARTBEAT_INTERVAL_MS + gap
            &&& after.0.last_beat == (if due {
                now
            } else {
                engine.last_beat
            })
            &&& due ==> sent_from(after.1) == events.push(beat)
            &&& !due ==> sent_from(after.1) == events
        }),
{
    let sent = with_heartbeat(engine, events, now, timestamp).1;
    if sent.len() > 0 {
        assert(seq![sent[0]] + sent.skip(1) =~= sent);
    } else {
        assert(events =~= Seq::empty());
    }
}

/// What is sent from a step of the loop on until the ring is read.
pub open spec fn sent_from(step: (RoundView, LoopActionView)) -> Seq<EventView> {
    match step.1 {
        LoopActionView::Push(event) => seq![event] + step.0.to_send,
        _ => Seq::empty(),
    }
}

/// Every wait of the sync loop has a limit, which is shorter than the interval
/// of the signs of life.
pub proof fn law_loop_never_waits_for_ever(
    engine: SyncEngine,
    round: RoundView,
    news: LoopNewsView,
    millis: u64,
)
    requires
        loop_step(engine, round, news).1.1 == LoopActionView::Collect(millis)
            || loop_step(engine, round, news).1.1 == LoopActionView::Pause(millis),
    ensures
        millis <= COLLECT_LIMIT_MS < HEARTBEAT_INTERVAL_MS,
{
}

/// None of the envelopes that wait to be applied is an own one.
pub open spec fn only_foreign(engine: SyncEngine, round: RoundView) -> bool {
    forall|i: int|
        0 <= i < round.to_apply.len() ==> (#[trigger] round.to_apply[i]).instance_id
            != engine.instance_id
}

/// A side never applies its own events: whatever happens in the sync loop, only
/// envelopes of the other side wait to be applied.
pub proof fn law_own_events_are_never_applied(
    engine: SyncEngine,
    round: RoundView,
    news: LoopNewsView,
)
    requires
        only_foreign(engine, round),
    ensures
        only_foreign(
            loop_step(engine, round, news).0,
            loop_step(engine, round, news).1.0,
        ),
{
    broadcast use vstd::seq_lib::group_filter_ensures;

    match news {
        LoopNewsView::Popped { envelopes, now } => {
            let remote = from_others(engine.instance_id, envelopes);
            assert forall|i: int| 0 <= i < remote.len() implies (#[trigger] remote[i]).instance_id
                != engine.instance_id by {
                assert(remote.contains(remote[i]));
            }
        },
        _ => {},
    }
}

/// The two sides of a pair are different instances, and each takes what the
/// other sends and nothing of its own.
pub proof fn law_sides_take_each_others_events(role: Role, other: Role, envelope: EnvelopeView)
    requires
        role != other,
        envelope.instance_id == role_instance(role),
    ensures
        from_others(role_instance(role), seq![envelope]) == Seq::<EnvelopeView>::empty(),
        from_others(role_instance(other), seq![envelope]) == seq![envelope],
{
    reveal(Seq::filter);
    assert(seq![envelope].drop_last() =~= Seq::empty());
    assert(from_others(role_instance(role), Seq::empty()) =~= Seq::empty());
    assert(from_others(role_instance(other), Seq::empty()) =~= Seq::empty());
    assert(Seq::empty().push(envelope) =~= seq![envelope]);
    reveal_with_fuel(Seq::filter, 2);
}

/// What is sent of a file that could be read is its announcement and then
/// content that rebuilds it.
pub proof fn law_sent_content_rebuilds_file(event: EventView, data: Seq<u8>, chunk_size: nat)
    requires
        announces_file(event),
        chunk_size > 0,
        data.len() <= u64::MAX,
    ensures
        outgoing(event, Some(data), chunk_size)[0] == event,
        crate::chunker::replay(
            Seq::empty(),
            outgoing(event, Some(data), chunk_size).skip(1),
        ) == data,
{
    let path = crate::event::event_path(event)->0;
    let sent = crate::chunker::content_events(path, data, chunk_size);
    crate::chunker::law_chunks_rebuild_data(path, data, chunk_size);
    assert(outgoing(event, Some(data), chunk_size).skip(1) =~= sent);
}

/// Whether the state that a remote event announces is now the local one: not if
/// a conflict was found and the local version kept.
pub fn took_remote(strategy: ConflictStrategy, conflict: bool) -> (took: bool)
    ensures
        took == !(conflict && strategy == ConflictStrategy::LastWriteWins),
{
    !(conflict && strategy == ConflictStrategy::LastWriteWins)
}

} // verus!
