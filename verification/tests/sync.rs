use dirsync::chunker::DEFAULT_CHUNK_SIZE;
use dirsync::cli::{ConflictStrategy, Role};
use dirsync::event::{EventEnvelope, SyncEvent};
use dirsync::path::SyncPath;
use dirsync::sync::{
    idle_pause, instance_of, took_remote, LoopAction, LoopNews, SyncEngine, SyncRound,
};

fn created(path: &str) -> SyncEvent {
    SyncEvent::FileCreated { path: SyncPath::parse(path), content_hash: [3u8; 32], size: 9 }
}

fn envelope(instance_id: u64, seq: u64) -> EventEnvelope {
    EventEnvelope { instance_id, seq, timestamp: 0, event: created("f") }
}

#[test]
fn envelopes_are_numbered_from_one() {
    let mut engine = SyncEngine::new(1, 0);
    let first = engine.push(created("a"), 17);
    let second = engine.push(created("b"), 18);
    assert_eq!(first.instance_id, 1);
    assert_eq!((first.seq, first.timestamp), (1, 17));
    assert_eq!((second.seq, second.timestamp), (2, 18));
    assert_eq!(second.event, created("b"));
    assert_eq!(engine.chunk_size, DEFAULT_CHUNK_SIZE);
}

#[test]
fn the_content_follows_the_announcement() {
    let mut engine = SyncEngine::new(0, 0);
    engine.chunk_size = 4;
    let events = engine.push_with_content(created("f"), Some(b"123456789"));
    assert_eq!(events.len(), 4);
    assert_eq!(events[0], created("f"));
    assert_eq!(events[3].offset(), 8);
    assert_eq!(events[3].data_len(), 1);
}

#[test]
fn nothing_follows_where_there_is_no_content() {
    let engine = SyncEngine::new(0, 0);
    assert_eq!(engine.push_with_content(created("f"), None), vec![created("f")]);
    let gone = SyncEvent::FileDeleted { path: SyncPath::parse("f") };
    assert_eq!(engine.push_with_content(gone.clone(), Some(b"x")), vec![gone]);
    assert!(SyncEngine::needs_content(&created("f")));
    assert!(!SyncEngine::needs_content(&SyncEvent::Heartbeat { timestamp: 1 }));
}

#[test]
fn own_envelopes_are_left_out() {
    let engine = SyncEngine::new(0, 0);
    let remote = engine.take_remote(vec![
        envelope(1, 1),
        envelope(0, 1),
        envelope(1, 2),
        envelope(0, 2),
    ]);
    assert_eq!(remote, vec![envelope(1, 1), envelope(1, 2)]);
}

#[test]
fn host_and_join_are_different_instances() {
    assert_eq!(instance_of(Role::Host), 0);
    assert_eq!(instance_of(Role::Join), 1);
}

#[test]
fn a_sign_of_life_is_sent_every_five_seconds() {
    let mut engine = SyncEngine::new(0, 1000);
    assert_eq!(engine.heartbeat(5999, 1), None);
    assert_eq!(engine.heartbeat(6000, 2), Some(SyncEvent::Heartbeat { timestamp: 2 }));
    assert_eq!(engine.heartbeat(6001, 3), None);
    assert_eq!(engine.heartbeat(11000, 4), Some(SyncEvent::Heartbeat { timestamp: 4 }));
}

#[test]
fn a_peer_is_offline_after_fifteen_seconds() {
    let mut engine = SyncEngine::new(0, 0);
    assert!(engine.peer_online(14_999));
    assert!(!engine.peer_online(15_000));
    engine.note_peer(20_000);
    assert!(engine.peer_online(34_999));
    assert!(!engine.peer_online(35_000));
}

#[test]
fn the_loop_pauses_only_when_idle() {
    assert_eq!(idle_pause(0, 0), Some(10));
    assert_eq!(idle_pause(1, 0), None);
    assert_eq!(idle_pause(0, 1), None);
}

#[test]
fn a_kept_local_version_is_not_the_remote_one() {
    assert!(took_remote(ConflictStrategy::LastWriteWins, false));
    assert!(!took_remote(ConflictStrategy::LastWriteWins, true));
    assert!(took_remote(ConflictStrategy::KeepBoth, true));
}

#[test]
fn a_round_sends_then_reads_then_applies() {
    let mut engine = SyncEngine::new(0, 0);
    let mut round = SyncRound::new();
    assert_eq!(engine.run_sync_loop(&mut round, LoopNews::Started), LoopAction::Collect(100));
    let events = vec![created("a"), created("b")];
    assert_eq!(
        engine.run_sync_loop(
            &mut round,
            LoopNews::Collected { events, now: 5000, timestamp: 77 }
        ),
        LoopAction::Push(created("a"))
    );
    assert_eq!(
        engine.run_sync_loop(&mut round, LoopNews::Pushed),
        LoopAction::Push(created("b"))
    );
    assert_eq!(
        engine.run_sync_loop(&mut round, LoopNews::Pushed),
        LoopAction::Push(SyncEvent::Heartbeat { timestamp: 77 })
    );
    assert_eq!(engine.run_sync_loop(&mut round, LoopNews::Pushed), LoopAction::Pop);
    let mut late = envelope(1, 2);
    late.timestamp = 12;
    late.event = created("z");
    let envelopes = vec![envelope(0, 1), envelope(1, 1), late];
    assert_eq!(
        engine.run_sync_loop(&mut round, LoopNews::Popped { envelopes, now: 5001 }),
        LoopAction::Apply { event: created("f"), timestamp: 0 }
    );
    assert_eq!(engine.last_seen, 5001);
    assert_eq!(
        engine.run_sync_loop(&mut round, LoopNews::Applied { ok: true }),
        LoopAction::Apply { event: created("z"), timestamp: 12 }
    );
    assert_eq!(
        engine.run_sync_loop(&mut round, LoopNews::Applied { ok: true }),
        LoopAction::Collect(100)
    );
}

#[test]
fn a_failed_event_takes_the_rest_of_its_round_with_it() {
    let mut engine = SyncEngine::new(0, 0);
    let mut round = SyncRound::new();
    let envelopes = vec![envelope(1, 1), envelope(1, 2)];
    engine.run_sync_loop(&mut round, LoopNews::Popped { envelopes, now: 1 });
    assert_eq!(
        engine.run_sync_loop(&mut round, LoopNews::Applied { ok: false }),
        LoopAction::Collect(100)
    );
    assert!(round.to_apply.is_empty());
}

#[test]
fn an_idle_round_ends_in_a_pause() {
    let mut engine = SyncEngine::new(0, 0);
    let mut round = SyncRound::new();
    assert_eq!(
        engine.run_sync_loop(
            &mut round,
            LoopNews::Collected { events: vec![], now: 1, timestamp: 1 }
        ),
        LoopAction::Pop
    );
    assert_eq!(
        engine.run_sync_loop(&mut round, LoopNews::Popped { envelopes: vec![], now: 2 }),
        LoopAction::Pause(10)
    );
    assert_eq!(engine.run_sync_loop(&mut round, LoopNews::Paused), LoopAction::Collect(100));
    assert_eq!(engine.run_sync_loop(&mut round, LoopNews::PopFailed), LoopAction::Stop);
}

#[test]
fn a_beat_is_sent_without_any_change() {
    let mut engine = SyncEngine::new(0, 0);
    let mut round = SyncRound::new();
    let mut beats = 0;
    for step in 1..=300u64 {
        let now = step * 100;
        let news = LoopNews::Collected { events: vec![], now, timestamp: now as i64 };
        let action = engine.run_sync_loop(&mut round, news);
        if matches!(action, LoopAction::Push(SyncEvent::Heartbeat { .. })) {
            beats += 1;
        }
        assert!(now - engine.last_beat < 5000);
    }
    assert_eq!(beats, 6);
}
