use dirsync::stability::{Look, StableStep, StableWait, LONGEST};
use dirsync::watcher::wait_for_stable;

const MS: u128 = 1_000_000;

fn look(size: u64, modified: i128) -> Look {
    Look { size, modified: Some(modified) }
}

fn started(interval: u128, max_wait: u128, first: Look) -> StableWait {
    match wait_for_stable(interval, max_wait, first, Some(0)) {
        StableStep::Again(wait) => wait,
        _ => panic!("Expected a wait"),
    }
}

fn again(wait: StableWait, seen: Option<Look>) -> StableWait {
    match wait.look_again(seen) {
        StableStep::Again(wait) => wait,
        _ => panic!("Expected a wait"),
    }
}

#[test]
fn an_old_file_needs_no_wait() {
    let seen = look(42, 1);
    assert_eq!(
        wait_for_stable(100 * MS, 60_000 * MS, seen, Some(2_000 * MS)),
        StableStep::Stable(42)
    );
    assert!(matches!(
        wait_for_stable(100 * MS, 60_000 * MS, seen, Some(2_000 * MS - 1)),
        StableStep::Again(_)
    ));
    assert!(matches!(
        wait_for_stable(500 * MS, 60_000 * MS, seen, Some(4_999 * MS)),
        StableStep::Again(_)
    ));
    assert_eq!(
        wait_for_stable(500 * MS, 60_000 * MS, seen, Some(5_000 * MS)),
        StableStep::Stable(42)
    );
    assert!(matches!(
        wait_for_stable(100 * MS, 60_000 * MS, seen, None),
        StableStep::Again(_)
    ));
}

#[test]
fn a_quiet_file_gets_stable_after_the_quiet_period() {
    let seen = look(7, 3);
    let mut wait = started(500 * MS, 60_000 * MS, seen);
    for _ in 0..9 {
        wait = again(wait, Some(seen));
    }
    assert_eq!(wait.look_again(Some(seen)), StableStep::Stable(7));
}

#[test]
fn every_change_starts_the_quiet_period_again() {
    let mut wait = started(1_000 * MS, 60_000 * MS, look(1, 1));
    for _ in 0..9 {
        wait = again(wait, Some(look(1, 1)));
    }
    wait = again(wait, Some(look(2, 1)));
    assert_eq!(wait.quiet_for, 0);
    wait = again(wait, Some(look(2, 2)));
    assert_eq!(wait.quiet_for, 0);
    wait = again(wait, Some(look(2, 2)));
    assert_eq!(wait.quiet_for, 1_000 * MS);
    wait = again(wait, None);
    assert_eq!(wait.quiet_for, 0);
    assert_eq!(wait.elapsed, 13_000 * MS);
}

#[test]
fn a_file_that_keeps_changing_is_given_up() {
    let wait = started(1_000 * MS, 2_000 * MS, look(1, 1));
    let wait = again(wait, Some(look(2, 2)));
    assert_eq!(wait.look_again(Some(look(3, 3))), StableStep::TimedOut(Some(3)));
    assert_eq!(wait.look_again(None), StableStep::TimedOut(None));
}

#[test]
fn a_file_that_gets_stable_at_the_limit_is_stable() {
    let seen = look(5, 5);
    let mut wait = started(1_000 * MS, 10_000 * MS, seen);
    for _ in 0..9 {
        wait = again(wait, Some(seen));
    }
    assert_eq!(wait.look_again(Some(seen)), StableStep::Stable(5));
}

#[test]
fn the_quiet_period_does_not_exceed_the_longest_time() {
    assert_eq!(wait_for_stable(LONGEST, LONGEST, look(1, 1), Some(LONGEST)), StableStep::Stable(1));
}
