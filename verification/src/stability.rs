//! Waiting until a file that is being written has stopped changing.
//!
//! A single look is not enough, since a large copy may pause: the size and the
//! modification time have to stay the same over a quiet period. All times are
//! in nanoseconds.

use vstd::prelude::*;

verus! {

/// The longest time that can be measured.
pub const LONGEST: u128 = 18446744073709551615999999999;

/// The shortest quiet period.
pub const MIN_QUIET: u128 = 2000000000;

/// The quiet period in units of the interval between two looks.
pub const QUIET_LOOKS: u128 = 10;

/// How long a file has to stay the same, if it is looked at in this interval.
pub open spec fn quiet_period(interval: u128) -> int {
    let looks = if interval * QUIET_LOOKS > LONGEST {
        LONGEST as int
    } else {
        interval * QUIET_LOOKS
    };
    if looks > MIN_QUIET {
        looks
    } else {
        MIN_QUIET as int
    }
}

/// What a look at a file shows.
#[derive(Clone, Copy, Debug, PartialEq, Eq)]
pub struct Look {
    pub size: u64,
    /// Modification time since the epoch, if it is known.
    pub modified: Option<i128>,
}

/// A wait for a file that has not been quiet for long enough yet.
#[derive(Clone, Copy, Debug, PartialEq, Eq)]
pub struct StableWait {
    /// Between two looks.
    pub interval: u128,
    /// After which the wait is given up.
    pub max_wait: u128,
    /// What the last look showed.
    pub last: Look,
    /// How long the file has been quiet.
    pub quiet_for: u128,
    /// How long the wait has lasted.
    pub elapsed: u128,
}

/// What comes of a look.
#[derive(Clone, Copy, Debug, PartialEq, Eq)]
pub enum StableStep {
    /// The file is stable and has this size.
    Stable(u64),
    /// Look again after the interval.
    Again(StableWait),
    /// The file did not get stable in time; its size in the last look.
    TimedOut(Option<u64>),
}

impl StableWait {
    /// The times are such as can be measured, and the file was not quiet for
    /// longer than the wait.
    pub open spec fn wf(self) -> bool {
        &&& self.interval <= LONGEST
        &&& self.max_wait <= LONGEST
        &&& self.quiet_for <= self.elapsed
        &&& (self.elapsed < self.max_wait || self.elapsed == 0)
    }
}

/// What comes of the first look at a file, which was last modified `age` ago if
/// that is known: one that has been quiet for long enough needs no wait.
pub open spec fn first_look(
    interval: u128,
    max_wait: u128,
    look: Look,
    age: Option<u128>,
) -> StableStep {
    if age matches Some(age) && age >= quiet_period(interval) {
        StableStep::Stable(look.size)
    } else {
        StableStep::Again(
            StableWait { interval, max_wait, last: look, quiet_for: 0, elapsed: 0 },
        )
    }
}

/// What comes of a further look, an interval after the last: `None` if there is
/// no file to be seen.
pub open spec fn further_look(wait: StableWait, look: Option<Look>) -> StableStep {
    let elapsed = (wait.elapsed + wait.interval) as u128;
    match look {
        None => if elapsed >= wait.max_wait {
            StableStep::TimedOut(None)
        } else {
            StableStep::Again(StableWait { quiet_for: 0, elapsed, ..wait })
        },
        Some(look) => {
            let quiet_for = if look == wait.last {
                (wait.quiet_for + wait.interval) as u128
            } else {
                0
            };
            if look == wait.last && quiet_for >= quiet_period(wait.interval) {
                StableStep::Stable(look.size)
            } else if elapsed >= wait.max_wait {
                StableStep::TimedOut(Some(look.size))
            } else {
                StableStep::Again(StableWait { last: look, quiet_for, elapsed, ..wait })
            }
        },
    }
}

fn required_quiet(interval: u128) -> (quiet: u128)
    requires
        interval <= LONGEST,
    ensures
        quiet == quiet_period(interval),
{
    let looks: u128 = if interval * QUIET_LOOKS > LONGEST {
        LONGEST
    } else {
        interval * QUIET_LOOKS
    };
    if looks > MIN_QUIET {
        looks
    } else {
        MIN_QUIET
    }
}

/// Starts to wait for a file, with the first look at it.
pub fn wait_for_stable(interval: u128, max_wait: u128, look: Look, age: Option<u128>) -> (step:
    StableStep)
    requires
        interval <= LONGEST,
        max_wait <= LONGEST,
    ensures
        step == first_look(interval, max_wait, look, age),
        step matches StableStep::Again(wait) ==> wait.wf(),
{
    match age {
        Some(age) => {
            if age >= required_quiet(interval) {
                return StableStep::Stable(look.size);
            }
        },
        None => {},
    }
    StableStep::Again(StableWait { interval, max_wait, last: look, quiet_for: 0, elapsed: 0 })
}

fn same_look(a: &Look, b: &Look) -> (same: bool)
    ensures
        same == (*a == *b),
{
    if a.size != b.size {
        return false;
    }
    match (a.modified, b.modified) {
        (Some(x), Some(y)) => x == y,
        (None, None) => true,
        _ => false,
    }
}

impl StableWait {
    /// Goes on with a further look.
    pub fn look_again(self, look: Option<Look>) -> (step: StableStep)
        requires
            self.wf(),
        ensures
            step == further_look(self, look),
            step matches StableStep::Again(wait) ==> wait.wf(),
    {
        let elapsed: u128 = self.elapsed + self.interval;
        match look {
            None => {
                if elapsed >= self.max_wait {
                    StableStep::TimedOut(None)
                } else {
                    StableStep::Again(StableWait { quiet_for: 0, elapsed, ..self })
                }
            },
            Some(look) => {
                let same = same_look(&look, &self.last);
                let quiet_for: u128 = if same {
                    self.quiet_for + self.interval
                } else {
                    0
                };
                if same && quiet_for >= required_quiet(self.interval) {
                    StableStep::Stable(look.size)
                } else if elapsed >= self.max_wait {
                    StableStep::TimedOut(Some(look.size))
                } else {
                    StableStep::Again(StableWait { last: look, quiet_for, elapsed, ..self })
                }
            },
        }
    }
}

/// What comes of a sequence of further looks.
pub open spec fn looks(wait: StableWait, seen: Seq<Option<Look>>) -> StableStep
    decreases seen.len(),
{
    if seen.len() == 0 {
        StableStep::Again(wait)
    } else {
        match looks(wait, seen.drop_last()) {
            StableStep::Again(now) => further_look(now, seen.last()),
            step => step,
        }
    }
}

/// The last `count` looks showed the same.
pub open spec fn steady(seen: Seq<Option<Look>>, count: nat, look: Look) -> bool {
    &&& count <= seen.len()
    &&& forall|i: int| seen.len() - count <= i < seen.len() ==> #[trigger] seen[i] == Some(look)
}

/// While the wait goes on, it has lasted for as many intervals as there were
/// looks, and is not over its limit.
pub proof fn law_wait_is_bounded(wait: StableWait, seen: Seq<Option<Look>>)
    requires
        wait.wf(),
        wait.elapsed == 0,
    ensures
        looks(wait, seen) matches StableStep::Again(now) ==> now.wf() && now.interval
            == wait.interval && now.max_wait == wait.max_wait && now.elapsed == seen.len()
            * wait.interval && (seen.len() > 0 ==> now.elapsed < wait.max_wait),
    decreases seen.len(),
{
    if seen.len() > 0 {
        let before = seen.drop_last();
        law_wait_is_bounded(wait, before);
        assert(seen.len() * wait.interval == before.len() * wait.interval + wait.interval)
            by (nonlinear_arith)
            requires
                seen.len() == before.len() + 1,
        ;
    } else {
        assert(seen.len() * wait.interval == 0) by (nonlinear_arith)
            requires
                seen.len() == 0,
        ;
    }
}

proof fn lemma_steady_grows(seen: Seq<Option<Look>>, count: nat, look: Look)
    requires
        seen.len() > 0,
        seen.last() == Some(look),
        steady(seen.drop_last(), count, look),
    ensures
        steady(seen, count + 1, look),
{
    assert forall|i: int| seen.len() - (count + 1) <= i < seen.len() implies #[trigger] seen[i]
        == Some(look) by {
        if i < seen.len() - 1 {
            assert(seen.drop_last()[i] == Some(look));
        }
    }
}

/// The file was quiet for as many intervals as the last looks showed what the
/// wait remembers; at the start that is none.
proof fn lemma_quiet_looks(wait: StableWait, seen: Seq<Option<Look>>) -> (count: nat)
    requires
        wait.wf(),
        wait.elapsed == 0,
    ensures
        looks(wait, seen) matches StableStep::Again(now) ==> steady(seen, count, now.last)
            && now.quiet_for == count * wait.interval,
    decreases seen.len(),
{
    law_wait_is_bounded(wait, seen);
    if seen.len() == 0 {
        assert(0 * wait.interval == 0) by (nonlinear_arith);
        0
    } else {
        let before = seen.drop_last();
        law_wait_is_bounded(wait, before);
        let count = lemma_quiet_looks(wait, before);
        assert(0 * wait.interval == 0) by (nonlinear_arith);
        assert((count + 1) * wait.interval == count * wait.interval + wait.interval)
            by (nonlinear_arith);
        match looks(wait, before) {
            StableStep::Again(now) => if seen.last() == Some(now.last) {
                lemma_steady_grows(seen, count, now.last);
                count + 1
            } else {
                0
            },
            _ => 0,
        }
    }
}

/// A file is found stable only after looks over at least the quiet period all
/// showed the same, and its size is what they showed.
pub proof fn law_stable_means_quiet(wait: StableWait, seen: Seq<Option<Look>>, size: u64) -> (count:
    nat)
    requires
        wait.wf(),
        wait.elapsed == 0,
        looks(wait, seen) == StableStep::Stable(size),
        seen.len() > 0,
        looks(wait, seen.drop_last()) is Again,
    ensures
        seen.last() matches Some(look) && look.size == size && steady(seen, count, look),
        count * wait.interval >= quiet_period(wait.interval),
{
    let before = seen.drop_last();
    law_wait_is_bounded(wait, before);
    let count = lemma_quiet_looks(wait, before);
    assert((count + 1) * wait.interval == count * wait.interval + wait.interval)
        by (nonlinear_arith);
    lemma_steady_grows(seen, count, seen.last()->0);
    count + 1
}

/// A file that stays as it is gets stable: after looks over the quiet period
/// that all show what the first one showed, if the wait is long enough for them.
pub proof fn law_quiet_file_gets_stable(wait: StableWait, count: nat)
    requires
        wait.wf(),
        wait.elapsed == 0,
        wait.quiet_for == 0,
        count > 0,
        (count - 1) * wait.interval < quiet_period(wait.interval) <= count * wait.interval,
        (count - 1) * wait.interval < wait.max_wait,
    ensures
        looks(wait, Seq::new(count, |i: int| Some(wait.last))) == StableStep::Stable(
            wait.last.size,
        ),
{
    let seen = Seq::new(count, |i: int| Some(wait.last));
    let before = seen.drop_last();
    let fewer = (count - 1) as nat;
    lemma_still_waiting(wait, fewer);
    assert(before =~= Seq::new(fewer, |i: int| Some(wait.last)));
    assert(count * wait.interval == fewer * wait.interval + wait.interval) by (nonlinear_arith)
        requires
            count == fewer + 1,
    ;
}

proof fn lemma_still_waiting(wait: StableWait, count: nat)
    requires
        wait.wf(),
        wait.elapsed == 0,
        wait.quiet_for == 0,
        count * wait.interval < quiet_period(wait.interval),
        count * wait.interval < wait.max_wait || count == 0,
    ensures
        looks(wait, Seq::new(count, |i: int| Some(wait.last))) == StableStep::Again(
            (StableWait {
                quiet_for: (count * wait.interval) as u128,
                elapsed: (count * wait.interval) as u128,
                ..wait
            }),
        ),
    decreases count,
{
    let seen = Seq::new(count, |i: int| Some(wait.last));
    if count == 0 {
        assert(0 * wait.interval == 0) by (nonlinear_arith);
    } else {
        let fewer = (count - 1) as nat;
        assert(count * wait.interval == fewer * wait.interval + wait.interval)
            by (nonlinear_arith)
            requires
                count == fewer + 1,
        ;
        assert(fewer * wait.interval >= 0) by (nonlinear_arith);
        lemma_still_waiting(wait, fewer);
        assert(seen.drop_last() =~= Seq::new(fewer, |i: int| Some(wait.last)));
    }
}

/// A file has to stay the same for ten intervals, but for no less than 2 s and for
/// no more than can be measured.
pub proof fn law_quiet_period(interval: u128)
    ensures
        interval <= 200_000_000 ==> quiet_period(interval) == 2_000_000_000,
        200_000_000 <= interval <= 1_844_674_407_370_955_161_599_999_999 ==> quiet_period(interval)
            == 10 * interval,
        interval > 1_844_674_407_370_955_161_599_999_999 ==> quiet_period(interval)
            == 18_446_744_073_709_551_615_999_999_999,
        LONGEST == 18_446_744_073_709_551_615_999_999_999,
{
}

/// A file whose last change is as old as the quiet period is stable at the first
/// look; any other is looked at again, and nothing of the wait has passed yet.
pub proof fn law_first_look(
    interval: u128,
    max_wait: u128,
    look: Look,
    age: Option<u128>,
)
    ensures
        (age matches Some(age) && age >= quiet_period(interval)) ==> first_look(
            interval,
            max_wait,
            look,
            age,
        ) == StableStep::Stable(look.size),
        !(age matches Some(age) && age >= quiet_period(interval)) ==> (first_look(
            interval,
            max_wait,
            look,
            age,
        ) matches StableStep::Again(wait) && wait.interval == interval && wait.max_wait == max_wait
            && wait.last == look && wait.quiet_for == 0 && wait.elapsed == 0),
{
}

/// A further look that shows the same makes the quiet time longer by an interval,
/// and any other starts it anew. The file is stable once that is the quiet period,
/// even if the wait is just over; else the wait ends when it is over, with the size
/// that was seen last, and goes on before that.
pub proof fn law_further_look(wait: StableWait, look: Option<Look>)
    requires
        wait.wf(),
    ensures
        ({
            let same = look == Some(wait.last);
            let quiet = if same {
                wait.quiet_for + wait.interval
            } else {
                0
            };
            let over = wait.elapsed + wait.interval >= wait.max_wait;
            let step = further_look(wait, look);
            &&& same && quiet >= quiet_period(wait.interval) <==> step is Stable
            &&& step is Stable ==> step == StableStep::Stable(wait.last.size)
            &&& !(step is Stable) && over ==> step == StableStep::TimedOut(
                match look {
                    Some(seen) => Some(seen.size),
                    None => None,
                },
            )
            &&& !(step is Stable) && !over ==> (step matches StableStep::Again(next)
                && next.interval == wait.interval && next.max_wait == wait.max_wait
                && next.quiet_for == quiet && next.elapsed == wait.elapsed + wait.interval
                && next.last == (match look {
                Some(seen) => seen,
                None => wait.last,
            }))
        }),
{
}

/// Every wait is possible that has not lasted for too long, and in which the file
/// was not quiet for longer than that.
pub proof fn law_possible_waits(wait: StableWait)
    ensures
        wait.wf() <==> wait.interval <= LONGEST && wait.max_wait <= LONGEST && wait.quiet_for
            <= wait.elapsed && (wait.elapsed == 0 || wait.elapsed < wait.max_wait),
{
}

} // verus!
