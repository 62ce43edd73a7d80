//! The timer resource: a deadline and the bookkeeping of the waker recorded
//! against it.

use vstd::prelude::*;

verus! {

/// What an evaluation of a delay asks of its caller besides reporting readiness.
#[derive(Clone, Copy, Debug, PartialEq, Eq, Structural)]
pub enum TimerAction {
    /// First evaluation: record the caller's waker and start the timer thread.
    Start,
    /// The recorded waker belongs to another task: replace it by the caller's.
    ReplaceWaker,
    /// The recorded waker is already the caller's.
    Keep,
}

/// The outcome of one evaluation of a delay.
#[derive(Clone, Copy, Debug, PartialEq, Eq, Structural)]
pub struct DelayPoll {
    pub ready: bool,
    pub action: TimerAction,
}

/// A timer leaf operation: its deadline and whether a waker (and with it the
/// single timer thread) has been registered.
#[derive(Clone, Copy, Debug, PartialEq, Eq, Structural)]
pub struct Delay {
    pub when: u64,
    pub registered: bool,
}

/// The deadline has been reached at time `now`.
pub open spec fn deadline_reached(when: u64, now: u64) -> bool {
    now >= when
}

/// How long the timer thread sleeps when it starts at `now`.
pub open spec fn sleep_needed(when: u64, now: u64) -> nat {
    if now < when {
        (when - now) as nat
    } else {
        0
    }
}

/// One evaluation of `d` at time `now`; `waker_matches` tells whether the
/// caller's waker wakes the same task as the recorded one.
pub open spec fn poll_spec(d: Delay, now: u64, waker_matches: bool) -> (Delay, DelayPoll) {
    let action = if !d.registered {
        TimerAction::Start
    } else if waker_matches {
        TimerAction::Keep
    } else {
        TimerAction::ReplaceWaker
    };
    (Delay { when: d.when, registered: true }, DelayPoll { ready: deadline_reached(d.when, now), action })
}

/// The state after a sequence of evaluations, each a time and a waker comparison.
pub open spec fn poll_all(d: Delay, events: Seq<(u64, bool)>) -> Delay
    decreases events.len(),
{
    if events.len() == 0 {
        d
    } else {
        let prev = poll_all(d, events.drop_last());
        poll_spec(prev, events.last().0, events.last().1).0
    }
}

/// How many of a sequence of evaluations start a timer thread.
pub open spec fn timer_starts(d: Delay, events: Seq<(u64, bool)>) -> nat
    decreases events.len(),
{
    if events.len() == 0 {
        0
    } else {
        let prev = poll_all(d, events.drop_last());
        let step = if poll_spec(prev, events.last().0, events.last().1).1.action == TimerAction::Start {
            1nat
        } else {
            0nat
        };
        timer_starts(d, events.drop_last()) + step
    }
}

impl Delay {
    /// A delay of `dur` nanoseconds from `now`, with no waker recorded yet.
    pub fn new(now: u64, dur: u64) -> (d: Delay)
        requires
            now + dur <= u64::MAX,
        ensures
            d.when == now + dur,
            !d.registered,
    {
        Delay { when: now + dur, registered: false }
    }

    /// Evaluates the delay at time `now`. The first evaluation registers the
    /// caller's waker and starts the timer; later ones replace the recorded
    /// waker when it wakes another task. Readiness is decided by the clock alone.
    pub fn poll(&mut self, now: u64, waker_matches: bool) -> (r: DelayPoll)
        ensures
            (*final(self), r) == poll_spec(*old(self), now, waker_matches),
    {
        let action = if !self.registered {
            TimerAction::Start
        } else if waker_matches {
            TimerAction::Keep
        } else {
            TimerAction::ReplaceWaker
        };
        self.registered = true;
        DelayPoll { ready: now >= self.when, action }
    }
}

/// How long the timer thread started at `now` sleeps before invoking the
/// recorded waker: nothing once the deadline has passed.
pub fn timer_sleep(when: u64, now: u64) -> (r: u64)
    ensures
        r == sleep_needed(when, now),
{
    if now < when {
        when - now
    } else {
        0
    }
}

/// A delay whose deadline has already passed is ready on its very first
/// evaluation, and the timer thread that evaluation starts does not sleep.
pub proof fn lemma_past_deadline_ready_at_once(d: Delay, now: u64, waker_matches: bool)
    requires
        !d.registered,
        d.when <= now,
    ensures
        poll_spec(d, now, waker_matches).1.ready,
        poll_spec(d, now, waker_matches).1.action == TimerAction::Start,
        sleep_needed(d.when, now) == 0,
{
}

/// Whatever was evaluated before, a delay reports not-ready at every time
/// before its deadline and ready at every time from it on; a timer thread
/// started before the deadline wakes exactly at it.
pub proof fn lemma_ready_from_deadline_on(d: Delay, events: Seq<(u64, bool)>, now: u64, waker_matches: bool)
    ensures
        poll_all(d, events).when == d.when,
        poll_spec(poll_all(d, events), now, waker_matches).1.ready <==> now >= d.when,
        now < d.when ==> now + sleep_needed(d.when, now) == d.when,
    decreases events.len(),
{
    if events.len() > 0 {
        lemma_ready_from_deadline_on(d, events.drop_last(), now, waker_matches);
    }
}

/// Two independent delays: evaluating one never changes the other, each timer
/// wakes at its own deadline, and from the later deadline on both are ready,
/// in whichever order they are evaluated.
pub proof fn lemma_independent_delays(
    d1: Delay,
    d2: Delay,
    start: u64,
    now: u64,
    m1: bool,
    m2: bool,
)
    requires
        now >= d1.when,
        now >= d2.when,
    ensures
        poll_spec(d1, now, m1).1.ready,
        poll_spec(d2, now, m2).1.ready,
        start < d1.when ==> start + sleep_needed(d1.when, start) == d1.when,
        start < d2.when ==> start + sleep_needed(d2.when, start) == d2.when,
{
}

/// However often a delay is evaluated, at most one timer thread is started for
/// it, and none once a waker is registered.
pub proof fn lemma_at_most_one_timer(d: Delay, events: Seq<(u64, bool)>)
    ensures
        timer_starts(d, events) <= 1,
        d.registered ==> timer_starts(d, events) == 0,
        events.len() > 0 ==> poll_all(d, events).registered,
    decreases events.len(),
{
    if events.len() > 0 {
        let prefix = events.drop_last();
        lemma_at_most_one_timer(d, prefix);
        if prefix.len() > 0 {
            assert(poll_all(d, prefix).registered);
        }
    }
}

} // verus!
