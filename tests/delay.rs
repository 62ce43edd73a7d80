use mini_tokio::delay::{timer_sleep, Delay, DelayPoll, TimerAction};

const MS: u64 = 1_000_000;

#[test]
fn new_delay_sets_deadline() {
    let d = Delay::new(5 * MS, 100 * MS);
    assert_eq!(d.when, 105 * MS);
    assert!(!d.registered);
}

#[test]
fn first_poll_starts_timer_then_keeps_or_replaces_waker() {
    let mut d = Delay::new(0, 100 * MS);
    assert_eq!(d.poll(0, false), DelayPoll { ready: false, action: TimerAction::Start });
    assert!(d.registered);
    assert_eq!(d.poll(10 * MS, true), DelayPoll { ready: false, action: TimerAction::Keep });
    assert_eq!(d.poll(20 * MS, false), DelayPoll { ready: false, action: TimerAction::ReplaceWaker });
    assert_eq!(d.poll(100 * MS, true), DelayPoll { ready: true, action: TimerAction::Keep });
}

#[test]
fn past_deadline_is_ready_on_first_poll_without_sleeping() {
    let mut d = Delay::new(0, 0);
    let r = d.poll(0, false);
    assert!(r.ready);
    assert_eq!(r.action, TimerAction::Start);
    assert_eq!(timer_sleep(d.when, 0), 0);

    let mut late = Delay::new(10, 5);
    assert!(late.poll(1_000, false).ready);
    assert_eq!(timer_sleep(late.when, 1_000), 0);
}

#[test]
fn future_deadline_not_ready_until_reached() {
    let mut d = Delay::new(0, 100 * MS);
    assert!(!d.poll(0, false).ready);
    assert!(!d.poll(100 * MS - 1, true).ready);
    assert!(d.poll(100 * MS, true).ready);
    assert!(d.poll(150 * MS, true).ready);
}

#[test]
fn timer_sleeps_until_deadline() {
    assert_eq!(timer_sleep(100 * MS, 30 * MS), 70 * MS);
    assert_eq!(timer_sleep(100 * MS, 100 * MS), 0);
    assert_eq!(timer_sleep(100 * MS, 130 * MS), 0);
}

#[test]
fn only_first_poll_starts_a_timer() {
    let mut d = Delay::new(0, 50);
    let mut starts = 0;
    for t in 0..10u64 {
        if d.poll(t * 10, t % 2 == 0).action == TimerAction::Start {
            starts += 1;
        }
    }
    assert_eq!(starts, 1);
}

#[test]
fn two_delays_with_different_deadlines_both_complete() {
    let mut a = Delay::new(0, 200 * MS);
    let mut b = Delay::new(0, 100 * MS);
    assert!(!a.poll(0, false).ready);
    assert!(!b.poll(0, false).ready);
    assert_eq!(timer_sleep(a.when, 0), 200 * MS);
    assert_eq!(timer_sleep(b.when, 0), 100 * MS);
    assert!(b.poll(100 * MS, true).ready);
    assert!(!a.poll(100 * MS, true).ready);
    assert!(a.poll(200 * MS, true).ready);

    let mut c = Delay::new(0, 100 * MS);
    let mut e = Delay::new(0, 200 * MS);
    assert!(e.poll(200 * MS, false).ready);
    assert!(c.poll(200 * MS, false).ready);
}
