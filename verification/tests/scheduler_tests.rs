use moves::errors::DaemonError;
use moves::interval::Interval;
use moves::scheduler::parse_mode;
use moves::scheduler::calculate_next_fixed_time;
use moves::scheduler::hour_of;
use moves::scheduler::minute_of;
use moves::scheduler::second_of;
use moves::scheduler::Mode;
use moves::scheduler::Scheduler;
use moves::scheduler::SchedulerAction;
use moves::scheduler::SECONDS_PER_DAY;

/// Seconds on the local time line for a time of day on an arbitrary day.
fn at(day: u64, hour: u64, minute: u64, second: u64) -> u64 {
    day * SECONDS_PER_DAY + hour * 3600 + minute * 60 + second
}

/// Drives the scheduler forward until it does something other than sleep,
/// returning the moment of the action and the action itself.
fn run_until_action(sched: &mut Scheduler, start: u64, paused: bool) -> (u64, SchedulerAction) {
    let mut now = start;
    loop {
        match sched.step(now, paused) {
            SchedulerAction::Sleep { seconds } => {
                assert!(seconds >= 1 && seconds <= 30);
                now += seconds;
            }
            other => return (now, other),
        }
    }
}

#[test]
fn test_parse_mode() {
    assert_eq!(parse_mode("fix"), Ok(Mode::Fixed));
    assert_eq!(parse_mode("rel"), Ok(Mode::Relative));
    assert_eq!(parse_mode("fixed"), Err(DaemonError::Format));
    assert_eq!(parse_mode(""), Err(DaemonError::Format));
    assert_eq!(parse_mode("FIX"), Err(DaemonError::Format));
}

#[test]
fn test_calculate_next_fixed_time_hour() {
    let interval_minutes = 3600 / 60;
    let next = calculate_next_fixed_time(at(7, 14, 10, 37), interval_minutes);
    assert_eq!(minute_of(next), 0);
    assert_eq!(second_of(next), 0);
}

#[test]
fn test_calculate_next_fixed_time_30min() {
    let interval_minutes = 1800 / 60;
    let next = calculate_next_fixed_time(at(7, 9, 41, 3), interval_minutes);
    assert!(minute_of(next) == 0 || minute_of(next) == 30);
    assert_eq!(second_of(next), 0);
}

#[test]
fn test_fixed_time_is_strictly_later_with_zero_seconds() {
    // a boundary instant itself moves to the next boundary
    let now = at(3, 12, 0, 0);
    let next = calculate_next_fixed_time(now, 60);
    assert_eq!(next, at(3, 13, 0, 0));
    assert!(next > now);
    assert_eq!(second_of(next), 0);
}

#[test]
fn test_fixed_time_recomputation_is_idempotent() {
    let now = at(11, 16, 42, 55);
    let first = calculate_next_fixed_time(now, 30);
    let second = calculate_next_fixed_time(now, 30);
    assert_eq!(first, second);
    assert_eq!(first, at(11, 17, 0, 0));
}

#[test]
fn test_fixed_time_wraps_to_next_day() {
    // 23:45 with a 30-minute interval: the boundary 1440 lies past midnight
    let next = calculate_next_fixed_time(at(5, 23, 45, 10), 30);
    assert_eq!(next, at(6, 0, 0, 0));
    // 23:59 with a one-minute interval wraps as well
    let next = calculate_next_fixed_time(at(5, 23, 59, 59), 1);
    assert_eq!(next, at(6, 0, 0, 0));
}

#[test]
fn test_relative_anchor_advances_exactly_one_interval() {
    let interval = Interval::new(30);
    let now = at(2, 8, 0, 0);
    // two schedulers whose missed due times differ by hours agree on the
    // recomputed anchor: no backlog accumulates
    let mut early = Scheduler::new(Mode::Relative, interval, at(2, 1, 0, 0));
    let mut late = Scheduler::new(Mode::Relative, interval, at(2, 7, 25, 0));
    early.step(now, false);
    late.step(now, false);
    assert_eq!(early.due, now + 30 * 60);
    assert_eq!(late.due, now + 30 * 60);
}

#[test]
fn test_lateness_policy() {
    let interval = Interval::new(1);
    let t0 = at(4, 10, 0, 0);
    let due = t0 + 60;

    // observed exactly at the due time: fires
    let mut sched = Scheduler::new(Mode::Relative, interval, t0);
    assert_eq!(sched.step(due, false), SchedulerAction::Notify);

    // observed five seconds late: still fires
    let mut sched = Scheduler::new(Mode::Relative, interval, t0);
    assert_eq!(sched.step(due + 5, false), SchedulerAction::Notify);

    // observed six seconds late: skipped, and the due time still advances
    let mut sched = Scheduler::new(Mode::Relative, interval, t0);
    assert_eq!(sched.step(due + 6, false), SchedulerAction::Skip);
    assert_eq!(sched.due, due + 6 + 60);

    // paused at the due check: skipped
    let mut sched = Scheduler::new(Mode::Relative, interval, t0);
    assert_eq!(sched.step(due + 2, true), SchedulerAction::Skip);
}

#[test]
fn test_sleep_is_capped_and_exact_near_due() {
    let interval = Interval::new(30);
    let t0 = at(9, 6, 0, 0);
    let mut sched = Scheduler::new(Mode::Relative, interval, t0);
    // far from the due time the sleep is the 30-second cap
    assert_eq!(
        sched.step(t0, false),
        SchedulerAction::Sleep { seconds: 30 }
    );
    // near the due time the sleep is exactly the remainder
    assert_eq!(
        sched.step(sched.due - 7, false),
        SchedulerAction::Sleep { seconds: 7 }
    );
}

#[test]
fn test_relative_end_to_end_two_cycles() {
    // start in relative mode with a 30-minute interval at time T: one
    // notification lands at T+30m, the next at T+60m
    let t0 = at(20, 9, 15, 42);
    let mut sched = Scheduler::new(Mode::Relative, Interval::new(30), t0);

    let (first, action) = run_until_action(&mut sched, t0, false);
    assert_eq!(action, SchedulerAction::Notify);
    assert_eq!(first, t0 + 30 * 60);

    let (second, action) = run_until_action(&mut sched, first, false);
    assert_eq!(action, SchedulerAction::Notify);
    assert_eq!(second, t0 + 60 * 60);
}

#[test]
fn test_fixed_end_to_end_first_attempt_on_the_hour() {
    // start in fixed mode with a 60-minute interval at 14:10: the first
    // attempt falls at 15:00:00, not before
    let t0 = at(13, 14, 10, 0);
    let mut sched = Scheduler::new(Mode::Fixed, Interval::new(60), t0);

    let (fired, action) = run_until_action(&mut sched, t0, false);
    assert_eq!(action, SchedulerAction::Notify);
    assert_eq!(hour_of(fired), 15);
    assert_eq!(minute_of(fired), 0);
    assert_eq!(second_of(fired), 0);
    assert_eq!(fired, t0 + 50 * 60);
}

#[test]
fn test_pause_mid_cycle_skips_but_advances() {
    // a pause issued ten minutes into a 30-minute relative cycle: the
    // attempt at T+30m is skipped, yet the due time moves on a full interval
    let t0 = at(15, 11, 0, 0);
    let mut sched = Scheduler::new(Mode::Relative, Interval::new(30), t0);

    let mut now = t0;
    let mut paused = false;
    let mut skipped_at = None;
    while skipped_at.is_none() {
        if now >= t0 + 10 * 60 {
            paused = true;
        }
        match sched.step(now, paused) {
            SchedulerAction::Sleep { seconds } => now += seconds,
            action => {
                assert_eq!(action, SchedulerAction::Skip);
                skipped_at = Some(now);
            }
        }
    }
    assert_eq!(skipped_at, Some(t0 + 30 * 60));
    assert_eq!(sched.due, t0 + 30 * 60 + 30 * 60);
}
