//! The scheduling core: when is the next reminder due, and does a due
//! reminder fire or get skipped.
//!
//! Wall-clock time is modelled as a number of seconds on the local time
//! line, with midnights at the multiples of `SECONDS_PER_DAY`.  The
//! surrounding binary reads the clock, sleeps and plays the sound; the
//! decisions are all made here, on plain values.

use vstd::arithmetic::div_mod::lemma_fundamental_div_mod;
use vstd::arithmetic::div_mod::lemma_fundamental_div_mod_converse;
use vstd::arithmetic::div_mod::lemma_mod_multiples_basic;
use vstd::prelude::*;

use crate::errors::DaemonError;
use crate::interval::Interval;
use crate::interval::MAX_INTERVAL_MINUTES;

verus! {

/// The length of a day on the modelled local time line.
pub const SECONDS_PER_DAY: u64 = 86400;

/// A single sleep is capped at this many seconds, so that pause, resume and
/// termination are observed within that bound.
pub const SLEEP_CAP_SECONDS: u64 = 30;

/// A reminder observed more than this many seconds after its due time is
/// skipped rather than fired late.
pub const LATENESS_LIMIT_SECONDS: u64 = 5;

/// How the cadence of reminders is chosen.
#[derive(Clone, Copy, Debug, PartialEq, Eq, Structural)]
pub enum Mode {
    /// Reminders at wall-clock boundaries that are multiples of the interval.
    Fixed,
    /// Reminders a constant interval after the previous firing.
    Relative,
}

pub open spec fn spec_day_of(t: int) -> int {
    t / 86400
}

pub open spec fn spec_second_of_day(t: int) -> int {
    t % 86400
}

pub open spec fn spec_minute_of_day(t: int) -> int {
    (t % 86400) / 60
}

pub open spec fn spec_hour_of_day(t: int) -> int {
    (t % 86400) / 3600
}

pub open spec fn spec_minute_of_hour(t: int) -> int {
    ((t % 86400) / 60) % 60
}

pub open spec fn spec_second_of_minute(t: int) -> int {
    t % 60
}

/// The first multiple of the interval, in minutes past midnight, strictly
/// after the current minute of the day.
pub open spec fn spec_next_boundary(t: int, ivl: int) -> int {
    (spec_minute_of_day(t) / ivl + 1) * ivl
}

/// The next fixed-mode due time: the boundary mapped back onto the clock
/// with seconds zeroed, pushed to the next day when it does not lie
/// strictly ahead.
pub open spec fn spec_next_fixed_time(t: int, ivl: int) -> int {
    let b = spec_next_boundary(t, ivl);
    let cand = spec_day_of(t) * 86400 + ((b / 60) % 24) * 3600 + (b % 60) * 60;
    if cand <= t {
        cand + 86400
    } else {
        cand
    }
}

/// The next due time, recomputed fresh from the recomputation moment.
pub open spec fn spec_next_due(mode: Mode, ivl: int, now: int) -> int {
    match mode {
        Mode::Fixed => spec_next_fixed_time(now, ivl),
        Mode::Relative => now + ivl * 60,
    }
}

/// How long the next sleep lasts: the remaining time, capped.
pub open spec fn spec_sleep_seconds(now: int, due: int) -> int {
    if due - now < 30 {
        due - now
    } else {
        30
    }
}

/// Computes the next fixed-mode due time from the current time.
pub fn calculate_next_fixed_time(now: u64, interval_minutes: u64) -> (r: u64)
    requires
        1 <= interval_minutes <= MAX_INTERVAL_MINUTES,
        now <= u64::MAX - 172800,
    ensures
        r == spec_next_fixed_time(now as int, interval_minutes as int),
{
    let cur: u64 = now % 86400 / 60;
    let q: u64 = cur / interval_minutes;
    proof {
        lemma_fundamental_div_mod(cur as int, interval_minutes as int);
        assert((q + 1) * interval_minutes as int == interval_minutes as int * q + interval_minutes as int)
            by (nonlinear_arith);
        assert(0 <= cur as int % interval_minutes as int) by (nonlinear_arith)
            requires interval_minutes as int > 0, cur as int >= 0;
    }
    let b: u64 = (q + 1) * interval_minutes;
    let h: u64 = b / 60 % 24;
    let m: u64 = b % 60;
    proof {
        lemma_fundamental_div_mod(now as int, 86400);
    }
    let day_start: u64 = now / 86400 * 86400;
    let cand: u64 = day_start + h * 3600 + m * 60;
    if cand <= now {
        cand + 86400
    } else {
        cand
    }
}

/// The shape of the fixed-mode computation, for intervals no longer than a
/// day: where the boundary lands, and on which day the result falls.
proof fn lemma_fixed_structure(t: int, ivl: int)
    requires
        0 <= t,
        1 <= ivl <= 1440,
    ensures
        spec_minute_of_day(t) < spec_next_boundary(t, ivl) <= spec_minute_of_day(t) + ivl,
        spec_next_boundary(t, ivl) % ivl == 0,
        spec_next_boundary(t, ivl) < 2880,
        spec_minute_of_day(spec_next_fixed_time(t, ivl)) == if spec_next_boundary(t, ivl) < 1440 {
            spec_next_boundary(t, ivl)
        } else {
            spec_next_boundary(t, ivl) - 1440
        },
        spec_day_of(spec_next_fixed_time(t, ivl)) == if spec_next_boundary(t, ivl) < 1440 {
            spec_day_of(t)
        } else {
            spec_day_of(t) + 1
        },
{
    let cur = spec_minute_of_day(t);
    let q = cur / ivl;
    let b = spec_next_boundary(t, ivl);
    let day = spec_day_of(t);
    let s = spec_second_of_day(t);

    lemma_fundamental_div_mod(t, 86400);
    assert(0 <= s < 86400);
    lemma_fundamental_div_mod(s, 60);
    assert(cur == s / 60);
    assert(0 <= cur < 1440);

    lemma_fundamental_div_mod(cur, ivl);
    assert(0 <= cur % ivl < ivl) by (nonlinear_arith)
        requires ivl > 0, cur >= 0;
    assert((q + 1) * ivl == ivl * q + ivl) by (nonlinear_arith);
    assert(cur < b <= cur + ivl);
    lemma_mod_multiples_basic(q + 1, ivl);
    assert(b % ivl == 0);
    assert(b < 2880);

    let h = (b / 60) % 24;
    let m = b % 60;
    lemma_fundamental_div_mod(b, 60);
    let cand = day * 86400 + h * 3600 + m * 60;

    if b < 1440 {
        // the boundary stays inside the current day and lies strictly ahead
        assert(b / 60 < 24);
        lemma_small_mod_int(b / 60, 24);
        assert(h == b / 60);
        assert(h * 3600 + m * 60 == 60 * b);
        assert(s < 60 * (cur + 1));
        assert(60 * (cur + 1) <= 60 * b);
        assert(cand == day * 86400 + 60 * b);
        assert(cand > t);
        assert(spec_next_fixed_time(t, ivl) == cand);
        assert(0 <= 60 * b < 86400);
        lemma_fundamental_div_mod_converse(cand, 86400, day, 60 * b);
        assert(spec_day_of(cand) == day);
        assert(spec_second_of_day(cand) == 60 * b);
        assert(spec_minute_of_day(cand) == (60 * b) / 60);
        lemma_fundamental_div_mod_converse(60 * b, 60, b, 0);
    } else {
        // the boundary wraps past midnight: the candidate falls at or
        // before `t`, so a whole day is added
        assert(24 <= b / 60 < 48);
        lemma_fundamental_div_mod_converse(b / 60, 24, 1, b / 60 - 24);
        assert(h == b / 60 - 24);
        assert(h * 3600 + m * 60 == 60 * b - 86400);
        assert(b - 1440 <= cur);
        assert(60 * b - 86400 <= 60 * cur <= s);
        assert(cand <= day * 86400 + s == t);
        let r = cand + 86400;
        assert(spec_next_fixed_time(t, ivl) == r);
        assert(r == (day + 1) * 86400 + (60 * (b - 1440)));
        assert(0 <= 60 * (b - 1440) < 86400);
        lemma_fundamental_div_mod_converse(r, 86400, day + 1, 60 * (b - 1440));
        assert(spec_day_of(r) == day + 1);
        assert(spec_minute_of_day(r) == (60 * (b - 1440)) / 60);
        lemma_fundamental_div_mod_converse(60 * (b - 1440), 60, b - 1440, 0);
    }
}

proof fn lemma_small_mod_int(x: int, m: int)
    requires
        0 <= x < m,
    ensures
        x % m == x,
{
    lemma_fundamental_div_mod_converse(x, m, 0, x);
}

/// The fixed-mode due time lies strictly after the current time and falls
/// on a whole minute.
pub proof fn lemma_fixed_time_strictly_after(t: int, ivl: int)
    requires
        0 <= t,
        1 <= ivl,
    ensures
        spec_next_fixed_time(t, ivl) > t,
        spec_next_fixed_time(t, ivl) % 60 == 0,
{
    let cur = spec_minute_of_day(t);
    let q = cur / ivl;
    let b = spec_next_boundary(t, ivl);
    let day = spec_day_of(t);
    let s = spec_second_of_day(t);
    lemma_fundamental_div_mod(t, 86400);
    assert(0 <= s < 86400);
    lemma_fundamental_div_mod(cur, ivl);
    assert(0 <= cur % ivl < ivl) by (nonlinear_arith)
        requires ivl > 0, cur >= 0;
    assert((q + 1) * ivl == ivl * q + ivl) by (nonlinear_arith);
    assert(b > cur >= 0);
    let h = (b / 60) % 24;
    let m = b % 60;
    lemma_fundamental_div_mod(b, 60);
    assert(0 <= h < 24);
    assert(0 <= m < 60);
    let cand = day * 86400 + h * 3600 + m * 60;
    assert(cand >= day * 86400 > t - 86400);

    let k = if cand <= t { day * 1440 + h * 60 + m + 1440 } else { day * 1440 + h * 60 + m };
    assert(spec_next_fixed_time(t, ivl) == 60 * k);
    lemma_mod_multiples_vanish_int(k, 60);
}

proof fn lemma_mod_multiples_vanish_int(k: int, m: int)
    requires
        0 < m,
    ensures
        (m * k) % m == 0,
{
    lemma_mod_multiples_basic(k, m);
    assert(m * k == k * m) by (nonlinear_arith);
}

/// Recomputing the fixed-mode due time at the same instant gives the same
/// result: the computation depends on nothing but its two arguments.
pub proof fn lemma_fixed_time_deterministic(t: int, ivl: int, r1: int, r2: int)
    requires
        r1 == spec_next_fixed_time(t, ivl),
        r2 == spec_next_fixed_time(t, ivl),
    ensures
        r1 == r2,
{
}

/// When the interval divides the day evenly, the fixed-mode due time always
/// lands on a minute-of-day that is a multiple of the interval.
pub proof fn lemma_fixed_time_alignment(t: int, ivl: int)
    requires
        0 <= t,
        1 <= ivl <= 1440,
        1440int % ivl == 0,
    ensures
        spec_minute_of_day(spec_next_fixed_time(t, ivl)) % ivl == 0,
{
    lemma_fixed_structure(t, ivl);
    let b = spec_next_boundary(t, ivl);
    if b >= 1440 {
        lemma_fundamental_div_mod(1440int, ivl);
        lemma_fundamental_div_mod(b, ivl);
        let c = 1440int / ivl;
        let a = b / ivl;
        assert(b - 1440 == (a - c) * ivl) by (nonlinear_arith)
            requires b == ivl * a, 1440 == ivl * c;
        lemma_mod_multiples_basic(a - c, ivl);
    }
}

/// The fixed-mode computation crosses into the next day exactly when the
/// boundary lies at or past the end of the current day.
pub proof fn lemma_fixed_time_day_wrap(t: int, ivl: int)
    requires
        0 <= t,
        1 <= ivl <= 1440,
    ensures
        spec_next_boundary(t, ivl) >= 1440 ==> spec_day_of(spec_next_fixed_time(t, ivl))
            == spec_day_of(t) + 1,
        spec_next_boundary(t, ivl) < 1440 ==> spec_day_of(spec_next_fixed_time(t, ivl))
            == spec_day_of(t),
{
    lemma_fixed_structure(t, ivl);
}

/// The relative-mode anchor advances by exactly one interval from the
/// recomputation moment; nothing else — in particular no earlier, missed
/// due time — enters the computation, so lateness never accumulates a
/// backlog.
pub proof fn lemma_relative_advances_one_interval(now: int, ivl: int)
    ensures
        spec_next_due(Mode::Relative, ivl, now) - now == ivl * 60,
{
}

/// In either mode, a freshly computed due time lies strictly after the
/// moment it was computed from: the scheduler can never fall behind its
/// own due time at the instant of recomputation.
pub proof fn lemma_next_due_strictly_after(mode: Mode, ivl: int, now: int)
    requires
        0 <= now,
        1 <= ivl,
    ensures
        spec_next_due(mode, ivl, now) > now,
{
    if mode is Fixed {
        lemma_fixed_time_strictly_after(now, ivl);
    }
}

/// What the scheduler asks of the surrounding loop in one cycle.
#[derive(Clone, Copy, Debug, PartialEq, Eq, Structural)]
pub enum SchedulerAction {
    /// Not due yet: sleep this many seconds, then call again.
    Sleep { seconds: u64 },
    /// Due, observed on time, not paused: trigger the notifier.
    Notify,
    /// Due, but observed too late or paused: let the moment pass silently.
    Skip,
}

/// The scheduler's whole state: the chosen cadence and the next due time.
#[derive(Clone, Copy, Debug)]
pub struct Scheduler {
    pub mode: Mode,
    pub interval: Interval,
    pub due: u64,
}

impl Scheduler {
    pub open spec fn wf(self) -> bool {
        self.interval.valid()
    }

    /// Starts a schedule: the first due time is computed from `now` exactly
    /// as every later one is.
    pub fn new(mode: Mode, interval: Interval, now: u64) -> (s: Scheduler)
        requires
            interval.valid(),
            now <= u64::MAX - 172800,
            now as int + interval.minutes as int * 60 <= u64::MAX as int,
        ensures
            s.mode == mode,
            s.interval == interval,
            s.wf(),
            s.due == spec_next_due(mode, interval.minutes as int, now as int),
    {
        let due = match mode {
            Mode::Fixed => calculate_next_fixed_time(now, interval.minutes),
            Mode::Relative => {
                proof {
                    assert(interval.minutes as int * 60 <= (u64::MAX / 60) as int * 60)
                        by (nonlinear_arith)
                        requires interval.minutes <= u64::MAX / 60;
                }
                now + interval.minutes * 60
            },
        };
        Scheduler { mode, interval, due }
    }

    /// One decision of the scheduling loop.
    ///
    /// Before the due time it asks for a capped sleep and changes nothing.
    /// At or after the due time it advances the due time, fresh from `now`,
    /// and fires exactly when the observation is at most
    /// `LATENESS_LIMIT_SECONDS` late and the state is not paused.  `paused`
    /// is the freshly loaded persisted flag; it is consulted only at a due
    /// check.
    pub fn step(&mut self, now: u64, paused: bool) -> (a: SchedulerAction)
        requires
            old(self).wf(),
            now <= u64::MAX - 172800,
            now as int + old(self).interval.minutes as int * 60 <= u64::MAX as int,
        ensures
            final(self).mode == old(self).mode,
            final(self).interval == old(self).interval,
            final(self).wf(),
            now < old(self).due ==> final(self).due == old(self).due && a == (SchedulerAction::Sleep {
                seconds: spec_sleep_seconds(now as int, old(self).due as int) as u64,
            }),
            now >= old(self).due ==> final(self).due == spec_next_due(
                old(self).mode,
                old(self).interval.minutes as int,
                now as int,
            ),
            now >= old(self).due && now - old(self).due <= LATENESS_LIMIT_SECONDS && !paused
                ==> a == SchedulerAction::Notify,
            now >= old(self).due && !(now - old(self).due <= LATENESS_LIMIT_SECONDS && !paused)
                ==> a == SchedulerAction::Skip,
    {
        if now < self.due {
            let remaining = self.due - now;
            let seconds = if remaining < SLEEP_CAP_SECONDS {
                remaining
            } else {
                SLEEP_CAP_SECONDS
            };
            SchedulerAction::Sleep { seconds }
        } else {
            let lateness = now - self.due;
            let fire = lateness <= LATENESS_LIMIT_SECONDS && !paused;
            self.due = match self.mode {
                Mode::Fixed => calculate_next_fixed_time(now, self.interval.minutes),
                Mode::Relative => {
                    proof {
                        assert(self.interval.minutes as int * 60 <= (u64::MAX / 60) as int * 60)
                            by (nonlinear_arith)
                            requires self.interval.minutes <= u64::MAX / 60;
                    }
                    now + self.interval.minutes * 60
                },
            };
            if fire {
                SchedulerAction::Notify
            } else {
                SchedulerAction::Skip
            }
        }
    }
}

/// Parses the mode switch: `fix` for fixed boundaries, `rel` for relative
/// intervals, nothing else.
pub fn parse_mode(input: &str) -> (r: Result<Mode, DaemonError>)
    ensures
        input@ == "fix"@ ==> r == Ok::<Mode, DaemonError>(Mode::Fixed),
        input@ == "rel"@ ==> r == Ok::<Mode, DaemonError>(Mode::Relative),
        input@ != "fix"@ && input@ != "rel"@ ==> r == Err::<Mode, DaemonError>(
            DaemonError::Format,
        ),
{
    proof {
        reveal_strlit("fix");
        reveal_strlit("rel");
    }
    let n = input.unicode_len();
    if n == 3 {
        let c0 = input.get_char(0);
        let c1 = input.get_char(1);
        let c2 = input.get_char(2);
        if c0 == 'f' && c1 == 'i' && c2 == 'x' {
            proof {
                assert(input@ =~= "fix"@);
            }
            return Ok(Mode::Fixed);
        }
        if c0 == 'r' && c1 == 'e' && c2 == 'l' {
            proof {
                assert(input@ =~= "rel"@);
            }
            return Ok(Mode::Relative);
        }
    }
    Err(DaemonError::Format)
}

/// The hour of the day (0 to 23) of a time stamp.
pub fn hour_of(t: u64) -> (r: u64)
    ensures
        r == spec_hour_of_day(t as int),
{
    t % 86400 / 3600
}

/// The minute of the hour (0 to 59) of a time stamp.
pub fn minute_of(t: u64) -> (r: u64)
    ensures
        r == spec_minute_of_hour(t as int),
{
    t % 86400 / 60 % 60
}

/// The second of the minute (0 to 59) of a time stamp.
pub fn second_of(t: u64) -> (r: u64)
    ensures
        r == spec_second_of_minute(t as int),
{
    t % 60
}

} // verus!
