//! Parsing of human interval expressions such as `"1h30m"`.
//!
//! The accepted grammar is `(<digits> 'h')? (<digits> 'm')?` with at least
//! one of the two parts present; the value is `hours * 60 + minutes` whole
//! minutes, which must be strictly positive.

use vstd::prelude::*;

use crate::errors::DaemonError;

verus! {

/// The largest interval, in minutes, whose length in seconds still fits in a
/// `u64`.  Larger values are rejected by the parser.
pub const MAX_INTERVAL_MINUTES: u64 = u64::MAX / 60;

/// A strictly positive duration in whole minutes.
#[derive(Clone, Copy, Debug, PartialEq, Eq, Structural)]
pub struct Interval {
    pub minutes: u64,
}

impl Interval {
    /// A well-formed interval: at least one minute, and small enough that
    /// its length in seconds fits in a `u64`.
    pub open spec fn valid(self) -> bool {
        1 <= self.minutes <= MAX_INTERVAL_MINUTES
    }

    pub fn new(minutes: u64) -> (r: Interval)
        requires
            1 <= minutes <= MAX_INTERVAL_MINUTES,
        ensures
            r.minutes == minutes,
            r.valid(),
    {
        Interval { minutes }
    }

    /// The interval's length in seconds.
    pub fn total_seconds(&self) -> (r: u64)
        requires
            self.valid(),
        ensures
            r == self.minutes * 60,
    {
        proof {
            assert(self.minutes * 60 <= (u64::MAX / 60) * 60 <= u64::MAX) by (nonlinear_arith)
                requires self.minutes <= u64::MAX / 60;
        }
        self.minutes * 60
    }
}

pub open spec fn is_digit(c: char) -> bool {
    '0' <= c && c <= '9'
}

/// The number denoted by a sequence of decimal digit characters
/// (the empty sequence denotes zero).
pub open spec fn digits_value(s: Seq<char>) -> nat
    decreases s.len(),
{
    if s.len() == 0 {
        0
    } else {
        digits_value(s.drop_last()) * 10 + (s.last() as u32 - '0' as u32) as nat
    }
}

/// The first position at or after `i` that does not hold a digit.
pub open spec fn scan_digits(s: Seq<char>, i: int) -> int
    decreases s.len() - i,
{
    if 0 <= i < s.len() && is_digit(s[i]) {
        scan_digits(s, i + 1)
    } else {
        i
    }
}

/// The hours-digits and minutes-digits of an interval string, when it
/// matches the grammar `(<digits> 'h')? (<digits> 'm')?` with at least one
/// part present; an absent part is the empty sequence.
pub open spec fn spec_interval_parts(s: Seq<char>) -> Option<(Seq<char>, Seq<char>)> {
    let i = scan_digits(s, 0);
    if i == s.len() {
        None
    } else if s[i] == 'h' && i >= 1 {
        let j = scan_digits(s, i + 1);
        if j == s.len() && j == i + 1 {
            Some((s.subrange(0, i), Seq::empty()))
        } else if j == s.len() - 1 && j > i + 1 && s[j] == 'm' {
            Some((s.subrange(0, i), s.subrange(i + 1, j)))
        } else {
            None
        }
    } else if s[i] == 'm' && i >= 1 && i == s.len() - 1 {
        Some((Seq::empty(), s.subrange(0, i)))
    } else {
        None
    }
}

/// The total minutes denoted by an interval string that matches the grammar.
pub open spec fn spec_interval_minutes(s: Seq<char>) -> nat
    recommends spec_interval_parts(s) is Some,
{
    digits_value(spec_interval_parts(s)->Some_0.0) * 60
        + digits_value(spec_interval_parts(s)->Some_0.1)
}

/// Parses an interval expression.
///
/// Exactly the strings of the grammar are accepted; of those, a zero total
/// is rejected as `ZeroDuration`, and a total above `MAX_INTERVAL_MINUTES`
/// is rejected as `Format`.
pub fn parse_interval(input: &str) -> (r: Result<Interval, DaemonError>)
    ensures
        match spec_interval_parts(input@) {
            None => r == Err::<Interval, DaemonError>(DaemonError::Format),
            Some(p) => {
                if spec_interval_minutes(input@) == 0 {
                    r == Err::<Interval, DaemonError>(DaemonError::ZeroDuration)
                } else if spec_interval_minutes(input@) > MAX_INTERVAL_MINUTES {
                    r == Err::<Interval, DaemonError>(DaemonError::Format)
                } else {
                    r == Ok::<Interval, DaemonError>(Interval {
                        minutes: spec_interval_minutes(input@) as u64,
                    })
                }
            },
        },
{
    let ghost s = input@;
    let n = input.unicode_len();

    let (hours, i) = match scan_number(input, 0) {
        Ok(pair) => pair,
        Err(e) => {
            proof { lemma_overflow_means_reject(s, 0); }
            return Err(e);
        },
    };
    proof { lemma_scan_digits_ge(s, 0); }

    if i == n {
        // digits only (possibly none): no unit letter, so no match
        return Err(DaemonError::Format);
    }

    let c = input.get_char(i);
    if c == 'h' {
        if i < 1 {
            return Err(DaemonError::Format);
        }
        let (minutes, j) = match scan_number(input, i + 1) {
            Ok(pair) => pair,
            Err(e) => {
                proof { lemma_overflow_means_reject(s, i + 1); }
                return Err(e);
            },
        };
        proof { lemma_scan_digits_ge(s, i + 1); }
        if j == n && j == i + 1 {
            // hours only
            finish(hours, 0, Ghost(s))
        } else if j == n - 1 && j > i + 1 && input.get_char(j) == 'm' {
            finish(hours, minutes, Ghost(s))
        } else {
            Err(DaemonError::Format)
        }
    } else if c == 'm' && i >= 1 && i + 1 == n {
        finish(0, hours, Ghost(s))
    } else {
        Err(DaemonError::Format)
    }
}

/// Combines the two parsed components, rejecting zero and oversized totals.
fn finish(hours: u64, minutes: u64, Ghost(s): Ghost<Seq<char>>) -> (r: Result<Interval, DaemonError>)
    requires
        spec_interval_parts(s) is Some,
        hours <= MAX_INTERVAL_MINUTES,
        minutes <= MAX_INTERVAL_MINUTES,
        hours == digits_value(spec_interval_parts(s)->Some_0.0),
        minutes == digits_value(spec_interval_parts(s)->Some_0.1),
    ensures
        ({
            let total = spec_interval_minutes(s);
            if total == 0 {
                r == Err::<Interval, DaemonError>(DaemonError::ZeroDuration)
            } else if total > MAX_INTERVAL_MINUTES {
                r == Err::<Interval, DaemonError>(DaemonError::Format)
            } else {
                r == Ok::<Interval, DaemonError>(Interval { minutes: total as u64 })
            }
        }),
{
    if hours == 0 && minutes == 0 {
        return Err(DaemonError::ZeroDuration);
    }
    let total: u128 = hours as u128 * 60 + minutes as u128;
    if total > MAX_INTERVAL_MINUTES as u128 {
        return Err(DaemonError::Format);
    }
    Ok(Interval { minutes: total as u64 })
}

/// Scans the digit run starting at `from` and returns its value together
/// with the position where it ends; an oversized value is rejected.
fn scan_number(input: &str, from: usize) -> (r: Result<(u64, usize), DaemonError>)
    requires
        from <= input@.len(),
    ensures
        match r {
            Ok((v, end)) => {
                &&& end == scan_digits(input@, from as int)
                &&& from <= end <= input@.len()
                &&& v == digits_value(input@.subrange(from as int, end as int))
                &&& v <= MAX_INTERVAL_MINUTES
            },
            Err(e) => {
                &&& e == DaemonError::Format
                &&& digits_value(
                    input@.subrange(from as int, scan_digits(input@, from as int)),
                ) > MAX_INTERVAL_MINUTES
            },
        },
{
    let ghost s = input@;
    let n = input.unicode_len();
    let mut i: usize = from;
    let mut acc: u64 = 0;

    loop
        invariant
            from <= i <= n,
            n == s.len(),
            s == input@,
            scan_digits(s, from as int) == scan_digits(s, i as int),
            acc == digits_value(s.subrange(from as int, i as int)),
            acc <= MAX_INTERVAL_MINUTES,
        decreases n - i,
    {
        if i == n || !is_digit_exec(input.get_char(i)) {
            assert(scan_digits(s, i as int) == i);
            return Ok((acc, i));
        }
        let c = input.get_char(i);
        let d: u64 = (c as u32 - '0' as u32) as u64;
        proof {
            assert(acc * 10 + d <= (u64::MAX / 60) * 10 + 9 < u64::MAX) by (nonlinear_arith)
                requires acc <= u64::MAX / 60, d <= 9;
            assert(s.subrange(from as int, i + 1).drop_last() =~= s.subrange(from as int, i as int));
        }
        let next = acc * 10 + d;
        if next > MAX_INTERVAL_MINUTES {
            proof {
                lemma_scan_digits_ge(s, i + 1);
                assert(scan_digits(s, i as int) == scan_digits(s, i + 1));
                lemma_digits_prefix_le(s, from as int, i + 1, scan_digits(s, from as int));
            }
            return Err(DaemonError::Format);
        }
        acc = next;
        i = i + 1;
    }
}

fn is_digit_exec(c: char) -> (r: bool)
    ensures
        r == is_digit(c),
{
    '0' <= c && c <= '9'
}

/// `scan_digits` never moves backwards nor past the end.
proof fn lemma_scan_digits_ge(s: Seq<char>, i: int)
    requires
        0 <= i <= s.len(),
    ensures
        i <= scan_digits(s, i) <= s.len(),
    decreases s.len() - i,
{
    if 0 <= i < s.len() && is_digit(s[i]) {
        lemma_scan_digits_ge(s, i + 1);
    }
}

/// Every position scanned over holds a digit, and the value of a digit run
/// only grows as the run extends.
proof fn lemma_digits_prefix_le(s: Seq<char>, from: int, k: int, end: int)
    requires
        0 <= from <= k <= end <= s.len(),
        end == scan_digits(s, from),
    ensures
        digits_value(s.subrange(from, k)) <= digits_value(s.subrange(from, end)),
    decreases end - k,
{
    if k < end {
        assert(s.subrange(from, k + 1).drop_last() =~= s.subrange(from, k));
        assert(digits_value(s.subrange(from, k)) <= digits_value(s.subrange(from, k + 1)))
            by (nonlinear_arith)
            requires digits_value(s.subrange(from, k + 1))
                == digits_value(s.subrange(from, k)) * 10
                    + (s.subrange(from, k + 1).last() as u32 - '0' as u32) as nat;
        lemma_digits_prefix_le(s, from, k + 1, end);
    } else {
        assert(s.subrange(from, k) =~= s.subrange(from, end));
    }
}

/// If the digit run starting at `from` denotes a value too large to hold,
/// the whole string is rejected: either it does not match the grammar at
/// all, or its total is over the limit.
proof fn lemma_overflow_means_reject(s: Seq<char>, from: int)
    requires
        0 <= from <= s.len(),
        digits_value(s.subrange(from, scan_digits(s, from))) > MAX_INTERVAL_MINUTES,
        from == 0 || from == scan_digits(s, 0) + 1,
    ensures
        match spec_interval_parts(s) {
            None => true,
            Some(_) => spec_interval_minutes(s) > MAX_INTERVAL_MINUTES,
        },
{
    if spec_interval_parts(s) is Some {
        let p = spec_interval_parts(s)->Some_0;
        let i = scan_digits(s, 0);
        lemma_scan_digits_ge(s, 0);
        if from == 0 {
            let big = digits_value(s.subrange(0, scan_digits(s, 0)));
            if s[i] == 'h' && i >= 1 {
                assert(p.0 == s.subrange(0, i));
                assert(digits_value(p.0) * 60 >= digits_value(p.0)) by (nonlinear_arith);
            } else {
                assert(p.1 == s.subrange(0, i));
            }
        } else {
            let j = scan_digits(s, from);
            if s[i] == 'h' && i >= 1 && !(j == s.len() && j == from) {
                assert(p.1 == s.subrange(from, j));
                assert(digits_value(p.0) * 60 >= 0) by (nonlinear_arith);
            }
        }
    }
}

/// The grammar read declaratively: a digit run followed by `'h'`, a digit
/// run followed by `'m'`, or both in that order, parse to the values of the
/// runs — and to nothing else.
pub proof fn lemma_interval_grammar(h: Seq<char>, m: Seq<char>)
    requires
        h.len() >= 1,
        m.len() >= 1,
        forall|k: int| 0 <= k < h.len() ==> is_digit(#[trigger] h[k]),
        forall|k: int| 0 <= k < m.len() ==> is_digit(#[trigger] m[k]),
    ensures
        spec_interval_parts(h + seq!['h'] + m + seq!['m']) == Some((h, m)),
        spec_interval_parts(h + seq!['h']) == Some((h, Seq::<char>::empty())),
        spec_interval_parts(m + seq!['m']) == Some((Seq::<char>::empty(), m)),
{
    let both = h + seq!['h'] + m + seq!['m'];
    let honly = h + seq!['h'];
    let monly = m + seq!['m'];

    let hl = h.len() as int;
    let ml = m.len() as int;
    lemma_scan_digits_run(both, 0, hl);
    assert(both[hl] == 'h');
    lemma_scan_digits_run(both, hl + 1, hl + 1 + ml);
    assert(both[both.len() - 1] == 'm');
    assert(both.subrange(0, hl) =~= h);
    assert(both.subrange(hl + 1, hl + 1 + ml) =~= m);

    lemma_scan_digits_run(honly, 0, hl);
    assert(honly[hl] == 'h');
    assert(scan_digits(honly, hl + 1) == hl + 1);
    assert(honly.subrange(0, hl) =~= h);

    lemma_scan_digits_run(monly, 0, ml);
    assert(monly[ml] == 'm');
    assert(monly.subrange(0, ml) =~= m);
}

/// A minutes part standing before an hours part never parses: the grammar
/// fixes the order as hours first.
pub proof fn lemma_minutes_before_hours_rejected(m: Seq<char>, h: Seq<char>)
    requires
        m.len() >= 1,
        h.len() >= 1,
        forall|k: int| 0 <= k < m.len() ==> is_digit(#[trigger] m[k]),
        forall|k: int| 0 <= k < h.len() ==> is_digit(#[trigger] h[k]),
    ensures
        spec_interval_parts(m + seq!['m'] + h + seq!['h']) is None,
{
    let s = m + seq!['m'] + h + seq!['h'];
    let ml = m.len() as int;
    lemma_scan_digits_run(s, 0, ml);
    assert(s[ml] == 'm');
}

/// Everything scanned over by `scan_digits` is a digit.
proof fn lemma_scan_digits_all_digits(s: Seq<char>, from: int)
    requires
        0 <= from,
    ensures
        forall|k: int| from <= k < scan_digits(s, from) ==> is_digit(#[trigger] s[k]),
    decreases s.len() - from,
{
    if 0 <= from < s.len() && is_digit(s[from]) {
        lemma_scan_digits_all_digits(s, from + 1);
    }
}

/// A string holding any character that is neither a digit nor one of the
/// unit letters `'h'` and `'m'` never parses as an interval.
pub proof fn lemma_foreign_char_rejected(s: Seq<char>, k: int)
    requires
        0 <= k < s.len(),
        !is_digit(s[k]),
        s[k] != 'h',
        s[k] != 'm',
    ensures
        spec_interval_parts(s) is None,
{
    if spec_interval_parts(s) is Some {
        let i = scan_digits(s, 0);
        lemma_scan_digits_ge(s, 0);
        lemma_scan_digits_all_digits(s, 0);
        assert(k > i);
        lemma_scan_digits_ge(s, i + 1);
        lemma_scan_digits_all_digits(s, i + 1);
        assert(false);
    }
}

/// `scan_digits` stops exactly at the end of a digit run.
proof fn lemma_scan_digits_run(s: Seq<char>, from: int, end: int)
    requires
        0 <= from <= end <= s.len(),
        forall|k: int| from <= k < end ==> is_digit(#[trigger] s[k]),
        end == s.len() || !is_digit(s[end]),
    ensures
        scan_digits(s, from) == end,
    decreases end - from,
{
    if from < end {
        lemma_scan_digits_run(s, from + 1, end);
    }
}

} // verus!
