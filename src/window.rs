use vstd::prelude::*;

use crate::time::{Timestamp, NANOS_PER_SECOND};

verus! {

/// The seconds and sub-second nanoseconds of the duration that
/// `humantime::parse_duration` reads from `s`, or none where it fails.
pub uninterp spec fn duration_text(s: Seq<char>) -> Option<(u64, u32)>;

/// The most digits that an interval text may hold in all.
pub const MAX_INTERVAL_DIGITS: usize = 11;

/// Whether `c` is an ASCII digit.
pub open spec fn is_digit(c: char) -> bool {
    '0' <= c && c <= '9'
}

/// The number of digits in `s`, wherever they stand.
pub open spec fn digit_count(s: Seq<char>) -> nat
    decreases s.len(),
{
    if s.len() == 0 {
        0
    } else {
        digit_count(s.drop_last()) + if is_digit(s.last()) {
            1nat
        } else {
            0nat
        }
    }
}

/// An interval text that is read at all: one with at most
/// `MAX_INTERVAL_DIGITS` digits in all. The parser reads a number across
/// white space, so only the total bounds the numbers: all of them together
/// stay below 10^11, and even as years (31 557 600 s each), with every
/// fraction and nanosecond term added, the seconds stay below 4 * 10^18,
/// short of the `u64::MAX` at which the parser's carry of nanoseconds
/// would panic.
pub open spec fn readable_interval(s: Seq<char>) -> bool {
    digit_count(s) <= MAX_INTERVAL_DIGITS as nat
}

/// Whether `s` is a readable interval text (see `readable_interval`).
pub fn is_readable_interval(s: &str) -> (r: bool)
    ensures
        r == readable_interval(s@),
{
    let n = s.unicode_len();
    let mut count: usize = 0;
    let mut i: usize = 0;
    assert(s@.take(0) =~= Seq::<char>::empty());
    while i < n
        invariant
            i <= n,
            n == s@.len(),
            count == digit_count(s@.take(i as int)),
            count <= i,
        decreases n - i,
    {
        let c = s.get_char(i);
        let ghost p = s@.take(i + 1);
        assert(p.drop_last() =~= s@.take(i as int));
        assert(p.last() == c);
        if '0' <= c && c <= '9' {
            count = count + 1;
        }
        i = i + 1;
    }
    assert(s@.take(n as int) =~= s@);
    count <= MAX_INTERVAL_DIGITS
}

/// Relies on `humantime::parse_duration`: reads a duration such as
/// "1h 30m"; a `Duration` keeps its sub-second part below one second.
/// It panics only where the seconds reach `u64::MAX` before a carry of
/// nanoseconds; a readable text keeps them far below (see
/// `readable_interval`).
#[verifier::external_body]
pub(crate) fn parse_interval(s: &str) -> (r: Option<(u64, u32)>)
    requires
        readable_interval(s@),
    ensures
        r == duration_text(s@),
        r matches Some(d) ==> d.1 < 1_000_000_000,
{
    let d = humantime::parse_duration(s).ok()?;
    Some((d.as_secs(), d.subsec_nanos()))
}

/// The longest interval a window may span: `i64::MAX` milliseconds.
pub const MAX_INTERVAL_NANOS: i128 = 9_223_372_036_854_775_807_000_000;

/// Why no report window could be set.
#[derive(Clone, Copy, Debug, PartialEq, Eq, Structural)]
pub enum WindowError {
    /// The interval setting is no duration, or no readable text (see
    /// `readable_interval`).
    InvalidInterval,
    /// The interval is longer than a window may span.
    IntervalTooLarge,
    /// The window would start after it ends.
    SinceAfterUntil,
}

/// The start of the window that ends at `until` and spans `secs` seconds
/// and `sub` nanoseconds, or the error that the span gives.
pub open spec fn span_start(until: Timestamp, secs: u64, sub: u32) -> Result<int, WindowError> {
    let span = secs as int * NANOS_PER_SECOND + sub as int;
    if span > MAX_INTERVAL_NANOS || until.nanos - span < i128::MIN {
        Err(WindowError::IntervalTooLarge)
    } else {
        Ok(until.nanos - span)
    }
}

/// The start of the window that ends at `until` and spans `interval`, or
/// the error that the interval gives.
pub open spec fn window_start(until: Timestamp, interval: Seq<char>) -> Result<int, WindowError> {
    if !readable_interval(interval) {
        Err(WindowError::InvalidInterval)
    } else {
        match duration_text(interval) {
            None => Err(WindowError::InvalidInterval),
            Some(d) => span_start(until, d.0, d.1),
        }
    }
}

/// The window that ends at `until` and spans the parsed interval `parsed`
/// (seconds and nanoseconds), or none where the interval did not parse.
pub fn window_from_span(until: Timestamp, parsed: Option<(u64, u32)>) -> (r: Result<
    (Timestamp, Timestamp),
    WindowError,
>)
    ensures
        match parsed {
            None => r == Err::<(Timestamp, Timestamp), WindowError>(WindowError::InvalidInterval),
            Some(d) => match span_start(until, d.0, d.1) {
                Ok(start) => r == Ok::<(Timestamp, Timestamp), WindowError>(
                    (Timestamp { nanos: start as i128 }, until),
                ),
                Err(e) => r == Err::<(Timestamp, Timestamp), WindowError>(e),
            },
        },
{
    let (secs, sub) = match parsed {
        Some(d) => d,
        None => {
            return Err(WindowError::InvalidInterval);
        },
    };
    let span: i128 = secs as i128 * NANOS_PER_SECOND + sub as i128;
    if span > MAX_INTERVAL_NANOS {
        return Err(WindowError::IntervalTooLarge);
    }
    match until.nanos.checked_sub(span) {
        Some(n) => Ok((Timestamp { nanos: n }, until)),
        None => Err(WindowError::IntervalTooLarge),
    }
}

/// The window a report covers: from `since` when given, else from one
/// interval before `until`, up to `until`; it may not start after it ends.
pub fn report_window(until: Timestamp, since: Option<Timestamp>, interval: &str) -> (r: Result<
    (Timestamp, Timestamp),
    WindowError,
>)
    ensures
        match since {
            Some(s) => if s.nanos <= until.nanos {
                r == Ok::<(Timestamp, Timestamp), WindowError>((s, until))
            } else {
                r == Err::<(Timestamp, Timestamp), WindowError>(WindowError::SinceAfterUntil)
            },
            None => match window_start(until, interval@) {
                Ok(start) => r == Ok::<(Timestamp, Timestamp), WindowError>(
                    (Timestamp { nanos: start as i128 }, until),
                ),
                Err(e) => r == Err::<(Timestamp, Timestamp), WindowError>(e),
            },
        },
{
    match since {
        Some(s) => {
            if s.nanos > until.nanos {
                Err(WindowError::SinceAfterUntil)
            } else {
                Ok((s, until))
            }
        },
        None => {
            if !is_readable_interval(interval) {
                return Err(WindowError::InvalidInterval);
            }
            window_from_span(until, parse_interval(interval))
        },
    }
}

} // verus!
