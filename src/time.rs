use vstd::prelude::*;

verus! {

/// Nanoseconds in one second.
pub const NANOS_PER_SECOND: i128 = 1_000_000_000;

/// Nanoseconds in one minute.
pub const NANOS_PER_MINUTE: u64 = 60_000_000_000;

/// An instant in UTC, counted in nanoseconds from the Unix epoch.
#[derive(Clone, Copy, Debug, PartialEq, Eq, Structural)]
pub struct Timestamp {
    pub nanos: i128,
}

impl Timestamp {
    /// The instant `secs` seconds and `subsec_nanos` nanoseconds after the epoch.
    pub fn from_parts(secs: i64, subsec_nanos: u32) -> (r: Timestamp)
        ensures
            r.nanos == secs as int * NANOS_PER_SECOND + subsec_nanos as int,
    {
        proof {
            assert(i64::MIN as int * NANOS_PER_SECOND <= secs as int * NANOS_PER_SECOND
                <= i64::MAX as int * NANOS_PER_SECOND) by (nonlinear_arith)
                requires
                    i64::MIN <= secs <= i64::MAX,
            ;
        }
        Timestamp { nanos: secs as i128 * NANOS_PER_SECOND + subsec_nanos as i128 }
    }
}

/// Whether strictly more than `window_nanos` nanoseconds lie between
/// `earlier` and `later`.
pub open spec fn spec_elapsed_exceeds(earlier: Timestamp, later: Timestamp, window_nanos: u64) -> bool {
    later.nanos - earlier.nanos > window_nanos as int
}

/// Whether strictly more than `window_nanos` nanoseconds lie between
/// `earlier` and `later`.
pub fn elapsed_exceeds(earlier: Timestamp, later: Timestamp, window_nanos: u64) -> (r: bool)
    ensures
        r == spec_elapsed_exceeds(earlier, later, window_nanos),
{
    match later.nanos.checked_sub(earlier.nanos) {
        Some(d) => d > window_nanos as i128,
        None => later.nanos > earlier.nanos,
    }
}

} // verus!
