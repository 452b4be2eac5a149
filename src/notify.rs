use vstd::prelude::*;

use crate::observation::opt_view;
use crate::trace::{join_url, url_joined};

verus! {

/// Attempts made at delivering one message before giving up.
pub const MAX_ATTEMPTS: u32 = 5;

/// The wait after the first failed attempt, in milliseconds.
pub const INITIAL_DELAY_MILLIS: u64 = 1000;

/// Random jitter added to each doubled wait stays below this, in
/// milliseconds.
pub const JITTER_BOUND_MILLIS: u64 = 1000;

/// The path of the note-creating call of the messaging endpoint.
pub const NOTES_PATH: &'static str = "/api/notes/create";

/// Relies on `rand::rng` and `rand::Rng::random_range`: a number drawn
/// from `0..bound`, which must not be empty.
#[verifier::external_body]
fn draw_below(bound: u64) -> (r: u64)
    requires
        bound > 0,
    ensures
        r < bound,
{
    rand::Rng::random_range(&mut rand::rng(), 0..bound)
}

/// Where notes are posted at the endpoint `base`.
pub fn notes_url(base: &str) -> (r: Option<String>)
    ensures
        opt_view(r) == url_joined(base@, NOTES_PATH@),
{
    join_url(base, NOTES_PATH)
}

/// Whether a batch of `n_changes` changes is sent: there is one, alerts
/// are switched on, and an access token is set.
pub fn should_dispatch(n_changes: usize, enabled: bool, token: &Option<String>) -> (r: bool)
    ensures
        r == (n_changes > 0 && enabled && (token matches Some(t) && t@.len() > 0)),
{
    match token {
        Some(t) => n_changes > 0 && enabled && t.as_str().unicode_len() > 0,
        None => false,
    }
}

/// What becomes of the markup rendering of a report.
#[derive(Clone, Copy, Debug, PartialEq, Eq, Structural)]
pub enum ReportDelivery {
    /// It is not sent anywhere.
    Skip,
    /// It is printed instead of posted.
    Print,
    /// It is posted to the messaging endpoint.
    Post,
}

/// The fate of a report's markup: nothing unless it is meant for the
/// endpoint; printed on a dry run; else posted where an access token is
/// set, and dropped where none is.
pub open spec fn report_delivery_of(to_endpoint: bool, dry_run: bool, token: Option<String>) -> ReportDelivery {
    if !to_endpoint {
        ReportDelivery::Skip
    } else if dry_run {
        ReportDelivery::Print
    } else if token matches Some(t) && t@.len() > 0 {
        ReportDelivery::Post
    } else {
        ReportDelivery::Skip
    }
}

/// Decides what becomes of a report's markup (see `report_delivery_of`).
pub fn report_delivery(to_endpoint: bool, dry_run: bool, token: &Option<String>) -> (r: ReportDelivery)
    ensures
        r == report_delivery_of(to_endpoint, dry_run, *token),
{
    if !to_endpoint {
        ReportDelivery::Skip
    } else if dry_run {
        ReportDelivery::Print
    } else {
        match token {
            Some(t) => if t.as_str().unicode_len() > 0 {
                ReportDelivery::Post
            } else {
                ReportDelivery::Skip
            },
            None => ReportDelivery::Skip,
        }
    }
}

/// What to do after an attempt at delivering a message.
#[derive(Clone, Copy, Debug, PartialEq, Eq, Structural)]
pub enum DeliveryStep {
    /// The endpoint accepted the message.
    Delivered,
    /// Wait this long, then try again.
    Retry { wait_millis: u64 },
    /// Every attempt failed.
    GaveUp { attempts: u32 },
}

/// The state of one delivery: attempts made, and the wait before the next.
#[derive(Clone, Copy, Debug, PartialEq, Eq, Structural)]
pub struct Delivery {
    pub attempts: u32,
    pub delay_millis: u64,
}

/// The wait after `delay`: doubled, plus `jitter`, saturating.
pub open spec fn next_delay(delay: u64, jitter: u64) -> u64 {
    if 2 * delay + jitter > u64::MAX {
        u64::MAX
    } else {
        (2 * delay + jitter) as u64
    }
}

impl Delivery {
    /// A delivery not yet attempted.
    pub fn new() -> (r: Delivery)
        ensures
            r.attempts == 0,
            r.delay_millis == INITIAL_DELAY_MILLIS,
    {
        Delivery { attempts: 0, delay_millis: INITIAL_DELAY_MILLIS }
    }

    /// Whether another attempt is due.
    pub open spec fn may_attempt(&self) -> bool {
        self.attempts < MAX_ATTEMPTS
    }

    /// Records an attempt: a success ends the delivery; a failure waits
    /// the current delay and grows it to `next_delay(delay, jitter)`,
    /// unless it was the last attempt allowed.
    pub fn record(&mut self, succeeded: bool, jitter_millis: u64) -> (r: DeliveryStep)
        requires
            old(self).may_attempt(),
        ensures
            final(self).attempts == old(self).attempts + 1,
            succeeded ==> r == DeliveryStep::Delivered && final(self).delay_millis == old(
                self,
            ).delay_millis,
            !succeeded && final(self).attempts >= MAX_ATTEMPTS ==> r == (DeliveryStep::GaveUp {
                attempts: MAX_ATTEMPTS,
            }) && final(self).delay_millis == old(self).delay_millis,
            !succeeded && final(self).attempts < MAX_ATTEMPTS ==> r == (DeliveryStep::Retry {
                wait_millis: old(self).delay_millis,
            }) && final(self).delay_millis == next_delay(old(self).delay_millis, jitter_millis),
    {
        self.attempts = self.attempts + 1;
        if succeeded {
            return DeliveryStep::Delivered;
        }
        if self.attempts >= MAX_ATTEMPTS {
            return DeliveryStep::GaveUp { attempts: MAX_ATTEMPTS };
        }
        let wait = self.delay_millis;
        self.delay_millis = if wait > (u64::MAX - jitter_millis) / 2 {
            u64::MAX
        } else {
            2 * wait + jitter_millis
        };
        DeliveryStep::Retry { wait_millis: wait }
    }

    /// Records an attempt as `record` does, with a jitter drawn at random
    /// below `JITTER_BOUND_MILLIS`.
    pub fn record_attempt(&mut self, succeeded: bool) -> (r: DeliveryStep)
        requires
            old(self).may_attempt(),
        ensures
            final(self).attempts == old(self).attempts + 1,
            succeeded ==> r == DeliveryStep::Delivered,
            !succeeded && final(self).attempts >= MAX_ATTEMPTS ==> r == (DeliveryStep::GaveUp {
                attempts: MAX_ATTEMPTS,
            }),
            !succeeded && final(self).attempts < MAX_ATTEMPTS ==> r == (DeliveryStep::Retry {
                wait_millis: old(self).delay_millis,
            }) && exists|j: u64|
                j < JITTER_BOUND_MILLIS && final(self).delay_millis == next_delay(
                    old(self).delay_millis,
                    j,
                ),
    {
        let jitter = if succeeded {
            0
        } else {
            draw_below(JITTER_BOUND_MILLIS)
        };
        self.record(succeeded, jitter)
    }
}

} // verus!
