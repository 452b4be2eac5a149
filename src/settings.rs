use vstd::prelude::*;

use crate::colo::strs_view;
use crate::observation::opt_view;
use crate::text::same_text;
use crate::log::{output_format_of, parse_output_format, OutputFormat};
use crate::window::{duration_text, is_readable_interval, parse_interval, readable_interval};

verus! {

/// Why the settings were refused at startup.
#[derive(Clone, Copy, Debug, PartialEq, Eq, Structural)]
pub enum SettingError {
    /// The 95th-percentile threshold lies below the mean threshold.
    ThresholdOrder,
    /// A target is no URL.
    InvalidTarget,
    /// A target is neither an http nor an https URL.
    UnsupportedScheme,
    /// The output format is none of "none", "json" and "jsonl".
    UnsupportedOutputFormat,
    /// Reports are switched on but nothing is logged to report on.
    ReportingWithoutLog,
    /// The check interval is zero.
    ZeroCheckInterval,
    /// No probe may run at a time.
    ZeroCheckConcurrency,
    /// No alert may be sent at a time.
    ZeroNotificationSlots,
    /// The report interval is no duration, or no readable text (see
    /// `readable_interval`).
    InvalidReportInterval,
    /// The report interval is zero.
    ZeroReportInterval,
}

/// The scheme that `url::Url::parse` finds in `s`, or none where `s` does
/// not parse.
pub uninterp spec fn url_scheme(s: Seq<char>) -> Option<Seq<char>>;

/// Relies on `url::Url::parse` and `url::Url::scheme`: the scheme of an
/// absolute URL, in lower case.
#[verifier::external_body]
fn scheme_of(s: &str) -> (r: Option<String>)
    ensures
        opt_view(r) == url_scheme(s@),
{
    let parsed = url::Url::parse(s).ok()?;
    Some(parsed.scheme().to_string())
}

/// The settings that the monitoring loop depends on.
#[derive(Clone, Debug)]
pub struct MonitorSettings {
    pub target_urls: Vec<String>,
    pub check_interval_seconds: u64,
    pub max_concurrent_checks: usize,
    pub notification_slots: usize,
    pub output_format: String,
    pub reporting_enabled: bool,
    pub report_interval: String,
    pub rtt_threshold_ms: u64,
    pub p95_rtt_threshold_ms: u64,
}

/// What is wrong with a target whose URL has the scheme `scheme` (none
/// where it is no URL), if anything.
pub open spec fn scheme_error(scheme: Option<Seq<char>>) -> Option<SettingError> {
    match scheme {
        None => Some(SettingError::InvalidTarget),
        Some(sc) => if sc == "http"@ || sc == "https"@ {
            None
        } else {
            Some(SettingError::UnsupportedScheme)
        },
    }
}

/// What is wrong with one target, if anything.
pub open spec fn target_error(t: Seq<char>) -> Option<SettingError> {
    scheme_error(url_scheme(t))
}

/// What is wrong with a report interval that parsed to `parsed` (seconds
/// and nanoseconds; none where it did not parse), if anything.
pub open spec fn interval_error(parsed: Option<(u64, u32)>) -> Option<SettingError> {
    match parsed {
        None => Some(SettingError::InvalidReportInterval),
        Some(d) => if d.0 == 0 && d.1 == 0 {
            Some(SettingError::ZeroReportInterval)
        } else {
            None
        },
    }
}

/// Checks the scheme of a target URL: http or https (see `scheme_error`).
pub fn check_scheme(scheme: &Option<String>) -> (r: Result<(), SettingError>)
    ensures
        match scheme_error(opt_view(*scheme)) {
            Some(e) => r == Err::<(), SettingError>(e),
            None => r is Ok,
        },
{
    proof {
        reveal_strlit("http");
        reveal_strlit("https");
    }
    match scheme {
        None => Err(SettingError::InvalidTarget),
        Some(sc) => {
            if same_text(sc.as_str(), "http") || same_text(sc.as_str(), "https") {
                Ok(())
            } else {
                Err(SettingError::UnsupportedScheme)
            }
        },
    }
}

/// Checks a parsed report interval: it parsed, and is not zero (see
/// `interval_error`).
pub fn check_interval(parsed: Option<(u64, u32)>) -> (r: Result<(), SettingError>)
    ensures
        match interval_error(parsed) {
            Some(e) => r == Err::<(), SettingError>(e),
            None => r is Ok,
        },
{
    match parsed {
        None => Err(SettingError::InvalidReportInterval),
        Some(d) => if d.0 == 0 && d.1 == 0 {
            Err(SettingError::ZeroReportInterval)
        } else {
            Ok(())
        },
    }
}

/// What is wrong with the first faulty target of `ts`, if anything.
pub open spec fn targets_error(ts: Seq<Seq<char>>) -> Option<SettingError>
    decreases ts.len(),
{
    if ts.len() == 0 {
        None
    } else {
        match targets_error(ts.drop_last()) {
            Some(e) => Some(e),
            None => target_error(ts.last()),
        }
    }
}

/// The first fault of the settings that a single report depends on, in
/// the order in which they are checked, or none.
pub open spec fn report_settings_error(s: MonitorSettings) -> Option<SettingError> {
    if s.p95_rtt_threshold_ms < s.rtt_threshold_ms {
        Some(SettingError::ThresholdOrder)
    } else if targets_error(strs_view(s.target_urls@)) is Some {
        targets_error(strs_view(s.target_urls@))
    } else if output_format_of(s.output_format@) is None {
        Some(SettingError::UnsupportedOutputFormat)
    } else if s.reporting_enabled && output_format_of(s.output_format@) == Some(
        OutputFormat::Disabled,
    ) {
        Some(SettingError::ReportingWithoutLog)
    } else {
        None
    }
}

/// The first fault of the settings that the monitoring loop depends on, in
/// the order in which they are checked, or none.
pub open spec fn settings_error(s: MonitorSettings) -> Option<SettingError> {
    if report_settings_error(s) is Some {
        report_settings_error(s)
    } else if s.check_interval_seconds == 0 {
        Some(SettingError::ZeroCheckInterval)
    } else if s.max_concurrent_checks == 0 {
        Some(SettingError::ZeroCheckConcurrency)
    } else if s.notification_slots == 0 {
        Some(SettingError::ZeroNotificationSlots)
    } else if !readable_interval(s.report_interval@) {
        Some(SettingError::InvalidReportInterval)
    } else {
        interval_error(duration_text(s.report_interval@))
    }
}

/// Checks a target URL.
pub fn check_target(t: &str) -> (r: Result<(), SettingError>)
    ensures
        match target_error(t@) {
            Some(e) => r == Err::<(), SettingError>(e),
            None => r is Ok,
        },
{
    let scheme = scheme_of(t);
    assert(opt_view(scheme) == url_scheme(t@));
    check_scheme(&scheme)
}

/// Checks the settings before a single report; the error is the first
/// fault in the order of `report_settings_error`.
pub fn validate_report_settings(s: &MonitorSettings) -> (r: Result<OutputFormat, SettingError>)
    ensures
        match report_settings_error(*s) {
            Some(e) => r == Err::<OutputFormat, SettingError>(e),
            None => r == Ok::<OutputFormat, SettingError>(output_format_of(s.output_format@)->0),
        },
{
    if s.p95_rtt_threshold_ms < s.rtt_threshold_ms {
        return Err(SettingError::ThresholdOrder);
    }
    let ghost ts = strs_view(s.target_urls@);
    let mut i: usize = 0;
    while i < s.target_urls.len()
        invariant
            0 <= i <= s.target_urls.len(),
            ts == strs_view(s.target_urls@),
            targets_error(ts.subrange(0, i as int)) is None,
            s.p95_rtt_threshold_ms >= s.rtt_threshold_ms,
        decreases s.target_urls.len() - i,
    {
        assert(ts.subrange(0, i + 1).drop_last() =~= ts.subrange(0, i as int));
        assert(ts.subrange(0, i + 1).last() == s.target_urls@[i as int]@);
        match check_target(s.target_urls[i].as_str()) {
            Err(e) => {
                proof {
                    lemma_targets_error_prefix(ts, i + 1);
                }
                return Err(e);
            },
            Ok(()) => {},
        }
        i = i + 1;
    }
    assert(ts.subrange(0, ts.len() as int) =~= ts);
    let format = match parse_output_format(s.output_format.as_str()) {
        Ok(f) => f,
        Err(e) => {
            return Err(e);
        },
    };
    if s.reporting_enabled && !format.logs() {
        return Err(SettingError::ReportingWithoutLog);
    }
    Ok(format)
}

/// Checks the settings before monitoring starts; the error is the first
/// fault in the order of `settings_error`.
pub fn validate_settings(s: &MonitorSettings) -> (r: Result<OutputFormat, SettingError>)
    ensures
        match settings_error(*s) {
            Some(e) => r == Err::<OutputFormat, SettingError>(e),
            None => r == Ok::<OutputFormat, SettingError>(output_format_of(s.output_format@)->0),
        },
{
    let format = match validate_report_settings(s) {
        Ok(f) => f,
        Err(e) => {
            return Err(e);
        },
    };
    if s.check_interval_seconds == 0 {
        return Err(SettingError::ZeroCheckInterval);
    }
    if s.max_concurrent_checks == 0 {
        return Err(SettingError::ZeroCheckConcurrency);
    }
    if s.notification_slots == 0 {
        return Err(SettingError::ZeroNotificationSlots);
    }
    if !is_readable_interval(s.report_interval.as_str()) {
        return Err(SettingError::InvalidReportInterval);
    }
    match check_interval(parse_interval(s.report_interval.as_str())) {
        Ok(()) => Ok(format),
        Err(e) => Err(e),
    }
}

/// Once a prefix of the targets holds a fault, the first such fault is
/// that of the whole list.
pub proof fn lemma_targets_error_prefix(ts: Seq<Seq<char>>, n: int)
    requires
        0 <= n <= ts.len(),
        targets_error(ts.subrange(0, n)) is Some,
    ensures
        targets_error(ts) == targets_error(ts.subrange(0, n)),
    decreases ts.len(),
{
    if ts.len() > n {
        assert(ts.drop_last().subrange(0, n) =~= ts.subrange(0, n));
        lemma_targets_error_prefix(ts.drop_last(), n);
    } else {
        assert(ts.subrange(0, n) =~= ts);
    }
}

} // verus!
