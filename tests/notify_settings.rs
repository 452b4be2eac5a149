use tracekey::alert::{
    alert_line, alert_message, batch_message, decimal_text, display_host, host_or_url, rtt_badge,
};
use tracekey::detect::ColoChange;
use tracekey::notify::{
    notes_url, report_delivery, should_dispatch, Delivery, DeliveryStep, ReportDelivery, MAX_ATTEMPTS,
};
use tracekey::schedule::{Action, Scheduler, Tick};
use tracekey::settings::{
    check_interval, check_scheme, check_target, validate_report_settings, validate_settings, MonitorSettings, SettingError,
};
use tracekey::log::OutputFormat;
use tracekey::time::Timestamp;
use tracekey::window::{is_readable_interval, report_window, window_from_span, WindowError};

fn change(url: &str, prev: &str, cur: &str, rtt: Option<u64>) -> ColoChange {
    ColoChange {
        url: url.to_string(),
        previous: prev.to_string(),
        current: cur.to_string(),
        rtt_millis: rtt,
    }
}

#[test]
fn alert_line_for_a_change() {
    let m = alert_message(&change("https://example.com/x", "NRT", "KIX", Some(120)));
    assert_eq!(
        m,
        "<small>`NRT`</small>\u{2192}`KIX` $[border.color=0000,radius=10 $[bg.color=3a3 $[fg.color=fff  120<small>ms</small> ]]] ?[example.com](https://example.com/x)"
    );
}

#[test]
fn alert_line_without_time() {
    let m = alert_message(&change("https://example.com", "NRT", "KIX", None));
    assert_eq!(
        m,
        "<small>`NRT`</small>\u{2192}`KIX` $[border.color=0000,radius=10 $[bg.color=999 $[fg.color=fff  N/A<small></small> ]]] ?[example.com](https://example.com)"
    );
}

#[test]
fn alerts_batched_one_per_line() {
    let cs = vec![
        change("https://a.example", "NRT", "KIX", Some(10)),
        change("https://b.example", "LAX", "SJC", Some(1500)),
    ];
    let m = batch_message(&cs);
    let lines: Vec<&str> = m.split('\n').collect();
    assert_eq!(lines.len(), 2);
    assert_eq!(lines[0], alert_message(&cs[0]));
    assert_eq!(lines[1], alert_message(&cs[1]));
    assert!(lines[1].contains("bg.color=b22"));
    assert_eq!(batch_message(&Vec::new()), "");
}

#[test]
fn display_host_of_targets() {
    assert_eq!(display_host("https://sub.example.com:8443/path"), "sub.example.com");
    assert_eq!(display_host("no host here"), "no host here");
}

#[test]
fn badge_buckets() {
    assert_eq!(rtt_badge(Some(0)), ("3a3", "0".to_string(), "ms"));
    assert_eq!(rtt_badge(Some(299)), ("3a3", "299".to_string(), "ms"));
    assert_eq!(rtt_badge(Some(300)), ("991", "300".to_string(), "ms"));
    assert_eq!(rtt_badge(Some(499)), ("991", "499".to_string(), "ms"));
    assert_eq!(rtt_badge(Some(500)), ("c52", "500".to_string(), "ms"));
    assert_eq!(rtt_badge(Some(999)), ("c52", "999".to_string(), "ms"));
    assert_eq!(rtt_badge(Some(1000)), ("b22", "1000".to_string(), "ms"));
    assert_eq!(rtt_badge(None), ("999", "N/A".to_string(), ""));
}

#[test]
fn decimal_digits() {
    assert_eq!(decimal_text(0), "0");
    assert_eq!(decimal_text(7), "7");
    assert_eq!(decimal_text(120), "120");
    assert_eq!(decimal_text(u64::MAX), u64::MAX.to_string());
}

#[test]
fn delivery_retries_with_doubling_waits() {
    let mut d = Delivery::new();
    assert_eq!(d.record(false, 0), DeliveryStep::Retry { wait_millis: 1000 });
    assert_eq!(d.record(false, 250), DeliveryStep::Retry { wait_millis: 2000 });
    assert_eq!(d.record(false, 0), DeliveryStep::Retry { wait_millis: 4250 });
    assert_eq!(d.record(false, 999), DeliveryStep::Retry { wait_millis: 8500 });
    assert_eq!(d.record(false, 0), DeliveryStep::GaveUp { attempts: MAX_ATTEMPTS });
    assert_eq!(d.attempts, 5);
}

#[test]
fn delivery_succeeds_on_a_later_attempt() {
    let mut d = Delivery::new();
    assert_eq!(d.record(false, 10), DeliveryStep::Retry { wait_millis: 1000 });
    assert_eq!(d.record(true, 0), DeliveryStep::Delivered);
    assert_eq!(d.attempts, 2);
}

#[test]
fn delivery_wait_saturates() {
    let mut d = Delivery { attempts: 1, delay_millis: u64::MAX - 3 };
    assert_eq!(d.record(false, 999), DeliveryStep::Retry { wait_millis: u64::MAX - 3 });
    assert_eq!(d.delay_millis, u64::MAX);
}

#[test]
fn delivery_with_random_jitter() {
    let mut d = Delivery::new();
    assert_eq!(d.record_attempt(false), DeliveryStep::Retry { wait_millis: 1000 });
    assert!(d.delay_millis >= 2000 && d.delay_millis < 3000);
    for _ in 0..3 {
        let _ = d.record_attempt(false);
    }
    assert_eq!(d.record_attempt(false), DeliveryStep::GaveUp { attempts: 5 });
}

#[test]
fn notes_endpoint() {
    assert_eq!(
        notes_url("https://misskey.example/"),
        Some("https://misskey.example/api/notes/create".to_string())
    );
    assert_eq!(notes_url("misskey"), None);
}

#[test]
fn dispatch_needs_changes_switch_and_token() {
    let token = Some("SECRET-REDACTED".to_string());
    assert!(should_dispatch(2, true, &token));
    assert!(!should_dispatch(0, true, &token));
    assert!(!should_dispatch(2, false, &token));
    assert!(!should_dispatch(2, true, &None));
    assert!(!should_dispatch(2, true, &Some(String::new())));
}

#[test]
fn window_from_interval() {
    let until = Timestamp::from_parts(100_000, 0);
    assert_eq!(
        report_window(until, None, "1h"),
        Ok((Timestamp::from_parts(100_000 - 3600, 0), until))
    );
    assert_eq!(
        report_window(until, None, "1h 30m"),
        Ok((Timestamp::from_parts(100_000 - 5400, 0), until))
    );
    assert_eq!(report_window(until, None, "soon"), Err(WindowError::InvalidInterval));
}

#[test]
fn window_from_explicit_start() {
    let until = Timestamp::from_parts(100, 0);
    let since = Timestamp::from_parts(50, 0);
    assert_eq!(report_window(until, Some(since), "bogus"), Ok((since, until)));
    assert_eq!(report_window(until, Some(until), "1h"), Ok((until, until)));
    assert_eq!(
        report_window(since, Some(until), "1h"),
        Err(WindowError::SinceAfterUntil)
    );
}

#[test]
fn window_too_large() {
    let until = Timestamp::from_parts(100, 0);
    assert_eq!(report_window(until, None, "400000000years"), Err(WindowError::IntervalTooLarge));
}

fn settings() -> MonitorSettings {
    MonitorSettings {
        target_urls: vec!["https://a.example".to_string(), "http://b.example".to_string()],
        check_interval_seconds: 60,
        max_concurrent_checks: 4,
        notification_slots: 2,
        output_format: "jsonl".to_string(),
        reporting_enabled: true,
        report_interval: "1d".to_string(),
        rtt_threshold_ms: 300,
        p95_rtt_threshold_ms: 500,
    }
}

#[test]
fn valid_settings() {
    assert_eq!(validate_settings(&settings()), Ok(OutputFormat::Jsonl));
}

#[test]
fn each_setting_fault() {
    let mut s = settings();
    s.p95_rtt_threshold_ms = 100;
    assert_eq!(validate_settings(&s), Err(SettingError::ThresholdOrder));
    let mut s = settings();
    s.target_urls.push("ftp://c.example".to_string());
    assert_eq!(validate_settings(&s), Err(SettingError::UnsupportedScheme));
    let mut s = settings();
    s.target_urls.insert(0, "nonsense".to_string());
    assert_eq!(validate_settings(&s), Err(SettingError::InvalidTarget));
    let mut s = settings();
    s.output_format = "xml".to_string();
    assert_eq!(validate_settings(&s), Err(SettingError::UnsupportedOutputFormat));
    let mut s = settings();
    s.output_format = "none".to_string();
    assert_eq!(validate_settings(&s), Err(SettingError::ReportingWithoutLog));
    s.reporting_enabled = false;
    assert_eq!(validate_settings(&s), Ok(OutputFormat::Disabled));
    let mut s = settings();
    s.check_interval_seconds = 0;
    assert_eq!(validate_settings(&s), Err(SettingError::ZeroCheckInterval));
    let mut s = settings();
    s.max_concurrent_checks = 0;
    assert_eq!(validate_settings(&s), Err(SettingError::ZeroCheckConcurrency));
    let mut s = settings();
    s.notification_slots = 0;
    assert_eq!(validate_settings(&s), Err(SettingError::ZeroNotificationSlots));
    let mut s = settings();
    s.report_interval = "often".to_string();
    assert_eq!(validate_settings(&s), Err(SettingError::InvalidReportInterval));
    let mut s = settings();
    s.report_interval = "0s".to_string();
    assert_eq!(validate_settings(&s), Err(SettingError::ZeroReportInterval));
}

#[test]
fn target_schemes() {
    assert_eq!(check_target("https://a.example"), Ok(()));
    assert_eq!(check_target("HTTP://a.example"), Ok(()));
    assert_eq!(check_target("mailto:x@a.example"), Err(SettingError::UnsupportedScheme));
    assert_eq!(check_target("a.example"), Err(SettingError::InvalidTarget));
}

#[test]
fn scheduler_passes_over_first_report_tick() {
    let mut s = Scheduler::new(true);
    assert_eq!(s.on_tick(Tick::Check), Action::RunCheck);
    assert_eq!(s.on_tick(Tick::Report), Action::Idle);
    assert_eq!(s.on_tick(Tick::Report), Action::RunReport);
    assert_eq!(s.on_tick(Tick::Interrupt), Action::Stop);
    assert_eq!(s.on_tick(Tick::Check), Action::Stop);
}

#[test]
fn scheduler_without_reports() {
    let mut s = Scheduler::new(false);
    assert_eq!(s.on_tick(Tick::Report), Action::Idle);
    assert_eq!(s.on_tick(Tick::Report), Action::Idle);
    assert_eq!(s.on_tick(Tick::Check), Action::RunCheck);
}

#[test]
fn unreadable_intervals_are_refused() {
    let until = Timestamp::from_parts(100_000, 0);
    assert_eq!(
        report_window(until, None, "18446744073709551615s 1000000000ns"),
        Err(WindowError::InvalidInterval)
    );
    // digits split by white space still form one number
    assert_eq!(
        report_window(until, None, "184467440 737095516 15s 100000000 0ns"),
        Err(WindowError::InvalidInterval)
    );
    assert_eq!(report_window(until, None, "123456789012s"), Err(WindowError::InvalidInterval));
    assert_eq!(
        report_window(until, None, "12345678901s"),
        Ok((Timestamp::from_parts(100_000 - 12_345_678_901, 0), until))
    );
    let long = "1s ".repeat(30);
    assert!(!is_readable_interval(&long));
    assert!(is_readable_interval(&"1h ".repeat(11)));
    assert!(is_readable_interval("99999999999y"));
    assert!(!is_readable_interval("999999999y 1h 30m"));
    assert!(is_readable_interval(""));
    let mut s = settings();
    s.report_interval = "18446744073709551615s 500ms 500ms".to_string();
    assert_eq!(validate_settings(&s), Err(SettingError::InvalidReportInterval));
}

#[test]
fn report_mode_checks_fewer_settings() {
    let mut s = settings();
    s.check_interval_seconds = 0;
    s.max_concurrent_checks = 0;
    assert_eq!(validate_report_settings(&s), Ok(OutputFormat::Jsonl));
    assert_eq!(validate_settings(&s), Err(SettingError::ZeroCheckInterval));
    s.p95_rtt_threshold_ms = 0;
    assert_eq!(validate_report_settings(&s), Err(SettingError::ThresholdOrder));
}

#[test]
fn report_markup_fate() {
    let token = Some("SECRET-REDACTED".to_string());
    assert_eq!(report_delivery(false, true, &token), ReportDelivery::Skip);
    assert_eq!(report_delivery(true, true, &None), ReportDelivery::Print);
    assert_eq!(report_delivery(true, false, &token), ReportDelivery::Post);
    assert_eq!(report_delivery(true, false, &Some(String::new())), ReportDelivery::Skip);
    assert_eq!(report_delivery(true, false, &None), ReportDelivery::Skip);
}

#[test]
fn window_from_parsed_span() {
    let until = Timestamp::from_parts(1_000, 0);
    assert_eq!(
        window_from_span(until, Some((10, 500))),
        Ok((Timestamp { nanos: until.nanos - 10_000_000_500 }, until))
    );
    assert_eq!(window_from_span(until, Some((0, 0))), Ok((until, until)));
    assert_eq!(window_from_span(until, None), Err(WindowError::InvalidInterval));
    // above i64::MAX milliseconds
    assert_eq!(
        window_from_span(until, Some((9_223_372_036_854_776, 0))),
        Err(WindowError::IntervalTooLarge)
    );
    assert_eq!(
        window_from_span(until, Some((9_223_372_036_854_775, 807_000_000))),
        Ok((Timestamp { nanos: until.nanos - 9_223_372_036_854_775_807_000_000 }, until))
    );
    let early = Timestamp { nanos: i128::MIN + 5 };
    assert_eq!(window_from_span(early, Some((1, 0))), Err(WindowError::IntervalTooLarge));
}

#[test]
fn scheme_and_interval_checks() {
    assert_eq!(check_scheme(&Some("http".to_string())), Ok(()));
    assert_eq!(check_scheme(&Some("https".to_string())), Ok(()));
    assert_eq!(check_scheme(&Some("ftp".to_string())), Err(SettingError::UnsupportedScheme));
    assert_eq!(check_scheme(&Some("HTTP".to_string())), Err(SettingError::UnsupportedScheme));
    assert_eq!(check_scheme(&None), Err(SettingError::InvalidTarget));
    assert_eq!(check_interval(Some((60, 0))), Ok(()));
    assert_eq!(check_interval(Some((0, 1))), Ok(()));
    assert_eq!(check_interval(Some((0, 0))), Err(SettingError::ZeroReportInterval));
    assert_eq!(check_interval(None), Err(SettingError::InvalidReportInterval));
}

#[test]
fn host_fallback_and_line() {
    assert_eq!(host_or_url(Some("a.example".to_string()), "https://a.example/x"), "a.example");
    assert_eq!(host_or_url(None, "odd"), "odd");
    let c = change("https://a.example", "NRT", "KIX", Some(450));
    assert_eq!(
        alert_line(&c, "shown"),
        "<small>`NRT`</small>\u{2192}`KIX` $[border.color=0000,radius=10 $[bg.color=991 $[fg.color=fff  450<small>ms</small> ]]] ?[shown](https://a.example)"
    );
}
