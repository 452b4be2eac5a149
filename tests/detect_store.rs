use tracekey::detect::{plan_cycle, DEBOUNCE_WINDOW_NANOS};
use tracekey::observation::{LastKnownState, Observation};
use tracekey::store::merge_states;
use tracekey::time::{elapsed_exceeds, Timestamp, NANOS_PER_MINUTE};

const URL: &str = "https://a.example";

fn at_minute(m: i64) -> Timestamp {
    Timestamp::from_parts(1_700_000_000 + m * 60, 0)
}

fn ok(url: &str, t: Timestamp, colo: Option<&str>) -> Observation {
    Observation {
        timestamp: t,
        url: url.to_string(),
        success: true,
        rtt_millis: Some(120),
        error: None,
        colo: colo.map(|c| c.to_string()),
    }
}

fn state(url: &str, colo: &str, seen: Timestamp, notified: Timestamp) -> LastKnownState {
    LastKnownState {
        url: url.to_string(),
        colo: Some(colo.to_string()),
        timestamp: seen,
        last_notification_timestamp: notified,
    }
}

#[test]
fn change_after_window_is_announced() {
    let prev = vec![state(URL, "NRT", at_minute(0), at_minute(-60))];
    let now = at_minute(1);
    let results = vec![ok(URL, now, Some("KIX"))];
    let plan = plan_cycle(&results, prev, now, DEBOUNCE_WINDOW_NANOS);
    assert_eq!(plan.changes.len(), 1);
    assert_eq!(plan.changes[0].url, URL);
    assert_eq!(plan.changes[0].previous, "NRT");
    assert_eq!(plan.changes[0].current, "KIX");
    assert_eq!(plan.changes[0].rtt_millis, Some(120));
    assert_eq!(plan.updates.len(), 1);
    assert_eq!(plan.updates[0].colo, Some("KIX".to_string()));
    assert_eq!(plan.updates[0].timestamp, now);
    assert_eq!(plan.updates[0].last_notification_timestamp, now);
}

#[test]
fn second_change_two_minutes_later_is_suppressed() {
    let stored = vec![state(URL, "NRT", at_minute(0), at_minute(-60))];
    let t1 = at_minute(1);
    let plan1 = plan_cycle(&vec![ok(URL, t1, Some("KIX"))], stored.clone(), t1, DEBOUNCE_WINDOW_NANOS);
    assert_eq!(plan1.changes.len(), 1);
    let stored = merge_states(&stored, &plan1.updates);

    let t2 = at_minute(3);
    let plan2 = plan_cycle(&vec![ok(URL, t2, Some("NRT"))], stored.clone(), t2, DEBOUNCE_WINDOW_NANOS);
    assert_eq!(plan2.changes.len(), 0);
    // the suppressed change leaves the last alert time where it was
    assert_eq!(plan2.updates[0].last_notification_timestamp, t1);
}

#[test]
fn second_change_six_minutes_later_is_sent() {
    let stored = vec![state(URL, "NRT", at_minute(0), at_minute(-60))];
    let t1 = at_minute(1);
    let plan1 = plan_cycle(&vec![ok(URL, t1, Some("KIX"))], stored.clone(), t1, DEBOUNCE_WINDOW_NANOS);
    assert_eq!(plan1.changes.len(), 1);
    let stored = merge_states(&stored, &plan1.updates);

    let t2 = at_minute(7);
    let plan2 = plan_cycle(&vec![ok(URL, t2, Some("NRT"))], stored, t2, DEBOUNCE_WINDOW_NANOS);
    assert_eq!(plan2.changes.len(), 1);
    assert_eq!(plan2.changes[0].previous, "KIX");
    assert_eq!(plan2.changes[0].current, "NRT");
    assert_eq!(plan2.updates[0].last_notification_timestamp, t2);
}

#[test]
fn exactly_one_window_later_is_still_suppressed() {
    let prev = vec![state(URL, "NRT", at_minute(0), at_minute(0))];
    let now = at_minute(5);
    let plan = plan_cycle(&vec![ok(URL, now, Some("KIX"))], prev, now, DEBOUNCE_WINDOW_NANOS);
    assert_eq!(plan.changes.len(), 0);
}

#[test]
fn one_alert_per_target_within_a_cycle() {
    let prev = vec![state(URL, "NRT", at_minute(0), at_minute(-60))];
    let now = at_minute(1);
    let results = vec![ok(URL, now, Some("KIX")), ok(URL, now, Some("LAX"))];
    let plan = plan_cycle(&results, prev, now, DEBOUNCE_WINDOW_NANOS);
    assert_eq!(plan.changes.len(), 1);
    assert_eq!(plan.updates.len(), 2);
}

#[test]
fn no_alert_without_known_state_or_identifier() {
    let now = at_minute(1);
    let plan = plan_cycle(&vec![ok(URL, now, Some("KIX"))], Vec::new(), now, DEBOUNCE_WINDOW_NANOS);
    assert_eq!(plan.changes.len(), 0);
    // a new target starts with the current time as its last alert
    assert_eq!(plan.updates[0].last_notification_timestamp, now);

    let prev = vec![state(URL, "NRT", at_minute(0), at_minute(-60))];
    let plan = plan_cycle(&vec![ok(URL, now, None)], prev, now, DEBOUNCE_WINDOW_NANOS);
    assert_eq!(plan.changes.len(), 0);
    assert_eq!(plan.updates[0].colo, None);
}

#[test]
fn unchanged_identifier_or_failure_is_quiet() {
    let prev = vec![state(URL, "NRT", at_minute(0), at_minute(-60))];
    let now = at_minute(1);
    let failure = Observation {
        timestamp: now,
        url: URL.to_string(),
        success: false,
        rtt_millis: None,
        error: Some("connection refused".to_string()),
        colo: None,
    };
    let results = vec![ok(URL, now, Some("NRT")), failure];
    let plan = plan_cycle(&results, prev, now, DEBOUNCE_WINDOW_NANOS);
    assert_eq!(plan.changes.len(), 0);
    assert_eq!(plan.updates.len(), 1);
    assert_eq!(plan.updates[0].last_notification_timestamp, at_minute(-60));
}

#[test]
fn merge_keeps_old_targets_and_takes_new_values() {
    let existing = vec![
        state("https://a.example", "NRT", at_minute(0), at_minute(0)),
        state("https://b.example", "KIX", at_minute(0), at_minute(0)),
    ];
    let updates = vec![
        state("https://b.example", "LAX", at_minute(1), at_minute(1)),
        state("https://c.example", "SIN", at_minute(1), at_minute(1)),
    ];
    let mut merged = merge_states(&existing, &updates);
    merged.sort_by(|x, y| x.url.cmp(&y.url));
    assert_eq!(merged.len(), 3);
    assert_eq!(merged[0].url, "https://a.example");
    assert_eq!(merged[0].colo, Some("NRT".to_string()));
    assert_eq!(merged[1].url, "https://b.example");
    assert_eq!(merged[1].colo, Some("LAX".to_string()));
    assert_eq!(merged[1].timestamp, at_minute(1));
    assert_eq!(merged[2].url, "https://c.example");
}

#[test]
fn merge_collapses_repeated_targets() {
    let existing = vec![
        state(URL, "NRT", at_minute(0), at_minute(0)),
        state(URL, "KIX", at_minute(1), at_minute(1)),
    ];
    let merged = merge_states(&existing, &Vec::new());
    assert_eq!(merged.len(), 1);
    assert_eq!(merged[0].colo, Some("KIX".to_string()));
}

#[test]
fn window_is_exclusive() {
    let a = at_minute(0);
    assert!(!elapsed_exceeds(a, at_minute(5), 5 * NANOS_PER_MINUTE));
    assert!(elapsed_exceeds(a, Timestamp { nanos: at_minute(5).nanos + 1 }, 5 * NANOS_PER_MINUTE));
    assert!(!elapsed_exceeds(at_minute(5), a, 0));
    assert!(elapsed_exceeds(Timestamp { nanos: i128::MIN }, Timestamp { nanos: i128::MAX }, u64::MAX));
}

#[test]
fn timestamp_from_parts() {
    assert_eq!(Timestamp::from_parts(2, 5).nanos, 2_000_000_005);
    assert_eq!(Timestamp::from_parts(-1, 0).nanos, -1_000_000_000);
}
