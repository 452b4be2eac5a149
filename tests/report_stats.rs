use tracekey::observation::Observation;
use tracekey::report::{generate_report, target_stats};
use tracekey::stats::{mean, percentile, rtt_stats, sort_values, uptime_milli, RttStats};
use tracekey::colo::{count_transitions, distinct_colos, is_less, most_frequent_colo};
use tracekey::time::Timestamp;

fn ts(secs: i64) -> Timestamp {
    Timestamp::from_parts(secs, 0)
}

fn ok(url: &str, secs: i64, rtt: u64, colo: Option<&str>) -> Observation {
    Observation {
        timestamp: ts(secs),
        url: url.to_string(),
        success: true,
        rtt_millis: Some(rtt),
        error: None,
        colo: colo.map(|c| c.to_string()),
    }
}

fn failed(url: &str, secs: i64) -> Observation {
    Observation {
        timestamp: ts(secs),
        url: url.to_string(),
        success: false,
        rtt_millis: None,
        error: Some("timeout".to_string()),
        colo: None,
    }
}

fn strings(v: &[&str]) -> Vec<String> {
    v.iter().map(|s| s.to_string()).collect()
}

#[test]
fn percentile_of_one_sample() {
    let v = vec![42u64];
    assert_eq!(percentile(&v, 95), 4200);
    assert_eq!(percentile(&v, 50), 4200);
    assert_eq!(percentile(&v, 0), 4200);
}

#[test]
fn percentile_of_two_samples() {
    let v = vec![10u64, 20];
    // rank 0.95: 10 + 0.95 * 10 = 19.5
    assert_eq!(percentile(&v, 95), 1950);
    assert_eq!(percentile(&v, 50), 1500);
    assert_eq!(percentile(&v, 100), 2000);
    assert_eq!(percentile(&v, 0), 1000);
}

#[test]
fn percentile_of_five_samples() {
    let v = vec![10u64, 20, 30, 40, 100];
    // rank 3.8: 40 + 0.8 * 60 = 88
    assert_eq!(percentile(&v, 95), 8800);
    assert_eq!(percentile(&v, 50), 3000);
    // rank 1.0 exactly
    assert_eq!(percentile(&v, 25), 2000);
}

#[test]
fn percentile_of_six_samples() {
    let v = vec![1u64, 2, 3, 4, 5, 6];
    // rank 4.75: 5 + 0.75 = 5.75
    assert_eq!(percentile(&v, 95), 575);
    // rank 2.5: 3.5
    assert_eq!(percentile(&v, 50), 350);
}

#[test]
fn percentile_of_nothing_is_zero() {
    let v: Vec<u64> = Vec::new();
    assert_eq!(percentile(&v, 95), 0);
}

#[test]
fn sort_orders_values() {
    let v = vec![100u64, 10, 40, 30, 20, 10];
    assert_eq!(sort_values(&v), vec![10, 10, 20, 30, 40, 100]);
}

#[test]
fn mean_rounds_to_hundredths() {
    assert_eq!(mean(&vec![1, 2]), 150);
    assert_eq!(mean(&vec![1, 1, 2]), 133);
    assert_eq!(mean(&vec![1, 2, 2]), 167);
    assert_eq!(mean(&vec![]), 0);
    assert_eq!(mean(&vec![u64::MAX, u64::MAX]), u64::MAX as u128 * 100);
}

#[test]
fn rtt_stats_of_unsorted_samples() {
    let s = rtt_stats(&vec![100, 10, 40, 30, 20]);
    assert_eq!(
        s,
        RttStats { min: 10, max: 100, mean_centi: 4000, median_centi: 3000, p95_centi: 8800 }
    );
}

#[test]
fn rtt_stats_of_nothing_are_zero() {
    let s = rtt_stats(&vec![]);
    assert_eq!(s, RttStats { min: 0, max: 0, mean_centi: 0, median_centi: 0, p95_centi: 0 });
}

#[test]
fn uptime_in_thousandths_of_a_percent() {
    assert_eq!(uptime_milli(8, 10), 80_000);
    assert_eq!(uptime_milli(5, 5), 100_000);
    assert_eq!(uptime_milli(13, 15), 86_667);
    assert_eq!(uptime_milli(0, 3), 0);
    assert_eq!(uptime_milli(0, 0), 0);
}

#[test]
fn overall_uptime_pools_checks() {
    let mut rs = Vec::new();
    for i in 0..10 {
        if i < 8 {
            rs.push(ok("https://a.example", i, 50, Some("NRT")));
        } else {
            rs.push(failed("https://a.example", i));
        }
    }
    for i in 0..5 {
        rs.push(ok("https://b.example", i, 70, Some("KIX")));
    }
    let targets = strings(&["https://a.example", "https://b.example"]);
    let r = generate_report(&rs, &targets, ts(0), ts(100));
    assert_eq!(r.target_stats[0].uptime_milli, 80_000);
    assert_eq!(r.target_stats[1].uptime_milli, 100_000);
    assert_eq!(r.overall_successful, 13);
    assert_eq!(r.overall_total, 15);
    // 13 / 15 = 86.667 %, not the mean of 80 % and 100 %
    assert_eq!(r.overall_uptime_milli, 86_667);
}

#[test]
fn transitions_follow_time_not_log_order() {
    // log order B, A, A, A but time order A, A, B, A
    let rs = vec![
        ok("https://a.example", 30, 10, Some("B")),
        ok("https://a.example", 10, 10, Some("A")),
        ok("https://a.example", 20, 10, Some("A")),
        ok("https://a.example", 40, 10, Some("A")),
    ];
    let s = target_stats(&rs, &"https://a.example".to_string());
    assert_eq!(s.colo_transitions, 2);
    assert_eq!(s.unique_colos, strings(&["A", "B"]));
    assert_eq!(s.most_frequent_colo, Some("A".to_string()));
}

#[test]
fn target_with_repeated_identifiers() {
    let rs = vec![
        ok("https://a.example", 1, 10, Some("A")),
        ok("https://a.example", 2, 10, Some("A")),
        ok("https://a.example", 3, 10, Some("B")),
        ok("https://a.example", 4, 10, Some("A")),
    ];
    let s = target_stats(&rs, &"https://a.example".to_string());
    assert_eq!(s.colo_transitions, 2);
    assert_eq!(s.unique_colos, strings(&["A", "B"]));
    assert_eq!(s.total_checks, 4);
    assert_eq!(s.successful_checks, 4);
}

#[test]
fn most_frequent_tie_goes_to_greatest() {
    let c = strings(&["KIX", "NRT", "NRT", "KIX"]);
    assert_eq!(most_frequent_colo(&c), Some("NRT".to_string()));
    let c = strings(&["NRT", "KIX", "KIX", "NRT", "KIX"]);
    assert_eq!(most_frequent_colo(&c), Some("KIX".to_string()));
    assert_eq!(most_frequent_colo(&Vec::new()), None);
}

#[test]
fn distinct_and_transitions_of_identifiers() {
    let c = strings(&["A", "A", "B", "A", "C"]);
    assert_eq!(distinct_colos(&c), strings(&["A", "B", "C"]));
    assert_eq!(count_transitions(&c), 3);
    assert_eq!(count_transitions(&strings(&["A"])), 0);
    assert_eq!(count_transitions(&Vec::new()), 0);
}

#[test]
fn lexicographic_order() {
    assert!(is_less("KIX", "NRT"));
    assert!(!is_less("NRT", "KIX"));
    assert!(is_less("NR", "NRT"));
    assert!(!is_less("NRT", "NRT"));
    assert!(is_less("", "A"));
    assert!(!is_less("b", "B"));
}

#[test]
fn report_statistics_per_target() {
    let rs = vec![
        ok("https://a.example", 1, 100, Some("NRT")),
        failed("https://a.example", 2),
        ok("https://a.example", 3, 300, Some("KIX")),
        ok("https://other.example", 3, 5, Some("LAX")),
    ];
    let targets = strings(&["https://a.example", "https://quiet.example"]);
    let r = generate_report(&rs, &targets, ts(0), ts(10));
    assert_eq!(r.configured_targets, 2);
    assert_eq!(r.reported_targets, 1);
    assert_eq!(r.since, ts(0));
    assert_eq!(r.until, ts(10));
    let s = &r.target_stats[0];
    assert_eq!(s.url, "https://a.example");
    assert_eq!(s.total_checks, 3);
    assert_eq!(s.successful_checks, 2);
    assert_eq!(s.uptime_milli, 66_667);
    assert_eq!(s.rtt.min, 100);
    assert_eq!(s.rtt.max, 300);
    assert_eq!(s.rtt.mean_centi, 20_000);
    assert_eq!(s.rtt.median_centi, 20_000);
    // rank 0.95: 100 + 0.95 * 200 = 290
    assert_eq!(s.rtt.p95_centi, 29_000);
    assert_eq!(s.colo_transitions, 1);
    assert_eq!(s.most_frequent_colo, Some("NRT".to_string()));
    // the observation of an unconfigured target is not counted
    assert_eq!(r.overall_total, 3);
    assert_eq!(r.overall_successful, 2);
}

#[test]
fn repeated_target_is_reported_once() {
    let rs = vec![ok("https://a.example", 1, 100, Some("NRT"))];
    let targets = strings(&["https://a.example", "https://a.example"]);
    let r = generate_report(&rs, &targets, ts(0), ts(10));
    assert_eq!(r.configured_targets, 2);
    assert_eq!(r.reported_targets, 1);
    assert_eq!(r.overall_total, 1);
}

#[test]
fn report_without_observations() {
    let targets = strings(&["https://a.example"]);
    let r = generate_report(&Vec::new(), &targets, ts(0), ts(10));
    assert_eq!(r.reported_targets, 0);
    assert_eq!(r.overall_total, 0);
    assert_eq!(r.overall_uptime_milli, 0);
}

#[test]
fn target_without_identifiers() {
    let rs = vec![failed("https://a.example", 1), failed("https://a.example", 2)];
    let s = target_stats(&rs, &"https://a.example".to_string());
    assert_eq!(s.total_checks, 2);
    assert_eq!(s.successful_checks, 0);
    assert_eq!(s.uptime_milli, 0);
    assert_eq!(s.rtt, RttStats { min: 0, max: 0, mean_centi: 0, median_centi: 0, p95_centi: 0 });
    assert!(s.unique_colos.is_empty());
    assert_eq!(s.most_frequent_colo, None);
}

#[test]
fn identifiers_of_failed_observations_do_not_count() {
    let mut failed_with_colo = failed("https://a.example", 2);
    failed_with_colo.colo = Some("LAX".to_string());
    let rs = vec![
        ok("https://a.example", 1, 10, Some("NRT")),
        failed_with_colo,
        ok("https://a.example", 3, 10, Some("NRT")),
    ];
    let s = target_stats(&rs, &"https://a.example".to_string());
    assert_eq!(s.unique_colos, strings(&["NRT"]));
    assert_eq!(s.colo_transitions, 0);
    assert_eq!(s.most_frequent_colo, Some("NRT".to_string()));
}
