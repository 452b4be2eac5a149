use tracekey::log::{parse_output_format, select_records, LogLine, OutputFormat, TimeRange};
use tracekey::observation::Observation;
use tracekey::settings::SettingError;
use tracekey::time::Timestamp;
use tracekey::trace::{extract_colo, observe_failure, observe_success, trace_url, ProbeError};

fn obs(secs: i64, url: &str) -> Observation {
    Observation {
        timestamp: Timestamp::from_parts(secs, 0),
        url: url.to_string(),
        success: true,
        rtt_millis: Some(secs as u64),
        error: None,
        colo: Some("NRT".to_string()),
    }
}

fn same(a: &Observation, b: &Observation) -> bool {
    a.timestamp == b.timestamp
        && a.url == b.url
        && a.success == b.success
        && a.rtt_millis == b.rtt_millis
        && a.error == b.error
        && a.colo == b.colo
}

const ALL: TimeRange = TimeRange { since: None, until: None };

#[test]
fn records_read_back_unchanged() {
    let written = vec![obs(1, "https://a.example"), obs(2, "https://b.example"), obs(3, "https://a.example")];
    let lines: Vec<LogLine> = written.iter().cloned().map(LogLine::Record).collect();
    let read = select_records(&lines, ALL);
    assert_eq!(read.len(), 3);
    for (a, b) in read.iter().zip(written.iter()) {
        assert!(same(a, b));
    }
}

#[test]
fn truncated_last_line_keeps_earlier_records() {
    let lines = vec![
        LogLine::Record(obs(1, "https://a.example")),
        LogLine::Record(obs(2, "https://a.example")),
        LogLine::Truncated,
    ];
    let read = select_records(&lines, ALL);
    assert_eq!(read.len(), 2);
    assert!(same(&read[1], &obs(2, "https://a.example")));
}

#[test]
fn truncated_line_in_the_middle_is_skipped() {
    let lines = vec![
        LogLine::Record(obs(1, "https://a.example")),
        LogLine::Truncated,
        LogLine::Record(obs(2, "https://a.example")),
    ];
    let read = select_records(&lines, ALL);
    assert_eq!(read.len(), 2);
    assert!(same(&read[1], &obs(2, "https://a.example")));
}

#[test]
fn blank_and_malformed_lines_are_skipped() {
    let lines = vec![
        LogLine::Blank,
        LogLine::Record(obs(1, "https://a.example")),
        LogLine::Malformed,
        LogLine::Record(obs(2, "https://a.example")),
    ];
    assert_eq!(select_records(&lines, ALL).len(), 2);
}

#[test]
fn range_bounds_are_inclusive() {
    let lines: Vec<LogLine> = (1..=5).map(|s| LogLine::Record(obs(s, "https://a.example"))).collect();
    let range = TimeRange {
        since: Some(Timestamp::from_parts(2, 0)),
        until: Some(Timestamp::from_parts(4, 0)),
    };
    let read = select_records(&lines, range);
    let secs: Vec<u64> = read.iter().map(|o| o.rtt_millis.unwrap()).collect();
    assert_eq!(secs, vec![2, 3, 4]);
    let from = TimeRange { since: Some(Timestamp::from_parts(4, 0)), until: None };
    assert_eq!(select_records(&lines, from).len(), 2);
}

#[test]
fn empty_log_reads_nothing() {
    assert!(select_records(&Vec::new(), ALL).is_empty());
}

#[test]
fn output_formats() {
    assert_eq!(parse_output_format("none"), Ok(OutputFormat::Disabled));
    assert_eq!(parse_output_format("json"), Ok(OutputFormat::Json));
    assert_eq!(parse_output_format("jsonl"), Ok(OutputFormat::Jsonl));
    assert_eq!(parse_output_format("csv"), Err(SettingError::UnsupportedOutputFormat));
    assert_eq!(parse_output_format("JSON"), Err(SettingError::UnsupportedOutputFormat));
    assert!(!OutputFormat::Disabled.logs());
    assert!(OutputFormat::Jsonl.logs());
}

#[test]
fn colo_found_in_trace_body() {
    let body = "fl=29f1\nh=example.com\nip=192.0.2.1\nts=1700000000.1\nvisit_scheme=https\ncolo=NRT\nhttp=http/2\nloc=JP\n";
    assert_eq!(extract_colo(body), Some("NRT".to_string()));
}

#[test]
fn colo_with_crlf_line_endings() {
    assert_eq!(extract_colo("h=x\r\ncolo=KIX\r\nloc=JP\r\n"), Some("KIX".to_string()));
}

#[test]
fn colo_on_last_line_without_feed() {
    assert_eq!(extract_colo("h=x\ncolo=LAX"), Some("LAX".to_string()));
    assert_eq!(extract_colo("colo="), Some(String::new()));
}

#[test]
fn colo_absent() {
    assert_eq!(extract_colo("h=x\nloc=JP\n"), None);
    assert_eq!(extract_colo("xcolo=NRT\n"), None);
    assert_eq!(extract_colo("col"), None);
    assert_eq!(extract_colo(""), None);
}

#[test]
fn first_colo_line_wins() {
    assert_eq!(extract_colo("colo=SIN\ncolo=NRT\n"), Some("SIN".to_string()));
}

#[test]
fn trace_address_of_target() {
    assert_eq!(
        trace_url("https://example.com/some/page"),
        Ok("https://example.com/cdn-cgi/trace".to_string())
    );
    assert_eq!(trace_url("http://example.com"), Ok("http://example.com/cdn-cgi/trace".to_string()));
    assert_eq!(trace_url("not a url"), Err(ProbeError::InvalidTarget));
}

#[test]
fn observations_of_probes() {
    let t = Timestamp::from_parts(10, 0);
    let o = observe_success("https://a.example".to_string(), t, 250, "colo=NRT\n");
    assert!(o.success);
    assert_eq!(o.rtt_millis, Some(250));
    assert_eq!(o.colo, Some("NRT".to_string()));
    assert_eq!(o.error, None);
    let o = observe_success("https://a.example".to_string(), t, u128::MAX, "");
    assert_eq!(o.rtt_millis, Some(u64::MAX));
    assert_eq!(o.colo, None);
    let o = observe_failure("https://a.example".to_string(), t, "timed out".to_string());
    assert!(!o.success);
    assert_eq!(o.rtt_millis, None);
    assert_eq!(o.error, Some("timed out".to_string()));
}
