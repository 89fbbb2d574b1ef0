use http_management::log::{
    filter_entry, EntryVerdict,
    discover_log_services, rfc3339_timestamp, LogEntry, LogFilter, LogLineParts, LogQuery, LogScanner,
    ScanStep, SERVICE_SCAN_LINES,
};
use http_management::url::UrlParams;

#[test]
fn parses_a_log_line() {
    let e = LogEntry::from_line("2024-01-02T03:04:05Z INFO Message delivered (smtp.delivery) details here ").unwrap();
    assert_eq!(e.timestamp, "2024-01-02T03:04:05Z");
    assert_eq!(e.level, "INFO");
    assert_eq!(e.level_color, "#44bb44");
    assert_eq!(e.event, "Message delivered");
    assert_eq!(e.event_id, "smtp.delivery");
    assert_eq!(e.details, "details here");
    assert_eq!(e.service.as_deref(), Some("smtp"));
}

#[test]
fn normalises_time_stamp_and_level() {
    let e = LogEntry::from_line("2024-01-02T05:04:05.123+02:00   warn   Login accepted (imap.login) ok").unwrap();
    assert_eq!(e.timestamp, "2024-01-02T05:04:05+02:00");
    assert_eq!(e.level, "WARN");
    assert_eq!(e.level_color, "#ffaa00");
    assert_eq!(e.event, "Login accepted");
    assert_eq!(e.event_id, "imap.login");
    assert_eq!(e.service.as_deref(), Some("imap"));
}

#[test]
fn level_colours() {
    let colour = |level: &str| {
        LogEntry::from_line(&format!("2024-01-02T03:04:05Z {level} a.b (1) d")).unwrap().level_color
    };
    assert_eq!(colour("ERROR"), "#ff4444");
    assert_eq!(colour("debug"), "#4488ff");
    assert_eq!(colour("Trace"), "#888888");
    assert_eq!(colour("NOTICE"), "#cccccc");
}

#[test]
fn service_is_the_category_of_the_dotted_event_name() {
    let e = LogEntry::from_line(
        "2026-04-14T04:09:32Z INFO Banned due to scan (security.scan-ban) remoteIp = 172.18.0.2",
    )
    .unwrap();
    assert_eq!(e.event, "Banned due to scan");
    assert_eq!(e.event_id, "security.scan-ban");
    assert_eq!(e.service.as_deref(), Some("security"));
    assert_eq!(e.details, "remoteIp = 172.18.0.2");
}

#[test]
fn event_without_category_is_its_own_service() {
    let e = LogEntry::from_line("2024-01-02T03:04:05Z INFO Server started (startup) up").unwrap();
    assert_eq!(e.service.as_deref(), Some("startup"));
    assert_eq!(e.details, "up");
}

#[test]
fn rejects_malformed_lines() {
    assert!(LogEntry::from_line("").is_none());
    assert!(LogEntry::from_line("not-a-time INFO a.b (1) d").is_none());
    assert!(LogEntry::from_line("2024-01-02T03:04:05Z INFO").is_none());
    assert!(LogEntry::from_line("2024-01-02T03:04:05Z INFO a.b no-paren").is_none());
    assert!(LogEntry::from_line("2024-01-02T03:04:05Z INFO a.b (unclosed").is_none());
}

#[test]
fn splits_raw_fields() {
    let p = LogLineParts::split("t  lvl   ev x (id.y)) tail").unwrap();
    assert_eq!(p.timestamp, "t");
    assert_eq!(p.level, "lvl");
    assert_eq!(p.event, "ev x");
    assert_eq!(p.event_id, "id.y");
    assert_eq!(p.details, ") tail");
    let e = LogEntry::from_parts(p, "T".to_string(), "ERROR".to_string());
    assert_eq!(e.level_color, "#ff4444");
    assert_eq!(e.details, ") tail");
    assert_eq!(e.service.as_deref(), Some("id"));
}

#[test]
fn reads_rfc3339_seconds() {
    assert_eq!(rfc3339_timestamp("1970-01-01T00:01:00Z"), Some(60));
    assert_eq!(rfc3339_timestamp("1970-01-01T01:00:00+01:00"), Some(0));
    assert_eq!(rfc3339_timestamp("yesterday"), None);
}

fn filter(text: &str, level: Option<&str>, service: Option<&str>, from: Option<i64>, to: Option<i64>) -> LogFilter {
    LogFilter {
        text: text.to_string(),
        level: level.map(|s| s.to_string()),
        service: service.map(|s| s.to_string()),
        from,
        to,
    }
}

fn line(ts: &str, level: &str, event: &str) -> String {
    format!("{ts} {level} Something happened ({event}) details")
}

#[test]
fn scan_keeps_matching_lines_after_offset() {
    let mut s = LogScanner::new(filter("", None, None, None, None), 1, 2);
    assert!(matches!(s.feed(&line("2024-01-01T00:00:03Z", "INFO", "a.x")), ScanStep::NextLine));
    assert!(matches!(s.feed("garbage"), ScanStep::NextLine));
    assert!(matches!(s.feed(&line("2024-01-01T00:00:02Z", "INFO", "b.x")), ScanStep::NextLine));
    assert!(matches!(s.feed(&line("2024-01-01T00:00:01Z", "INFO", "c.x")), ScanStep::Full));
    let (total, entries) = s.finish(true);
    assert_eq!(total, 3 + 2);
    assert_eq!(entries.len(), 2);
    assert_eq!(entries[0].event_id, "b.x");
    assert_eq!(entries[1].event_id, "c.x");
}

#[test]
fn scan_total_without_more() {
    let mut s = LogScanner::new(filter("", None, None, None, None), 0, 1);
    assert!(matches!(s.feed(&line("2024-01-01T00:00:03Z", "INFO", "a.x")), ScanStep::Full));
    let (total, entries) = s.finish(false);
    assert_eq!(total, 1);
    assert_eq!(entries.len(), 1);
}

#[test]
fn scan_filters_text_level_and_service() {
    let mut s = LogScanner::new(filter("needle", Some("WARN"), Some("SMTP"), None, None), 0, 10);
    assert!(matches!(s.feed("2024-01-01T00:00:03Z WARN Queued (smtp.x) needle"), ScanStep::NextLine));
    assert!(matches!(s.feed("2024-01-01T00:00:03Z WARN Queued (smtp.x) hay"), ScanStep::NextLine));
    assert!(matches!(s.feed("2024-01-01T00:00:03Z INFO Queued (smtp.x) needle"), ScanStep::NextLine));
    assert!(matches!(s.feed("2024-01-01T00:00:03Z WARN Queued (imap.x) needle"), ScanStep::NextLine));
    let (total, entries) = s.finish(false);
    assert_eq!(total, 1);
    assert_eq!(entries[0].event_id, "smtp.x");
    assert_eq!(entries[0].details, "needle");
}

#[test]
fn scan_stops_file_before_from_and_skips_after_to() {
    let mut s = LogScanner::new(filter("", None, None, Some(100), Some(200)), 0, 10);
    assert!(matches!(s.feed(&line("1970-01-01T00:05:00Z", "INFO", "a.x")), ScanStep::NextLine));
    assert!(matches!(s.feed(&line("1970-01-01T00:02:30Z", "INFO", "b.x")), ScanStep::NextLine));
    assert!(matches!(s.feed(&line("1970-01-01T00:00:30Z", "INFO", "c.x")), ScanStep::NextFile));
    let (total, entries) = s.finish(false);
    assert_eq!(total, 1);
    assert_eq!(entries[0].event_id, "b.x");
}

#[test]
fn scan_with_zero_limit_keeps_everything() {
    let mut s = LogScanner::new(filter("", None, None, None, None), 0, 0);
    for _ in 0..3 {
        assert!(matches!(s.feed(&line("2024-01-01T00:00:03Z", "INFO", "a.x")), ScanStep::NextLine));
    }
    let (total, entries) = s.finish(true);
    assert_eq!(total, 3);
    assert_eq!(entries.len(), 3);
}

#[test]
fn query_from_params() {
    let params = UrlParams::new(Some("filter=disk+full&level=warn&service=smtp&page=3&limit=10&from=1970-01-01T00:01:00Z"));
    let q = LogQuery::from_params(&params).unwrap();
    assert_eq!(q.filter.text, "disk full");
    assert_eq!(q.filter.level.as_deref(), Some("WARN"));
    assert_eq!(q.filter.service.as_deref(), Some("smtp"));
    assert_eq!(q.filter.from, Some(60));
    assert_eq!(q.filter.to, None);
    assert_eq!(q.offset, 20);
    assert_eq!(q.limit, 10);
}

#[test]
fn query_defaults() {
    let q = LogQuery::from_params(&UrlParams::new(None)).unwrap();
    assert_eq!(q.filter.text, "");
    assert_eq!(q.filter.level, None);
    assert_eq!(q.offset, 0);
    assert_eq!(q.limit, 100);
    let q = LogQuery::from_params(&UrlParams::new(Some("page=1&limit=x&to=bad"))).unwrap();
    assert_eq!(q.offset, 0);
    assert_eq!(q.limit, 100);
    assert_eq!(q.filter.to, None);
}

#[test]
fn query_offset_overflow_is_refused() {
    let query = format!("page={}&limit=2", usize::MAX);
    assert!(LogQuery::from_params(&UrlParams::new(Some(&query))).is_none());
}

#[test]
fn discovers_sorted_services() {
    let lines: Vec<String> = vec![
        line("2024-01-01T00:00:03Z", "INFO", "smtp.delivery"),
        "junk".to_string(),
        line("2024-01-01T00:00:03Z", "INFO", "imap.login"),
        line("2024-01-01T00:00:03Z", "INFO", "smtp.auth"),
        line("2024-01-01T00:00:03Z", "INFO", "Auth"),
    ];
    assert_eq!(discover_log_services(&lines), vec!["Auth", "imap", "smtp"]);
}

#[test]
fn discovers_only_recent_lines() {
    let mut lines: Vec<String> = vec!["junk".to_string(); SERVICE_SCAN_LINES];
    lines.push(line("2024-01-01T00:00:03Z", "INFO", "late.event"));
    assert!(discover_log_services(&lines).is_empty());
    lines[SERVICE_SCAN_LINES - 1] = line("2024-01-01T00:00:03Z", "INFO", "early.event");
    assert_eq!(discover_log_services(&lines), vec!["early"]);
}

#[test]
fn filter_judges_entries_by_given_seconds() {
    let e = LogEntry::from_line("2024-01-02T03:04:05Z INFO Message delivered (smtp.delivery) d").unwrap();
    let f = filter("", Some("INFO"), Some("Smtp"), Some(10), Some(20));
    assert!(matches!(filter_entry(&f, &e, Some(15)), EntryVerdict::Keep));
    assert!(matches!(filter_entry(&f, &e, Some(5)), EntryVerdict::EndOfFile));
    assert!(matches!(filter_entry(&f, &e, Some(25)), EntryVerdict::Skip));
    assert!(matches!(filter_entry(&f, &e, None), EntryVerdict::Keep));
    let f = filter("", Some("WARN"), None, None, None);
    assert!(matches!(filter_entry(&f, &e, Some(15)), EntryVerdict::Skip));
    let f = filter("", None, Some("imap"), None, None);
    assert!(matches!(filter_entry(&f, &e, Some(15)), EntryVerdict::Skip));
}

#[test]
fn rendered_entry_parses_back() {
    for line in [
        "2024-01-02T05:04:05.123+02:00   warn   imap.login (x1)   ok then  ",
        "2024-01-02T03:04:05Z INFO startup (s)",
        "2024-01-02T03:04:05Z debug a b.c (id-1) details (with) parens",
    ] {
        let e = LogEntry::from_line(line).unwrap();
        let rendered = format!("{} {} {} ({}) {}", e.timestamp, e.level, e.event, e.event_id, e.details);
        let again = LogEntry::from_line(&rendered).unwrap();
        assert_eq!(again.timestamp, e.timestamp);
        assert_eq!(again.level, e.level);
        assert_eq!(again.level_color, e.level_color);
        assert_eq!(again.event, e.event);
        assert_eq!(again.event_id, e.event_id);
        assert_eq!(again.details, e.details);
        assert_eq!(again.service, e.service);
    }
}
