use gh_activity::dates::Date;
use gh_activity::dates::Instant;
use gh_activity::dates::in_range;
use gh_activity::dates::issue_since;
use gh_activity::dates::midpoint_date;
use gh_activity::dates::normalize_range;
use gh_activity::dates::parse_date;
use gh_activity::dates::parse_datetime;
use gh_activity::dates::review_chunks;

fn date(y: u64, m: u64, d: u64) -> Date {
    Date::from_ymd(y, m, d).unwrap()
}

fn dt(y: u64, m: u64, d: u64) -> Instant {
    Instant::from_ymd_hms(y, m, d, 0, 0, 0).unwrap()
}

#[test]
fn in_range_allows_open_bounds() {
    assert!(in_range(dt(2025, 1, 2), None, None));
    assert!(in_range(dt(2025, 1, 2), Some(date(2025, 1, 1)), None));
    assert!(in_range(dt(2025, 1, 2), None, Some(date(2025, 1, 3))));
}

#[test]
fn in_range_rejects_outside_bounds() {
    assert!(!in_range(dt(2024, 12, 31), Some(date(2025, 1, 1)), None));
    assert!(!in_range(dt(2025, 2, 1), None, Some(date(2025, 1, 31))));
}

#[test]
fn date_day_numbers_match_the_epoch() {
    assert_eq!(date(1970, 1, 1).days(), 0);
    assert_eq!(date(1970, 12, 31).days(), 364);
    assert_eq!(date(1972, 3, 1).days(), 790);
    assert_eq!(date(2025, 1, 1).days(), 20089);
    assert_eq!(date(9999, 12, 31).days(), 2932896);
}

#[test]
fn date_from_ymd_rejects_invalid_dates() {
    assert!(Date::from_ymd(2025, 2, 29).is_none());
    assert!(Date::from_ymd(2024, 2, 29).is_some());
    assert!(Date::from_ymd(2025, 13, 1).is_none());
    assert!(Date::from_ymd(2025, 0, 1).is_none());
    assert!(Date::from_ymd(2025, 4, 31).is_none());
    assert!(Date::from_ymd(1969, 12, 31).is_none());
    assert!(Date::from_ymd(10000, 1, 1).is_none());
}

#[test]
fn date_formats_as_iso() {
    assert_eq!(date(2025, 1, 1).format_iso(), "2025-01-01");
    assert_eq!(date(1970, 1, 1).format_iso(), "1970-01-01");
    assert_eq!(date(9999, 12, 31).format_iso(), "9999-12-31");
    assert_eq!(date(2024, 2, 29).format_iso(), "2024-02-29");
}

#[test]
fn parse_date_round_trips() {
    let d = parse_date("2025-06-30").unwrap();
    assert_eq!(d.format_iso(), "2025-06-30");
    assert_eq!(d, date(2025, 6, 30));
}

#[test]
fn parse_date_rejects_malformed_input() {
    assert!(parse_date("2025-6-30").is_none());
    assert!(parse_date("2025/06/30").is_none());
    assert!(parse_date("2025-02-30").is_none());
    assert!(parse_date("").is_none());
    assert!(parse_date("2025-06-30 ").is_none());
}

#[test]
fn parse_datetime_reads_rfc3339() {
    let t = parse_datetime("2025-01-10T00:00:00Z").unwrap();
    assert_eq!(t.secs(), 1736467200);
    assert_eq!(t.date(), date(2025, 1, 10));
}

#[test]
fn parse_datetime_honors_offsets() {
    let utc = parse_datetime("2025-01-10T12:00:00Z").unwrap();
    let shifted = parse_datetime("2025-01-10T14:00:00+02:00").unwrap();
    assert_eq!(utc.secs(), shifted.secs());
}

#[test]
fn parse_datetime_rejects_garbage() {
    assert!(parse_datetime("not a date").is_none());
    assert!(parse_datetime("2025-01-10").is_none());
    assert!(parse_datetime("1969-12-31T23:59:59Z").is_none());
}

#[test]
fn midpoint_truncates() {
    let mid = midpoint_date(date(2025, 1, 1), date(2025, 1, 10));
    assert_eq!(mid, date(2025, 1, 5));
    assert_eq!(midpoint_date(date(2025, 1, 1), date(2025, 1, 1)), date(2025, 1, 1));
}

#[test]
fn normalize_range_fills_missing_bounds() {
    let today = date(2025, 3, 15);
    let (start, end) = normalize_range(None, None, today);
    assert_eq!(start, date(1970, 1, 1));
    assert_eq!(end, today);
    let (start, end) = normalize_range(Some(date(2024, 1, 1)), Some(date(2024, 2, 1)), today);
    assert_eq!(start, date(2024, 1, 1));
    assert_eq!(end, date(2024, 2, 1));
}

#[test]
fn issue_since_is_start_of_day() {
    assert!(issue_since(None).is_none());
    let t = issue_since(Some(date(2025, 1, 1))).unwrap();
    assert_eq!(t.secs(), 20089 * 86400);
}

#[test]
fn review_chunks_partition_the_range() {
    let chunks = review_chunks(date(2024, 1, 1), date(2025, 1, 10));
    assert!(chunks.len() >= 2);
    assert_eq!(chunks[0].from, date(2024, 1, 1));
    assert_eq!(chunks[chunks.len() - 1].to, date(2025, 1, 10));
    for w in chunks.windows(2) {
        assert_eq!(w[1].from.days(), w[0].to.days() + 1);
    }
    for c in &chunks {
        assert!(c.to.days() - c.from.days() <= 364);
    }
}

#[test]
fn review_chunks_of_empty_range_are_empty() {
    let chunks = review_chunks(date(2025, 1, 2), date(2025, 1, 1));
    assert!(chunks.is_empty());
}

#[test]
fn review_chunks_single_day() {
    let chunks = review_chunks(date(2025, 1, 1), date(2025, 1, 1));
    assert_eq!(chunks.len(), 1);
    assert_eq!(chunks[0].from, chunks[0].to);
}
