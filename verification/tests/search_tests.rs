use gh_activity::dates::Date;
use gh_activity::dates::DateRange;
use gh_activity::search::LeafAction;
use gh_activity::search::RangeSearchFetcher;
use gh_activity::search::RetryStep;
use gh_activity::search::backoff_delay_ms;
use gh_activity::search::retry_decision;
use gh_activity::search::search_query;

fn date(y: u64, m: u64, d: u64) -> Date {
    Date::from_ymd(y, m, d).unwrap()
}

#[test]
fn over_cap_count_bisects_into_a_partition() {
    // A 10-day range whose count is over the cap splits into two leaf
    // candidates that cover the ten days with no gap or overlap.
    let full = DateRange { from: date(2025, 1, 1), to: date(2025, 1, 10) };
    let mut fetcher = RangeSearchFetcher::new(full);

    let first = fetcher.next_range().unwrap();
    assert_eq!(first, full);
    let action = fetcher.decide(first, 1500);
    assert_eq!(action, LeafAction::Bisected);

    assert_eq!(fetcher.pending.len(), 2);
    let lower = fetcher.pending[1];
    let upper = fetcher.pending[0];
    assert_eq!(lower.from, date(2025, 1, 1));
    assert_eq!(lower.to, date(2025, 1, 5));
    assert_eq!(upper.from, date(2025, 1, 6));
    assert_eq!(upper.to, date(2025, 1, 10));
    assert_eq!(upper.from.days(), lower.to.days() + 1);
}

#[test]
fn drained_worklist_leaves_a_partition_of_leaves() {
    let full = DateRange { from: date(2025, 1, 1), to: date(2025, 1, 10) };
    let mut fetcher = RangeSearchFetcher::new(full);

    let first = fetcher.next_range().unwrap();
    assert_eq!(fetcher.decide(first, 1500), LeafAction::Bisected);
    let second = fetcher.next_range().unwrap();
    assert_eq!(fetcher.decide(second, 400), LeafAction::FetchFull);
    let third = fetcher.next_range().unwrap();
    assert_eq!(fetcher.decide(third, 0), LeafAction::Skip);
    assert!(fetcher.next_range().is_none());

    assert_eq!(fetcher.resolved.len(), 2);
    assert_eq!(fetcher.resolved[0].from, date(2025, 1, 1));
    assert_eq!(fetcher.resolved[0].to, date(2025, 1, 5));
    assert_eq!(fetcher.resolved[1].from, date(2025, 1, 6));
    assert_eq!(fetcher.resolved[1].to, date(2025, 1, 10));
}

#[test]
fn single_day_over_cap_is_fetched_best_effort() {
    let full = DateRange { from: date(2025, 1, 1), to: date(2025, 1, 1) };
    let mut fetcher = RangeSearchFetcher::new(full);
    let r = fetcher.next_range().unwrap();
    assert_eq!(fetcher.decide(r, 5000), LeafAction::FetchBestEffort);
    assert!(fetcher.next_range().is_none());
}

#[test]
fn empty_range_yields_no_work_and_no_leaves() {
    let full = DateRange { from: date(2025, 1, 2), to: date(2025, 1, 1) };
    let mut fetcher = RangeSearchFetcher::new(full);
    assert!(fetcher.next_range().is_none());
    assert!(fetcher.resolved.is_empty());
}

#[test]
fn in_cap_count_is_fetched_whole() {
    let full = DateRange { from: date(2025, 1, 1), to: date(2025, 1, 10) };
    let mut fetcher = RangeSearchFetcher::new(full);
    let r = fetcher.next_range().unwrap();
    assert_eq!(fetcher.decide(r, 1000), LeafAction::FetchFull);
    assert!(fetcher.next_range().is_none());
    assert_eq!(fetcher.resolved.len(), 1);
}

#[test]
fn backoff_doubles_per_attempt() {
    assert_eq!(backoff_delay_ms(1), 200);
    assert_eq!(backoff_delay_ms(2), 400);
    assert_eq!(backoff_delay_ms(3), 800);
}

#[test]
fn retry_gives_up_on_final_attempt() {
    assert_eq!(retry_decision(1), RetryStep::Retry { delay_ms: 200 });
    assert_eq!(retry_decision(2), RetryStep::Retry { delay_ms: 400 });
    assert_eq!(retry_decision(3), RetryStep::GiveUp);
}

#[test]
fn search_query_embeds_the_closure_window() {
    let q = search_query("is:pr", date(2025, 1, 1), date(2025, 1, 10));
    assert_eq!(q, "is:pr involves:@me closed:2025-01-01..2025-01-10");
}
