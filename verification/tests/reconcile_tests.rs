use gh_activity::dates::Instant;
use gh_activity::events::EventItem;
use gh_activity::events::EventKind;
use gh_activity::reconcile::filter_out_closed_when_merged;
use gh_activity::reconcile::merge_source_events;

fn event(kind: EventKind, subject_url: &str) -> EventItem {
    EventItem {
        kind,
        created_at: Instant::from_ymd_hms(2025, 1, 1, 0, 0, 0).unwrap(),
        url: subject_url.to_string(),
        body: None,
        repository: "owner/repo".to_string(),
        subject_title: "Sample PR".to_string(),
        subject_url: subject_url.to_string(),
    }
}

#[test]
fn drops_closed_when_merged_exists_for_same_pr() {
    let items = vec![
        event(EventKind::PullRequestClosed, "https://example.test/pull/1"),
        event(EventKind::PullRequestMerged, "https://example.test/pull/1"),
    ];

    let actual = filter_out_closed_when_merged(items);

    assert_eq!(actual.len(), 1);
    assert_eq!(actual[0].kind, EventKind::PullRequestMerged);
}

#[test]
fn keeps_closed_when_no_merged_exists_for_same_pr() {
    let items = vec![
        event(EventKind::PullRequestClosed, "https://example.test/pull/1"),
        event(EventKind::PullRequestMerged, "https://example.test/pull/2"),
    ];

    let actual = filter_out_closed_when_merged(items);

    assert_eq!(actual.len(), 2);
    assert!(
        actual
            .iter()
            .any(|item| item.kind == EventKind::PullRequestClosed
                && item.subject_url == "https://example.test/pull/1")
    );
}

#[test]
fn keeps_earlier_closed_before_later_merge() {
    // Matching is by subject alone: a merge supersedes every recorded close
    // of the same pull request, whenever each happened.
    let earlier = Instant::from_ymd_hms(2025, 1, 1, 0, 0, 0).unwrap();
    let later = Instant::from_ymd_hms(2025, 1, 2, 0, 0, 0).unwrap();
    let items = vec![
        EventItem {
            kind: EventKind::PullRequestClosed,
            created_at: earlier,
            url: "https://example.test/pull/1".to_string(),
            body: None,
            repository: "owner/repo".to_string(),
            subject_title: "Sample PR".to_string(),
            subject_url: "https://example.test/pull/1".to_string(),
        },
        EventItem {
            kind: EventKind::PullRequestClosed,
            created_at: later,
            url: "https://example.test/pull/1".to_string(),
            body: None,
            repository: "owner/repo".to_string(),
            subject_title: "Sample PR".to_string(),
            subject_url: "https://example.test/pull/1".to_string(),
        },
        EventItem {
            kind: EventKind::PullRequestMerged,
            created_at: later,
            url: "https://example.test/pull/1".to_string(),
            body: None,
            repository: "owner/repo".to_string(),
            subject_title: "Sample PR".to_string(),
            subject_url: "https://example.test/pull/1".to_string(),
        },
    ];

    let actual = filter_out_closed_when_merged(items);

    assert_eq!(actual.len(), 1);
    assert!(actual.iter().all(|item| item.kind != EventKind::PullRequestClosed));
    assert!(actual.iter().any(|item| {
        item.kind == EventKind::PullRequestMerged
            && item.subject_url == "https://example.test/pull/1"
            && item.created_at == later
    }));
}

#[test]
fn closed_and_merged_at_same_instant_reconcile_to_one_merge() {
    let items = vec![
        event(EventKind::PullRequestClosed, "https://x/pull/1"),
        event(EventKind::PullRequestMerged, "https://x/pull/1"),
    ];

    let actual = filter_out_closed_when_merged(items);

    assert_eq!(actual.len(), 1);
    assert_eq!(actual[0].kind, EventKind::PullRequestMerged);
}

#[test]
fn reconcile_keeps_non_closed_kinds() {
    let items = vec![
        event(EventKind::IssueComment, "https://example.test/issue/7"),
        event(EventKind::PullRequestMerged, "https://example.test/pull/1"),
        event(EventKind::IssueClosed, "https://example.test/issue/7"),
    ];

    let actual = filter_out_closed_when_merged(items);

    assert_eq!(actual.len(), 3);
}

#[test]
fn reconcile_of_empty_input_is_empty() {
    let actual = filter_out_closed_when_merged(Vec::new());
    assert!(actual.is_empty());
}

#[test]
fn merge_source_events_concatenates_in_fixed_order() {
    let merged = merge_source_events(
        vec![event(EventKind::IssueComment, "https://example.test/a")],
        vec![event(EventKind::PullRequestReview, "https://example.test/b")],
        Vec::new(),
        vec![event(EventKind::PullRequestOpened, "https://example.test/c")],
        Vec::new(),
        Vec::new(),
    );

    assert_eq!(merged.len(), 3);
    assert_eq!(merged[0].kind, EventKind::IssueComment);
    assert_eq!(merged[1].kind, EventKind::PullRequestReview);
    assert_eq!(merged[2].kind, EventKind::PullRequestOpened);
}
