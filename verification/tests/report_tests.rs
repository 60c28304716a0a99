use gh_activity::dates::Instant;
use gh_activity::events::EventItem;
use gh_activity::events::EventKind;
use gh_activity::events::preview_line_limit;
use gh_activity::events::should_include_event_url;
use gh_activity::render::format_host_outputs;
use gh_activity::render::parse_hostname;

#[test]
fn parse_hostname_single() {
    let host = parse_hostname("github.com").unwrap();
    assert_eq!(host, "github.com");
}

#[test]
fn parse_hostname_trims_spaces() {
    let host = parse_hostname(" ghe.example.com ").unwrap();
    assert_eq!(host, "ghe.example.com");
}

#[test]
fn parse_hostname_rejects_empty_input() {
    let error = parse_hostname(" ").unwrap_err();
    assert!(error.contains("hostname must not be empty"));
}

#[test]
fn format_host_outputs_preserves_input_order() {
    let output = format_host_outputs(
        &vec![
            ("github.com".to_string(), vec![]),
            ("ghe.example.com".to_string(), vec![]),
        ],
        false,
    );

    let github_index = output.find("# github.com").unwrap();
    let ghe_index = output.find("# ghe.example.com").unwrap();
    assert!(github_index < ghe_index);
}

#[test]
fn format_host_outputs_has_single_blank_line_between_hosts() {
    let output = format_host_outputs(
        &vec![
            ("github.com".to_string(), vec![]),
            ("ghe.example.com".to_string(), vec![]),
        ],
        false,
    );

    assert!(output.contains("_No activity found._\n\n# ghe.example.com"));
    assert!(!output.contains("_No activity found._\n\n\n# ghe.example.com"));
}

#[test]
fn format_host_outputs_renders_events_per_host() {
    let item = EventItem {
        kind: EventKind::PullRequestMerged,
        created_at: Instant::from_ymd_hms(2025, 1, 2, 0, 0, 0).unwrap(),
        url: "https://example.test/pr-event/1".to_string(),
        body: None,
        repository: "o/r".to_string(),
        subject_title: "PR A".to_string(),
        subject_url: "https://example.test/pull/1".to_string(),
    };
    let output = format_host_outputs(&vec![("github.com".to_string(), vec![item])], false);
    assert!(output.starts_with("# github.com"));
    assert!(output.contains("- 2025-01-02 Merged"));
    assert!(!output.ends_with('\n'));
}

#[test]
fn action_labels_control_urls_and_preview_depth() {
    assert!(should_include_event_url("Comment"));
    assert!(!should_include_event_url("Opened"));
    assert!(!should_include_event_url("Closed"));
    assert!(!should_include_event_url("Merged"));

    assert_eq!(preview_line_limit("Opened"), 3);
    assert_eq!(preview_line_limit("Comment"), 1);
    assert_eq!(preview_line_limit("Closed"), 1);
}

#[test]
fn action_labels_cover_every_kind() {
    assert_eq!(EventKind::IssueComment.action_label(), "Comment");
    assert_eq!(EventKind::PullRequestReview.action_label(), "Comment");
    assert_eq!(EventKind::PullRequestReviewComment.action_label(), "Comment");
    assert_eq!(EventKind::IssueOpened.action_label(), "Opened");
    assert_eq!(EventKind::PullRequestOpened.action_label(), "Opened");
    assert_eq!(EventKind::IssueClosed.action_label(), "Closed");
    assert_eq!(EventKind::PullRequestClosed.action_label(), "Closed");
    assert_eq!(EventKind::PullRequestMerged.action_label(), "Merged");
}
