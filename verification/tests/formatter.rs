use gh_activity::dates::Instant;
use gh_activity::events::EventItem;
use gh_activity::events::EventKind;
use gh_activity::render::body_preview;
use gh_activity::render::format_markdown;

fn instant(y: u64, m: u64, d: u64) -> Instant {
    Instant::from_ymd_hms(y, m, d, 0, 0, 0).unwrap()
}

fn sample_item() -> EventItem {
    EventItem {
        kind: EventKind::IssueComment,
        created_at: instant(2025, 1, 1),
        url: "https://example.test/comment/1".to_string(),
        body: Some("hello\nworld".to_string()),
        repository: "o/r".to_string(),
        subject_title: "Issue A".to_string(),
        subject_url: "https://example.test/issue/1".to_string(),
    }
}

#[test]
fn format_markdown_empty() {
    let out = format_markdown("github.com", &Vec::new(), false);
    assert!(out.contains("_No activity found._"));
}

#[test]
fn format_markdown_single_item() {
    let items = vec![sample_item()];
    let out = format_markdown("github.com", &items, false);
    assert!(out.contains("# github.com"));
    assert!(out.contains("## o/r"));
    assert!(out.contains("### Issue A https://example.test/issue/1"));
    assert!(out.contains("- 2025-01-01 Comment https://example.test/comment/1"));
    assert!(out.contains("> hello"));
    assert!(!out.contains("> world"));
}

#[test]
fn format_markdown_compact_single_item() {
    let items = vec![sample_item()];
    let out = format_markdown("github.com", &items, true);
    assert!(out.contains("# github.com"));
    assert!(out.contains("## o/r"));
    assert!(out.contains("- Issue A https://example.test/issue/1"));
    assert!(out.contains("  - 2025-01-01 Comment https://example.test/comment/1"));
    assert!(out.contains("    > hello"));
    assert!(!out.contains("> world"));
}

#[test]
fn format_markdown_merged_event_omits_event_url() {
    let items = vec![EventItem {
        kind: EventKind::PullRequestMerged,
        created_at: instant(2025, 1, 2),
        url: "https://example.test/pr-event/1".to_string(),
        body: None,
        repository: "o/r".to_string(),
        subject_title: "PR A".to_string(),
        subject_url: "https://example.test/pull/1".to_string(),
    }];
    let out = format_markdown("github.com", &items, false);

    assert!(out.contains("### PR A https://example.test/pull/1"));
    assert!(out.contains("- 2025-01-02 Merged\n"));
    assert!(!out.contains("- 2025-01-02 Merged https://example.test/pr-event/1"));
}

#[test]
fn format_markdown_compact_merged_event_omits_event_url() {
    let items = vec![EventItem {
        kind: EventKind::PullRequestMerged,
        created_at: instant(2025, 1, 2),
        url: "https://example.test/pr-event/1".to_string(),
        body: None,
        repository: "o/r".to_string(),
        subject_title: "PR A".to_string(),
        subject_url: "https://example.test/pull/1".to_string(),
    }];
    let out = format_markdown("github.com", &items, true);

    assert!(out.contains("- PR A https://example.test/pull/1"));
    assert!(out.contains("  - 2025-01-02 Merged\n"));
    assert!(!out.contains("  - 2025-01-02 Merged https://example.test/pr-event/1"));
}

#[test]
fn format_markdown_opened_pr_shows_body_preview_without_event_url() {
    let items = vec![EventItem {
        kind: EventKind::PullRequestOpened,
        created_at: instant(2025, 1, 3),
        url: "https://example.test/pr-event/2".to_string(),
        body: Some(
            "description line 1\ndescription line 2\ndescription line 3\ndescription line 4"
                .to_string(),
        ),
        repository: "o/r".to_string(),
        subject_title: "PR B".to_string(),
        subject_url: "https://example.test/pull/2".to_string(),
    }];
    let out = format_markdown("github.com", &items, false);

    assert!(out.contains("- 2025-01-03 Opened\n"));
    assert!(!out.contains("- 2025-01-03 Opened https://example.test/pr-event/2"));
    assert!(out.contains("  > description line 1"));
    assert!(out.contains("  > description line 2"));
    assert!(out.contains("  > description line 3 ..."));
    assert!(!out.contains("description line 4"));
}

#[test]
fn format_markdown_compact_opened_pr_keeps_preview_indentation_for_all_lines() {
    let items = vec![EventItem {
        kind: EventKind::PullRequestOpened,
        created_at: instant(2025, 1, 3),
        url: "https://example.test/pr-event/2".to_string(),
        body: Some("line 1\nline 2\nline 3".to_string()),
        repository: "o/r".to_string(),
        subject_title: "PR B".to_string(),
        subject_url: "https://example.test/pull/2".to_string(),
    }];
    let out = format_markdown("github.com", &items, true);

    assert!(out.contains("    > line 1\n    > line 2\n    > line 3"));
    assert!(!out.contains("\n  > line 2"));
}

#[test]
fn format_markdown_empty_exact_output() {
    let out = format_markdown("github.com", &Vec::new(), false);
    assert_eq!(out, "# github.com\n\n_No activity found._\n");
}

#[test]
fn format_markdown_two_events_same_subject_previews_first_line_only() {
    let comment = sample_item();
    let closed = EventItem {
        kind: EventKind::IssueClosed,
        created_at: instant(2025, 1, 2),
        url: "https://example.test/issue/1".to_string(),
        body: None,
        repository: "o/r".to_string(),
        subject_title: "Issue A".to_string(),
        subject_url: "https://example.test/issue/1".to_string(),
    };
    let items = vec![comment, closed];
    let out = format_markdown("github.com", &items, false);

    assert!(out.contains("  > hello ..."));
    assert!(!out.contains("world"));
    assert_eq!(out.matches("### Issue A").count(), 1);
}

#[test]
fn format_markdown_orders_headings_by_sort_key() {
    let mk = |repo: &str, subject: &str, day: u64| EventItem {
        kind: EventKind::IssueClosed,
        created_at: instant(2025, 1, day),
        url: format!("https://example.test/{subject}"),
        body: None,
        repository: repo.to_string(),
        subject_title: "T".to_string(),
        subject_url: format!("https://example.test/{subject}"),
    };
    let items = vec![mk("z/r", "s1", 1), mk("a/r", "s2", 2), mk("a/r", "s1", 3)];
    let out = format_markdown("github.com", &items, false);

    let a = out.find("## a/r").unwrap();
    let z = out.find("## z/r").unwrap();
    assert!(a < z);
    let s1 = out.find("https://example.test/s1").unwrap();
    let s2 = out.find("https://example.test/s2").unwrap();
    assert!(s1 < s2);
}

#[test]
fn body_preview_hard_truncates_long_line() {
    let line: String = "x".repeat(81);
    let out = body_preview(&line, 1, "> ").unwrap();
    let expected = format!("> {}...", "x".repeat(80));
    assert_eq!(out, expected);
    assert_eq!(out.chars().count(), 2 + 80 + 3);
}

#[test]
fn body_preview_eighty_char_line_is_kept_whole() {
    let line: String = "y".repeat(80);
    let out = body_preview(&line, 1, "> ").unwrap();
    assert_eq!(out, format!("> {}", "y".repeat(80)));
}

#[test]
fn body_preview_marks_dropped_lines() {
    let out = body_preview("hello\nworld", 1, "  > ").unwrap();
    assert_eq!(out, "  > hello ...");
}

#[test]
fn body_preview_skips_blank_lines() {
    let out = body_preview("\n  \nfirst\n\nsecond\n", 3, "> ").unwrap();
    assert_eq!(out, "> first\n> second");
}

#[test]
fn body_preview_empty_body_yields_nothing() {
    assert!(body_preview("   \n \n", 3, "> ").is_none());
    assert!(body_preview("text", 0, "> ").is_none());
}

#[test]
fn format_markdown_exact_two_subject_report() {
    let mk = |subject: &str, url: &str, day: u64| EventItem {
        kind: EventKind::IssueComment,
        created_at: instant(2025, 1, day),
        url: url.to_string(),
        body: None,
        repository: "o/r".to_string(),
        subject_title: subject.to_string(),
        subject_url: format!("https://e/{subject}"),
    };
    let items = vec![mk("B", "https://e/cB", 2), mk("A", "https://e/cA", 1)];
    let out = format_markdown("github.com", &items, false);
    assert_eq!(
        out,
        "# github.com\n\n\
         ## o/r\n\n\
         ### A https://e/A\n\n\
         - 2025-01-01 Comment https://e/cA\n\n\
         ### B https://e/B\n\n\
         - 2025-01-02 Comment https://e/cB\n"
    );
}
