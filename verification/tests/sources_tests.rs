use gh_activity::dates::Date;
use gh_activity::events::EventKind;
use gh_activity::paginate::RawPageInfo;
use gh_activity::paginate::review_page_cursor;
use gh_activity::paginate::search_count;
use gh_activity::paginate::search_page_cursor;
use gh_activity::paginate::viewer_page_cursor;
use gh_activity::queries::QueryKind;
use gh_activity::shape::FetchError;
use gh_activity::shape::GraphqlError;
use gh_activity::shape::GraphqlResponse;
use gh_activity::shape::graphql_data;
use gh_activity::sources::RawIssueCommentNode;
use gh_activity::sources::RawPullRequestRef;
use gh_activity::sources::RawReview;
use gh_activity::sources::RawReviewComment;
use gh_activity::sources::RawReviewContribution;
use gh_activity::sources::RawSearchNode;
use gh_activity::sources::RawSubjectNode;
use gh_activity::sources::RawTimelineEntry;
use gh_activity::sources::actor_matches;
use gh_activity::sources::closed_issue_events;
use gh_activity::sources::closed_pull_request_events;
use gh_activity::sources::event_items_from_search_node;
use gh_activity::sources::issue_comment_event_from_node;
use gh_activity::sources::issue_comment_stop;
use gh_activity::sources::opened_pull_request_event_from_node;
use gh_activity::sources::opened_stop;
use gh_activity::sources::review_contribution_events;

fn date(y: u64, m: u64, d: u64) -> Date {
    Date::from_ymd(y, m, d).unwrap()
}

fn shape_message(err: FetchError) -> String {
    match err {
        FetchError::Shape(m) => m,
        _ => panic!("expected a shape error"),
    }
}

#[test]
fn opened_pull_request_event_includes_body() {
    let node = RawSubjectNode {
        created_at: Some("2025-01-10T00:00:00Z".to_string()),
        url: Some("https://example.test/pull/1".to_string()),
        title: Some("PR A".to_string()),
        body: Some("first line\nsecond line".to_string()),
        repository: Some("o/r".to_string()),
    };

    let event = opened_pull_request_event_from_node(&node, date(2025, 1, 1), date(2025, 1, 31))
        .unwrap()
        .unwrap();

    assert_eq!(event.kind, EventKind::PullRequestOpened);
    assert_eq!(event.body.as_deref(), Some("first line\nsecond line"));
    assert_eq!(event.subject_url, "https://example.test/pull/1");
}

#[test]
fn opened_event_outside_range_is_dropped() {
    let node = RawSubjectNode {
        created_at: Some("2024-06-10T00:00:00Z".to_string()),
        url: Some("https://example.test/pull/1".to_string()),
        title: Some("PR A".to_string()),
        body: None,
        repository: Some("o/r".to_string()),
    };
    let r = opened_pull_request_event_from_node(&node, date(2025, 1, 1), date(2025, 1, 31));
    assert!(r.unwrap().is_none());
}

#[test]
fn opened_event_missing_created_at_is_a_shape_error() {
    let node = RawSubjectNode {
        created_at: None,
        url: Some("https://example.test/pull/1".to_string()),
        title: Some("PR A".to_string()),
        body: None,
        repository: Some("o/r".to_string()),
    };
    let err = opened_pull_request_event_from_node(&node, date(2025, 1, 1), date(2025, 1, 31))
        .unwrap_err();
    assert_eq!(shape_message(err), "subject node missing createdAt");
}

#[test]
fn opened_stop_fires_before_the_range() {
    let node = RawSubjectNode {
        created_at: Some("2024-12-31T23:00:00Z".to_string()),
        url: None,
        title: None,
        body: None,
        repository: None,
    };
    assert!(opened_stop(&node, date(2025, 1, 1)).unwrap());
    let node2 = RawSubjectNode {
        created_at: Some("2025-01-01T00:00:00Z".to_string()),
        url: None,
        title: None,
        body: None,
        repository: None,
    };
    assert!(!opened_stop(&node2, date(2025, 1, 1)).unwrap());
}

#[test]
fn issue_comment_node_maps_to_comment_event() {
    let node = RawIssueCommentNode {
        created_at: Some("2025-01-05T10:00:00Z".to_string()),
        updated_at: Some("2025-01-05T10:00:00Z".to_string()),
        url: Some("https://example.test/comment/9".to_string()),
        body: Some("a note".to_string()),
        issue_title: Some("Issue T".to_string()),
        issue_url: Some("https://example.test/issue/9".to_string()),
        repository: Some("o/r".to_string()),
    };
    let ev = issue_comment_event_from_node(&node, date(2025, 1, 1), date(2025, 1, 31))
        .unwrap()
        .unwrap();
    assert_eq!(ev.kind, EventKind::IssueComment);
    assert_eq!(ev.url, "https://example.test/comment/9");
    assert_eq!(ev.subject_url, "https://example.test/issue/9");
    assert_eq!(ev.body.as_deref(), Some("a note"));
}

#[test]
fn issue_comment_missing_body_is_a_shape_error() {
    let node = RawIssueCommentNode {
        created_at: Some("2025-01-05T10:00:00Z".to_string()),
        updated_at: None,
        url: Some("https://example.test/comment/9".to_string()),
        body: None,
        issue_title: None,
        issue_url: None,
        repository: None,
    };
    let err = issue_comment_event_from_node(&node, date(2025, 1, 1), date(2025, 1, 31))
        .unwrap_err();
    assert_eq!(shape_message(err), "issue comment missing body");
}

#[test]
fn issue_comment_stop_reads_update_time() {
    let node = RawIssueCommentNode {
        created_at: None,
        updated_at: Some("2024-12-30T00:00:00Z".to_string()),
        url: None,
        body: None,
        issue_title: None,
        issue_url: None,
        repository: None,
    };
    assert!(issue_comment_stop(&node, date(2025, 1, 1)).unwrap());
}

#[test]
fn actor_matches_requires_the_viewer() {
    assert!(actor_matches(Some("octocat"), "octocat"));
    assert!(!actor_matches(Some("someone"), "octocat"));
    assert!(!actor_matches(None, "octocat"));
}

#[test]
fn search_node_maps_closed_and_merged_for_viewer() {
    let node = RawSearchNode {
        typename: Some("PullRequest".to_string()),
        url: Some("https://example.test/pull/3".to_string()),
        title: Some("PR C".to_string()),
        repository: Some("o/r".to_string()),
        timeline: vec![
            RawTimelineEntry {
                typename: Some("ClosedEvent".to_string()),
                actor_login: Some("octocat".to_string()),
                created_at: Some("2025-01-04T00:00:00Z".to_string()),
            },
            RawTimelineEntry {
                typename: Some("MergedEvent".to_string()),
                actor_login: Some("octocat".to_string()),
                created_at: Some("2025-01-04T00:00:05Z".to_string()),
            },
            RawTimelineEntry {
                typename: Some("MergedEvent".to_string()),
                actor_login: Some("someone-else".to_string()),
                created_at: Some("2025-01-04T00:00:06Z".to_string()),
            },
        ],
    };
    let events = event_items_from_search_node(
        &node,
        "octocat",
        Some(date(2025, 1, 1)),
        Some(date(2025, 1, 31)),
    )
    .unwrap();
    assert_eq!(events.len(), 2);
    assert_eq!(events[0].kind, EventKind::PullRequestClosed);
    assert_eq!(events[1].kind, EventKind::PullRequestMerged);
    assert_eq!(events[0].subject_url, "https://example.test/pull/3");
}

#[test]
fn search_node_on_issue_maps_closed_event_to_issue_closed() {
    let node = RawSearchNode {
        typename: Some("Issue".to_string()),
        url: Some("https://example.test/issue/3".to_string()),
        title: Some("Issue C".to_string()),
        repository: Some("o/r".to_string()),
        timeline: vec![RawTimelineEntry {
            typename: Some("ClosedEvent".to_string()),
            actor_login: Some("octocat".to_string()),
            created_at: Some("2025-01-04T00:00:00Z".to_string()),
        }],
    };
    let events =
        event_items_from_search_node(&node, "octocat", Some(date(2025, 1, 1)), None).unwrap();
    assert_eq!(events.len(), 1);
    assert_eq!(events[0].kind, EventKind::IssueClosed);
}

#[test]
fn search_node_missing_title_is_a_shape_error() {
    let node = RawSearchNode {
        typename: Some("Issue".to_string()),
        url: Some("https://example.test/issue/3".to_string()),
        title: None,
        repository: Some("o/r".to_string()),
        timeline: Vec::new(),
    };
    let err = event_items_from_search_node(&node, "octocat", None, None).unwrap_err();
    assert_eq!(shape_message(err), "search node missing title");
}

#[test]
fn closed_pull_request_events_dedups_across_nodes() {
    let node = RawSearchNode {
        typename: Some("PullRequest".to_string()),
        url: Some("https://example.test/pull/3".to_string()),
        title: Some("PR C".to_string()),
        repository: Some("o/r".to_string()),
        timeline: vec![
            RawTimelineEntry {
                typename: Some("ClosedEvent".to_string()),
                actor_login: Some("octocat".to_string()),
                created_at: Some("2025-01-04T00:00:00Z".to_string()),
            },
            RawTimelineEntry {
                typename: Some("MergedEvent".to_string()),
                actor_login: Some("octocat".to_string()),
                created_at: Some("2025-01-04T00:00:00Z".to_string()),
            },
        ],
    };
    let events = closed_pull_request_events(
        &vec![node],
        "octocat",
        date(2025, 1, 1),
        date(2025, 1, 31),
    )
    .unwrap();
    assert_eq!(events.len(), 1);
    assert_eq!(events[0].kind, EventKind::PullRequestMerged);
}

#[test]
fn closed_event_queries_short_circuit_on_empty_range() {
    let nodes: Vec<RawSearchNode> = Vec::new();
    let prs = closed_pull_request_events(&nodes, "octocat", date(2025, 1, 2), date(2025, 1, 1))
        .unwrap();
    assert!(prs.is_empty());
    let issues =
        closed_issue_events(&nodes, "octocat", date(2025, 1, 2), date(2025, 1, 1)).unwrap();
    assert!(issues.is_empty());
}

#[test]
fn review_contribution_maps_review_and_comments() {
    let node = RawReviewContribution {
        occurred_at: Some("2025-01-06T08:00:00Z".to_string()),
        review: Some(RawReview {
            url: Some("https://example.test/review/1".to_string()),
            body: Some("looks good".to_string()),
            pull_request: Some(RawPullRequestRef {
                title: Some("PR D".to_string()),
                url: Some("https://example.test/pull/4".to_string()),
                repository: Some("o/r".to_string()),
            }),
            comments: vec![
                RawReviewComment {
                    created_at: Some("2025-01-06T08:05:00Z".to_string()),
                    url: Some("https://example.test/review-comment/1".to_string()),
                    body: Some("nit".to_string()),
                },
                RawReviewComment {
                    created_at: Some("2024-06-01T00:00:00Z".to_string()),
                    url: None,
                    body: None,
                },
            ],
        }),
    };
    let events =
        review_contribution_events(&node, date(2025, 1, 1), date(2025, 1, 31)).unwrap();
    assert_eq!(events.len(), 2);
    assert_eq!(events[0].kind, EventKind::PullRequestReview);
    assert_eq!(events[0].body.as_deref(), Some("looks good"));
    assert_eq!(events[1].kind, EventKind::PullRequestReviewComment);
    assert_eq!(events[1].subject_url, "https://example.test/pull/4");
}

#[test]
fn review_contribution_without_review_yields_nothing() {
    let node = RawReviewContribution {
        occurred_at: Some("2025-01-06T08:00:00Z".to_string()),
        review: None,
    };
    let events =
        review_contribution_events(&node, date(2025, 1, 1), date(2025, 1, 31)).unwrap();
    assert!(events.is_empty());
}

#[test]
fn review_missing_pull_request_is_a_shape_error() {
    let node = RawReviewContribution {
        occurred_at: Some("2025-01-06T08:00:00Z".to_string()),
        review: Some(RawReview {
            url: Some("https://example.test/review/1".to_string()),
            body: None,
            pull_request: None,
            comments: Vec::new(),
        }),
    };
    let err =
        review_contribution_events(&node, date(2025, 1, 1), date(2025, 1, 31)).unwrap_err();
    assert_eq!(shape_message(err), "review missing pullRequest");
}

#[test]
fn graphql_data_joins_error_messages() {
    let resp: GraphqlResponse<u64> = GraphqlResponse {
        data: None,
        errors: Some(vec![
            GraphqlError { message: "first".to_string() },
            GraphqlError { message: "second".to_string() },
        ]),
    };
    let err = graphql_data(resp).unwrap_err();
    match err {
        FetchError::Graphql(m) => assert_eq!(m, "GraphQL returned errors: first; second"),
        _ => panic!("expected a structural error"),
    }
}

#[test]
fn graphql_data_passes_data_through() {
    let resp: GraphqlResponse<u64> = GraphqlResponse { data: Some(7), errors: None };
    assert_eq!(graphql_data(resp).unwrap(), 7);
}

#[test]
fn graphql_data_requires_data() {
    let resp: GraphqlResponse<u64> = GraphqlResponse { data: None, errors: None };
    let err = graphql_data(resp).unwrap_err();
    assert_eq!(shape_message(err), "GraphQL response missing data");
}

#[test]
fn search_count_validates_its_field() {
    assert_eq!(search_count(Some(1500)).unwrap(), 1500);
    assert_eq!(search_count(Some(-3)).unwrap(), 0);
    let err = search_count(None).unwrap_err();
    assert_eq!(shape_message(err), "search response missing issueCount");
}

#[test]
fn page_cursors_follow_has_next_page() {
    let info = RawPageInfo { has_next_page: Some(true), end_cursor: Some("abc".to_string()) };
    assert_eq!(search_page_cursor(Some(&info)).unwrap().as_deref(), Some("abc"));

    let done = RawPageInfo { has_next_page: Some(false), end_cursor: Some("abc".to_string()) };
    assert!(viewer_page_cursor(Some(&done)).unwrap().is_none());

    let dangling = RawPageInfo { has_next_page: Some(true), end_cursor: None };
    assert!(review_page_cursor(Some(&dangling)).unwrap().is_none());
}

#[test]
fn page_cursor_missing_info_is_a_shape_error() {
    let err = search_page_cursor(None).unwrap_err();
    assert_eq!(shape_message(err), "search response missing pageInfo");
    let no_flag = RawPageInfo { has_next_page: None, end_cursor: None };
    let err = viewer_page_cursor(Some(&no_flag)).unwrap_err();
    assert_eq!(shape_message(err), "GraphQL response missing pageInfo.hasNextPage");
}

#[test]
fn query_kinds_name_their_connections() {
    assert_eq!(QueryKind::IssueComments.connection_field(), "issueComments");
    assert_eq!(
        QueryKind::OpenedIssues { since: "2025-01-01T00:00:00Z".to_string() }.connection_field(),
        "issues"
    );
    assert_eq!(QueryKind::OpenedPullRequests.connection_field(), "pullRequests");
    assert!(QueryKind::IssueComments.as_str().contains("issueComments("));
    assert!(QueryKind::OpenedPullRequests.as_str().contains("pullRequests("));
}

#[test]
fn query_variables_carry_cursor_and_since() {
    let vars = QueryKind::OpenedIssues { since: "2025-01-01T00:00:00Z".to_string() }
        .variables(Some("cur".to_string()));
    assert_eq!(vars.after.as_deref(), Some("cur"));
    assert_eq!(vars.since.as_deref(), Some("2025-01-01T00:00:00Z"));

    let vars = QueryKind::IssueComments.variables(None);
    assert!(vars.after.is_none());
    assert!(vars.since.is_none());
}
