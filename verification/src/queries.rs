//! The fixed GraphQL query set and its variables.
//!
//! The query texts are data of this domain: each one names the connection
//! and fields the normalizers in `sources` read.

use vstd::prelude::*;

verus! {

/// The text of the issue-comments connection query.
pub open spec fn spec_issue_comments_query() -> Seq<char> {
    "query($after: String) { viewer { issueComments(first: 100, after: $after, orderBy: {field: UPDATED_AT, direction: DESC}) { nodes { createdAt updatedAt url body issue { title url repository { nameWithOwner } } } pageInfo { hasNextPage endCursor } } } }"@
}

/// The text of the opened-issues connection query, filtered by `$since`.
pub open spec fn spec_opened_issues_query() -> Seq<char> {
    "query($after: String, $since: DateTime) { viewer { issues(first: 100, after: $after, filterBy: {since: $since}, orderBy: {field: CREATED_AT, direction: DESC}) { nodes { createdAt url title body repository { nameWithOwner } } pageInfo { hasNextPage endCursor } } } }"@
}

/// The text of the opened-pull-requests connection query.
pub open spec fn spec_opened_pull_requests_query() -> Seq<char> {
    "query($after: String) { viewer { pullRequests(first: 100, after: $after, orderBy: {field: CREATED_AT, direction: DESC}) { nodes { createdAt url title body repository { nameWithOwner } } pageInfo { hasNextPage endCursor } } } }"@
}

/// The text of the review-contributions query.
pub open spec fn spec_review_contributions_query() -> Seq<char> {
    "query($from: DateTime!, $to: DateTime!, $after: String) { viewer { contributionsCollection(from: $from, to: $to) { pullRequestReviewContributions(first: 100, after: $after) { nodes { occurredAt pullRequestReview { url body comments(first: 100) { nodes { createdAt url body } } pullRequest { title url repository { nameWithOwner } } } } pageInfo { hasNextPage endCursor } } } } }"@
}

/// The text of the paged search query with timeline entries.
pub open spec fn spec_search_query_text() -> Seq<char> {
    "query($query: String!, $after: String) { search(query: $query, type: ISSUE, first: 100, after: $after) { nodes { __typename ... on Issue { url title repository { nameWithOwner } timelineItems(itemTypes: [CLOSED_EVENT], last: 100) { nodes { __typename ... on ClosedEvent { actor { login } createdAt } } } } ... on PullRequest { url title repository { nameWithOwner } timelineItems(itemTypes: [CLOSED_EVENT, MERGED_EVENT], last: 100) { nodes { __typename ... on ClosedEvent { actor { login } createdAt } ... on MergedEvent { actor { login } createdAt } } } } } pageInfo { hasNextPage endCursor } } }"@
}

/// The text of the count-only search query.
pub open spec fn spec_search_count_query_text() -> Seq<char> {
    "query($query: String!) { search(query: $query, type: ISSUE, first: 0) { issueCount } }"@
}

/// Returns the paged search query text.
pub fn search_query_text() -> (r: &'static str)
    ensures
        r@ == spec_search_query_text(),
{
    "query($query: String!, $after: String) { search(query: $query, type: ISSUE, first: 100, after: $after) { nodes { __typename ... on Issue { url title repository { nameWithOwner } timelineItems(itemTypes: [CLOSED_EVENT], last: 100) { nodes { __typename ... on ClosedEvent { actor { login } createdAt } } } } ... on PullRequest { url title repository { nameWithOwner } timelineItems(itemTypes: [CLOSED_EVENT, MERGED_EVENT], last: 100) { nodes { __typename ... on ClosedEvent { actor { login } createdAt } ... on MergedEvent { actor { login } createdAt } } } } } pageInfo { hasNextPage endCursor } } }"
}

/// Returns the count-only search query text.
pub fn search_count_query_text() -> (r: &'static str)
    ensures
        r@ == spec_search_count_query_text(),
{
    "query($query: String!) { search(query: $query, type: ISSUE, first: 0) { issueCount } }"
}

/// Returns the review-contributions query text.
pub fn review_contributions_query_text() -> (r: &'static str)
    ensures
        r@ == spec_review_contributions_query(),
{
    "query($from: DateTime!, $to: DateTime!, $after: String) { viewer { contributionsCollection(from: $from, to: $to) { pullRequestReviewContributions(first: 100, after: $after) { nodes { occurredAt pullRequestReview { url body comments(first: 100) { nodes { createdAt url body } } pullRequest { title url repository { nameWithOwner } } } } pageInfo { hasNextPage endCursor } } } } }"
}

/// The three viewer-connection queries the paginated fetcher runs.
pub enum QueryKind {
    IssueComments,
    OpenedIssues { since: String },
    OpenedPullRequests,
}

/// The variables a connection query takes, as plain values.
pub struct QueryVariables {
    pub after: Option<String>,
    pub since: Option<String>,
}

impl QueryKind {
    /// The GraphQL text of this query.
    pub fn as_str(&self) -> (r: &'static str)
        ensures
            self is IssueComments ==> r@ == spec_issue_comments_query(),
            self is OpenedIssues ==> r@ == spec_opened_issues_query(),
            self is OpenedPullRequests ==> r@ == spec_opened_pull_requests_query(),
    {
        match self {
            QueryKind::IssueComments => "query($after: String) { viewer { issueComments(first: 100, after: $after, orderBy: {field: UPDATED_AT, direction: DESC}) { nodes { createdAt updatedAt url body issue { title url repository { nameWithOwner } } } pageInfo { hasNextPage endCursor } } } }",
            QueryKind::OpenedIssues { .. } => "query($after: String, $since: DateTime) { viewer { issues(first: 100, after: $after, filterBy: {since: $since}, orderBy: {field: CREATED_AT, direction: DESC}) { nodes { createdAt url title body repository { nameWithOwner } } pageInfo { hasNextPage endCursor } } } }",
            QueryKind::OpenedPullRequests => "query($after: String) { viewer { pullRequests(first: 100, after: $after, orderBy: {field: CREATED_AT, direction: DESC}) { nodes { createdAt url title body repository { nameWithOwner } } pageInfo { hasNextPage endCursor } } } }",
        }
    }

    /// The variables of one page request: the cursor, and for opened issues
    /// the `since` bound.
    pub fn variables(&self, after: Option<String>) -> (r: QueryVariables)
        ensures
            crate::text::opt_str_view(r.after) == crate::text::opt_str_view(after),
            self matches QueryKind::OpenedIssues { since } ==> (r.since matches Some(s) && s@
                == since@),
            !(self is OpenedIssues) ==> r.since is None,
    {
        let since = match self {
            QueryKind::OpenedIssues { since } => Some(since.clone()),
            _ => None,
        };
        QueryVariables { after, since }
    }

    /// The viewer field this query's connection lives under.
    pub fn connection_field(&self) -> (r: &'static str)
        ensures
            self is IssueComments ==> r@ == "issueComments"@,
            self is OpenedIssues ==> r@ == "issues"@,
            self is OpenedPullRequests ==> r@ == "pullRequests"@,
    {
        match self {
            QueryKind::IssueComments => "issueComments",
            QueryKind::OpenedIssues { .. } => "issues",
            QueryKind::OpenedPullRequests => "pullRequests",
        }
    }
}

} // verus!
