//! The canonical event model every source normalizes into.

use vstd::prelude::*;

use crate::dates::Instant;
use crate::text::str_eq;

verus! {

/// The closed set of activity kinds a host can report.
#[derive(Clone, Copy, PartialEq, Eq, Structural, Debug)]
pub enum EventKind {
    IssueOpened,
    IssueClosed,
    IssueComment,
    PullRequestOpened,
    PullRequestClosed,
    PullRequestMerged,
    PullRequestReview,
    PullRequestReviewComment,
}

/// The display action label of a kind: every kind maps to exactly one of
/// `Comment`, `Opened`, `Closed`, `Merged`.
pub open spec fn spec_action_label(k: EventKind) -> Seq<char> {
    match k {
        EventKind::IssueComment => "Comment"@,
        EventKind::PullRequestReview => "Comment"@,
        EventKind::PullRequestReviewComment => "Comment"@,
        EventKind::IssueOpened => "Opened"@,
        EventKind::PullRequestOpened => "Opened"@,
        EventKind::IssueClosed => "Closed"@,
        EventKind::PullRequestClosed => "Closed"@,
        EventKind::PullRequestMerged => "Merged"@,
    }
}

impl EventKind {
    /// The coarse human-facing category shown on an event's line.
    pub fn action_label(self) -> (r: &'static str)
        ensures
            r@ == spec_action_label(self),
    {
        match self {
            EventKind::IssueComment => "Comment",
            EventKind::PullRequestReview => "Comment",
            EventKind::PullRequestReviewComment => "Comment",
            EventKind::IssueOpened => "Opened",
            EventKind::PullRequestOpened => "Opened",
            EventKind::IssueClosed => "Closed",
            EventKind::PullRequestClosed => "Closed",
            EventKind::PullRequestMerged => "Merged",
        }
    }
}

/// One normalized activity record.
#[derive(Debug)]
pub struct EventItem {
    pub kind: EventKind,
    pub created_at: Instant,
    pub url: String,
    pub body: Option<String>,
    pub repository: String,
    pub subject_title: String,
    pub subject_url: String,
}

/// The mathematical reading of an `EventItem`.
pub ghost struct EventView {
    pub kind: EventKind,
    pub created_at: int,
    pub url: Seq<char>,
    pub body: Option<Seq<char>>,
    pub repository: Seq<char>,
    pub subject_title: Seq<char>,
    pub subject_url: Seq<char>,
}

impl View for EventItem {
    type V = EventView;

    open spec fn view(&self) -> EventView {
        EventView {
            kind: self.kind,
            created_at: self.created_at.spec_secs() as int,
            url: self.url@,
            body: if self.body is Some {
                Some(self.body->0@)
            } else {
                None
            },
            repository: self.repository@,
            subject_title: self.subject_title@,
            subject_url: self.subject_url@,
        }
    }
}

impl EventItem {
    /// Instants must stay on the supported calendar so dates can render.
    pub open spec fn wf(self) -> bool {
        self.created_at.wf()
    }

    /// A field-for-field copy.
    pub fn duplicate(&self) -> (r: EventItem)
        ensures
            r@ == self@,
            r.wf() == self.wf(),
            r.created_at == self.created_at,
    {
        EventItem {
            kind: self.kind,
            created_at: self.created_at,
            url: self.url.clone(),
            body: match &self.body {
                Some(b) => Some(b.clone()),
                None => None,
            },
            repository: self.repository.clone(),
            subject_title: self.subject_title.clone(),
            subject_url: self.subject_url.clone(),
        }
    }
}

/// The views of a sequence of items.
pub open spec fn views_of(s: Seq<EventItem>) -> Seq<EventView> {
    s.map_values(|it: EventItem| it@)
}

/// How many preview lines a label grants: descriptions under `Opened` get
/// three, everything else one.
pub open spec fn spec_preview_line_limit(label: Seq<char>) -> int {
    if label == "Opened"@ {
        3
    } else {
        1
    }
}

pub fn preview_line_limit(action_label: &str) -> (r: usize)
    ensures
        r == spec_preview_line_limit(action_label@),
{
    if str_eq(action_label, "Opened") {
        3
    } else {
        1
    }
}

/// Self-describing labels (`Opened`, `Closed`, `Merged`) omit the event's
/// own permalink; only `Comment` lines keep one.
pub open spec fn spec_should_include_event_url(label: Seq<char>) -> bool {
    !(label == "Opened"@ || label == "Closed"@ || label == "Merged"@)
}

pub fn should_include_event_url(action_label: &str) -> (r: bool)
    ensures
        r == spec_should_include_event_url(action_label@),
{
    !(str_eq(action_label, "Opened") || str_eq(action_label, "Closed") || str_eq(
        action_label,
        "Merged",
    ))
}

} // verus!
