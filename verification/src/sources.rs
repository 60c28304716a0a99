//! Normalizing host response nodes into events.
//!
//! Every query's response arrives as plain values (strings and options)
//! extracted field-for-field at the application boundary. The functions here
//! hold the actual rules: which fields are required (a missing one is a
//! shape error, never silently dropped data), who must have authored an
//! entry, which timestamps fall inside the requested range, and which raw
//! node becomes which kind of event.

use vstd::prelude::*;

use crate::dates::Date;
use crate::dates::Instant;
use crate::dates::MAX_INSTANT_SECS;
use crate::dates::parse_datetime;
use crate::dates::rfc3339_parse;
use crate::dates::spec_secs_in_range;
use crate::dates::in_range;
use crate::events::EventItem;
use crate::events::EventKind;
use crate::events::EventView;
use crate::events::views_of;
use crate::reconcile::filter_out_closed_when_merged;
use crate::reconcile::spec_reconciled;
use crate::shape::FetchError;
use crate::text::opt_str_view;
use crate::text::str_eq;

verus! {

/// A timeline entry of a search result node, as plain values.
pub struct RawTimelineEntry {
    pub typename: Option<String>,
    pub actor_login: Option<String>,
    pub created_at: Option<String>,
}

/// The mathematical reading of a timeline entry.
pub ghost struct TimelineEntryView {
    pub typename: Option<Seq<char>>,
    pub actor_login: Option<Seq<char>>,
    pub created_at: Option<Seq<char>>,
}

impl View for RawTimelineEntry {
    type V = TimelineEntryView;

    open spec fn view(&self) -> TimelineEntryView {
        TimelineEntryView {
            typename: opt_str_view(self.typename),
            actor_login: opt_str_view(self.actor_login),
            created_at: opt_str_view(self.created_at),
        }
    }
}

/// One node of a search result, with the timeline entries the host attached.
pub struct RawSearchNode {
    pub typename: Option<String>,
    pub url: Option<String>,
    pub title: Option<String>,
    pub repository: Option<String>,
    pub timeline: Vec<RawTimelineEntry>,
}

/// An entry counts only when its author is the requesting identity.
pub open spec fn spec_actor_matches(actor: Option<Seq<char>>, viewer: Seq<char>) -> bool {
    actor matches Some(a) && a == viewer
}

/// Whether the timeline entry was authored by the requesting identity; an
/// entry without an author never matches.
pub fn actor_matches(actor_login: Option<&str>, viewer_login: &str) -> (r: bool)
    ensures
        r == spec_actor_matches(
            match actor_login {
                Some(a) => Some(a@),
                None => None,
            },
            viewer_login@,
        ),
{
    match actor_login {
        Some(a) => str_eq(a, viewer_login),
        None => false,
    }
}

/// A parsed host timestamp that the library can hold: it parses as RFC 3339
/// and lies on the supported calendar.
pub open spec fn parses_to_instant(s: Seq<char>) -> bool {
    rfc3339_parse(s) matches Some(t) && 0 <= t <= MAX_INSTANT_SECS
}

/// The seconds of such a timestamp.
pub open spec fn parsed_secs(s: Seq<char>) -> int {
    rfc3339_parse(s)->0 as int
}

/// What one timeline entry contributes: a shape error, nothing, or one
/// closed/merged event. A `ClosedEvent` closes an issue or a pull request
/// after its subject's type; a `MergedEvent` counts only on a pull request.
pub open spec fn spec_timeline_event(
    e: TimelineEntryView,
    subject_typename: Seq<char>,
    url: Seq<char>,
    title: Seq<char>,
    repository: Seq<char>,
    viewer: Seq<char>,
    from: Option<Date>,
    to: Option<Date>,
) -> Result<Option<EventView>, Seq<char>> {
    if e.typename is None {
        Err("timeline node missing __typename"@)
    } else if !spec_actor_matches(e.actor_login, viewer) {
        Ok(None)
    } else if e.created_at is None {
        Err("timeline node missing createdAt"@)
    } else if !parses_to_instant(e.created_at->0) {
        Err("timeline node invalid createdAt"@)
    } else if !spec_secs_in_range(parsed_secs(e.created_at->0), from, to) {
        Ok(None)
    } else if e.typename->0 == "ClosedEvent"@ {
        let kind = if subject_typename == "Issue"@ {
            EventKind::IssueClosed
        } else {
            EventKind::PullRequestClosed
        };
        Ok(
            Some(
                EventView {
                    kind,
                    created_at: parsed_secs(e.created_at->0),
                    url: url,
                    body: None,
                    repository: repository,
                    subject_title: title,
                    subject_url: url,
                },
            ),
        )
    } else if e.typename->0 == "MergedEvent"@ && subject_typename == "PullRequest"@ {
        Ok(
            Some(
                EventView {
                    kind: EventKind::PullRequestMerged,
                    created_at: parsed_secs(e.created_at->0),
                    url: url,
                    body: None,
                    repository: repository,
                    subject_title: title,
                    subject_url: url,
                },
            ),
        )
    } else {
        Ok(None)
    }
}

fn timeline_entry_event(
    entry: &RawTimelineEntry,
    subject_typename: &str,
    url: &str,
    title: &str,
    repository: &str,
    viewer_login: &str,
    from: Option<Date>,
    to: Option<Date>,
) -> (r: Result<Option<EventItem>, FetchError>)
    ensures
        spec_timeline_event(
            entry@,
            subject_typename@,
            url@,
            title@,
            repository@,
            viewer_login@,
            from,
            to,
        ) matches Ok(opt) ==> (r matches Ok(ro) && (match ro {
            Some(it) => opt == Some(it@) && it.wf(),
            None => opt is None,
        })),
        spec_timeline_event(
            entry@,
            subject_typename@,
            url@,
            title@,
            repository@,
            viewer_login@,
            from,
            to,
        ) matches Err(m) ==> (r matches Err(e) && e matches FetchError::Shape(mm) && mm@ == m),
{
    let typename = match &entry.typename {
        Some(t) => t,
        None => {
            return Err(FetchError::Shape(String::from_str("timeline node missing __typename")));
        },
    };
    let actor: Option<&str> = match &entry.actor_login {
        Some(a) => Some(a.as_str()),
        None => None,
    };
    if !actor_matches(actor, viewer_login) {
        return Ok(None);
    }
    let created_raw = match &entry.created_at {
        Some(c) => c,
        None => {
            return Err(FetchError::Shape(String::from_str("timeline node missing createdAt")));
        },
    };
    let created_at = match parse_datetime(created_raw.as_str()) {
        Some(t) => t,
        None => {
            return Err(FetchError::Shape(String::from_str("timeline node invalid createdAt")));
        },
    };
    if !in_range(created_at, from, to) {
        return Ok(None);
    }
    if str_eq(typename.as_str(), "ClosedEvent") {
        let kind = if str_eq(subject_typename, "Issue") {
            EventKind::IssueClosed
        } else {
            EventKind::PullRequestClosed
        };
        Ok(
            Some(
                EventItem {
                    kind,
                    created_at,
                    url: String::from_str(url),
                    body: None,
                    repository: String::from_str(repository),
                    subject_title: String::from_str(title),
                    subject_url: String::from_str(url),
                },
            ),
        )
    } else if str_eq(typename.as_str(), "MergedEvent") && str_eq(subject_typename, "PullRequest") {
        Ok(
            Some(
                EventItem {
                    kind: EventKind::PullRequestMerged,
                    created_at,
                    url: String::from_str(url),
                    body: None,
                    repository: String::from_str(repository),
                    subject_title: String::from_str(title),
                    subject_url: String::from_str(url),
                },
            ),
        )
    } else {
        Ok(None)
    }
}

/// What a sequence of timeline entries contributes, in order; the first
/// shape error aborts the whole node.
pub open spec fn spec_timeline_events(
    entries: Seq<TimelineEntryView>,
    subject_typename: Seq<char>,
    url: Seq<char>,
    title: Seq<char>,
    repository: Seq<char>,
    viewer: Seq<char>,
    from: Option<Date>,
    to: Option<Date>,
) -> Result<Seq<EventView>, Seq<char>>
    decreases entries.len(),
{
    if entries.len() == 0 {
        Ok(Seq::empty())
    } else {
        match spec_timeline_event(
            entries[0],
            subject_typename,
            url,
            title,
            repository,
            viewer,
            from,
            to,
        ) {
            Err(m) => Err(m),
            Ok(opt) => match spec_timeline_events(
                entries.drop_first(),
                subject_typename,
                url,
                title,
                repository,
                viewer,
                from,
                to,
            ) {
                Err(m) => Err(m),
                Ok(rest) => Ok(
                    match opt {
                        Some(ev) => seq![ev] + rest,
                        None => rest,
                    },
                ),
            },
        }
    }
}

/// Events already produced, prepended onto a pending result.
pub open spec fn prepend_events(
    pre: Seq<EventView>,
    r: Result<Seq<EventView>, Seq<char>>,
) -> Result<Seq<EventView>, Seq<char>> {
    match r {
        Ok(s) => Ok(pre + s),
        Err(m) => Err(m),
    }
}

/// The reading of a whole search node: its subject fields are required, then
/// its timeline entries contribute their events.
pub open spec fn spec_search_node_events(
    typename: Option<Seq<char>>,
    url: Option<Seq<char>>,
    title: Option<Seq<char>>,
    repository: Option<Seq<char>>,
    timeline: Seq<TimelineEntryView>,
    viewer: Seq<char>,
    from: Option<Date>,
    to: Option<Date>,
) -> Result<Seq<EventView>, Seq<char>> {
    if typename is None {
        Err("search node missing __typename"@)
    } else if url is None {
        Err("search node missing url"@)
    } else if title is None {
        Err("search node missing title"@)
    } else if repository is None {
        Err("search node missing repository nameWithOwner"@)
    } else {
        spec_timeline_events(
            timeline,
            typename->0,
            url->0,
            title->0,
            repository->0,
            viewer,
            from,
            to,
        )
    }
}

pub open spec fn timeline_views(entries: Seq<RawTimelineEntry>) -> Seq<TimelineEntryView> {
    entries.map_values(|e: RawTimelineEntry| e@)
}

/// Extracts this user's closed and merged events from one search result
/// node, keeping only timeline entries they authored whose instant lies in
/// the requested range.
pub fn event_items_from_search_node(
    node: &RawSearchNode,
    viewer_login: &str,
    from: Option<Date>,
    to: Option<Date>,
) -> (r: Result<Vec<EventItem>, FetchError>)
    ensures
        spec_search_node_events(
            opt_str_view(node.typename),
            opt_str_view(node.url),
            opt_str_view(node.title),
            opt_str_view(node.repository),
            timeline_views(node.timeline@),
            viewer_login@,
            from,
            to,
        ) matches Ok(evs) ==> (r matches Ok(v) && views_of(v@) == evs && forall|k: int|
            0 <= k < v@.len() ==> (#[trigger] v@[k]).wf()),
        spec_search_node_events(
            opt_str_view(node.typename),
            opt_str_view(node.url),
            opt_str_view(node.title),
            opt_str_view(node.repository),
            timeline_views(node.timeline@),
            viewer_login@,
            from,
            to,
        ) matches Err(m) ==> (r matches Err(e) && e matches FetchError::Shape(mm) && mm@ == m),
{
    let typename = match &node.typename {
        Some(t) => t,
        None => {
            return Err(FetchError::Shape(String::from_str("search node missing __typename")));
        },
    };
    let url = match &node.url {
        Some(u) => u,
        None => {
            return Err(FetchError::Shape(String::from_str("search node missing url")));
        },
    };
    let title = match &node.title {
        Some(t) => t,
        None => {
            return Err(FetchError::Shape(String::from_str("search node missing title")));
        },
    };
    let repository = match &node.repository {
        Some(rp) => rp,
        None => {
            return Err(
                FetchError::Shape(
                    String::from_str("search node missing repository nameWithOwner"),
                ),
            );
        },
    };
    let ghost entries = timeline_views(node.timeline@);
    let ghost ctx_typename = typename@;
    let mut out: Vec<EventItem> = Vec::new();
    let mut i: usize = 0;
    proof {
        assert(entries.skip(0) =~= entries);
        assert(views_of(out@) =~= Seq::<EventView>::empty());
    }
    while i < node.timeline.len()
        invariant
            0 <= i <= node.timeline@.len(),
            entries == timeline_views(node.timeline@),
            entries.len() == node.timeline@.len(),
            typename@ == ctx_typename,
            opt_str_view(node.typename) == Some(typename@),
            opt_str_view(node.url) == Some(url@),
            opt_str_view(node.title) == Some(title@),
            opt_str_view(node.repository) == Some(repository@),
            spec_timeline_events(
                entries,
                typename@,
                url@,
                title@,
                repository@,
                viewer_login@,
                from,
                to,
            ) == prepend_events(
                views_of(out@),
                spec_timeline_events(
                    entries.skip(i as int),
                    typename@,
                    url@,
                    title@,
                    repository@,
                    viewer_login@,
                    from,
                    to,
                ),
            ),
            forall|k: int| 0 <= k < out@.len() ==> (#[trigger] out@[k]).wf(),
        decreases node.timeline@.len() - i,
    {
        proof {
            assert(entries.skip(i as int)[0] == entries[i as int]);
            assert(entries[i as int] == node.timeline@[i as int]@);
            assert(entries.skip(i as int).drop_first() =~= entries.skip(i as int + 1));
        }
        let step = timeline_entry_event(
            &node.timeline[i],
            typename.as_str(),
            url.as_str(),
            title.as_str(),
            repository.as_str(),
            viewer_login,
            from,
            to,
        );
        match step {
            Err(e) => {
                proof {
                    let entry_res = spec_timeline_event(
                        entries[i as int],
                        typename@,
                        url@,
                        title@,
                        repository@,
                        viewer_login@,
                        from,
                        to,
                    );
                    assert(entry_res is Err);
                    let m = entry_res->Err_0;
                    assert(spec_timeline_events(
                        entries.skip(i as int),
                        typename@,
                        url@,
                        title@,
                        repository@,
                        viewer_login@,
                        from,
                        to,
                    ) == Err::<Seq<EventView>, Seq<char>>(m));
                }
                return Err(e);
            },
            Ok(None) => {},
            Ok(Some(item)) => {
                let ghost pre = views_of(out@);
                out.push(item);
                proof {
                    assert(views_of(out@) =~= pre.push(item@));
                    assert forall|rest: Seq<EventView>|
                        true implies pre + (seq![item@] + rest) =~= views_of(out@) + rest by {}
                }
            },
        }
        i = i + 1;
    }
    proof {
        assert(entries.skip(i as int) =~= Seq::<TimelineEntryView>::empty());
        assert(views_of(out@) + Seq::<EventView>::empty() =~= views_of(out@));
    }
    Ok(out)
}

/// A subject node of a viewer connection (an opened issue or pull request).
pub struct RawSubjectNode {
    pub created_at: Option<String>,
    pub url: Option<String>,
    pub title: Option<String>,
    pub body: Option<String>,
    pub repository: Option<String>,
}

pub ghost struct SubjectNodeView {
    pub created_at: Option<Seq<char>>,
    pub url: Option<Seq<char>>,
    pub title: Option<Seq<char>>,
    pub body: Option<Seq<char>>,
    pub repository: Option<Seq<char>>,
}

impl View for RawSubjectNode {
    type V = SubjectNodeView;

    open spec fn view(&self) -> SubjectNodeView {
        SubjectNodeView {
            created_at: opt_str_view(self.created_at),
            url: opt_str_view(self.url),
            title: opt_str_view(self.title),
            body: opt_str_view(self.body),
            repository: opt_str_view(self.repository),
        }
    }
}

/// The event an opened-subject node yields: the node's own permalink is both
/// the event URL and the subject URL, and the description body is kept.
pub open spec fn spec_opened_event(
    n: SubjectNodeView,
    kind: EventKind,
    from: Date,
    to: Date,
) -> Result<Option<EventView>, Seq<char>> {
    if n.created_at is None {
        Err("subject node missing createdAt"@)
    } else if !parses_to_instant(n.created_at->0) {
        Err("invalid datetime"@)
    } else if !spec_secs_in_range(parsed_secs(n.created_at->0), Some(from), Some(to)) {
        Ok(None)
    } else if n.url is None {
        Err("subject node missing url"@)
    } else if n.title is None {
        Err("subject node missing title"@)
    } else if n.repository is None {
        Err("subject node missing repository nameWithOwner"@)
    } else {
        Ok(
            Some(
                EventView {
                    kind,
                    created_at: parsed_secs(n.created_at->0),
                    url: n.url->0,
                    body: n.body,
                    repository: n.repository->0,
                    subject_title: n.title->0,
                    subject_url: n.url->0,
                },
            ),
        )
    }
}

fn opened_event_from_node(node: &RawSubjectNode, kind: EventKind, from: Date, to: Date) -> (r:
    Result<Option<EventItem>, FetchError>)
    ensures
        spec_opened_event(node@, kind, from, to) matches Ok(opt) ==> (r matches Ok(ro) && (
        match ro {
            Some(it) => opt == Some(it@) && it.wf(),
            None => opt is None,
        })),
        spec_opened_event(node@, kind, from, to) matches Err(m) ==> (r matches Err(e) && e matches
            FetchError::Shape(mm) && mm@ == m),
{
    let created_raw = match &node.created_at {
        Some(c) => c,
        None => {
            return Err(FetchError::Shape(String::from_str("subject node missing createdAt")));
        },
    };
    let created_at = match parse_datetime(created_raw.as_str()) {
        Some(t) => t,
        None => {
            return Err(FetchError::Shape(String::from_str("invalid datetime")));
        },
    };
    if !in_range(created_at, Some(from), Some(to)) {
        return Ok(None);
    }
    let url = match &node.url {
        Some(u) => u,
        None => {
            return Err(FetchError::Shape(String::from_str("subject node missing url")));
        },
    };
    let title = match &node.title {
        Some(t) => t,
        None => {
            return Err(FetchError::Shape(String::from_str("subject node missing title")));
        },
    };
    let repository = match &node.repository {
        Some(rp) => rp,
        None => {
            return Err(
                FetchError::Shape(
                    String::from_str("subject node missing repository nameWithOwner"),
                ),
            );
        },
    };
    let body = match &node.body {
        Some(b) => Some(b.clone()),
        None => None,
    };
    Ok(
        Some(
            EventItem {
                kind,
                created_at,
                url: url.clone(),
                body,
                repository: repository.clone(),
                subject_title: title.clone(),
                subject_url: url.clone(),
            },
        ),
    )
}

/// Maps one opened-pull-request node, filtering by the requested range.
pub fn opened_pull_request_event_from_node(node: &RawSubjectNode, from: Date, to: Date) -> (r:
    Result<Option<EventItem>, FetchError>)
    ensures
        spec_opened_event(node@, EventKind::PullRequestOpened, from, to) matches Ok(opt) ==> (
        r matches Ok(ro) && (match ro {
            Some(it) => opt == Some(it@) && it.wf(),
            None => opt is None,
        })),
        spec_opened_event(node@, EventKind::PullRequestOpened, from, to) matches Err(m) ==> (
        r matches Err(e) && e matches FetchError::Shape(mm) && mm@ == m),
{
    opened_event_from_node(node, EventKind::PullRequestOpened, from, to)
}

/// Maps one opened-issue node, filtering by the requested range.
pub fn opened_issue_event_from_node(node: &RawSubjectNode, from: Date, to: Date) -> (r: Result<
    Option<EventItem>,
    FetchError,
>)
    ensures
        spec_opened_event(node@, EventKind::IssueOpened, from, to) matches Ok(opt) ==> (r matches
            Ok(ro) && (match ro {
            Some(it) => opt == Some(it@) && it.wf(),
            None => opt is None,
        })),
        spec_opened_event(node@, EventKind::IssueOpened, from, to) matches Err(m) ==> (r matches
            Err(e) && e matches FetchError::Shape(mm) && mm@ == m),
{
    opened_event_from_node(node, EventKind::IssueOpened, from, to)
}

/// The early-stop test of the opened-subject connections: items arrive
/// newest first, so one created before the range's start ends the walk.
pub open spec fn spec_opened_stop(n: SubjectNodeView, from: Date) -> Result<bool, Seq<char>> {
    if n.created_at is None {
        Err("subject node missing createdAt"@)
    } else if !parses_to_instant(n.created_at->0) {
        Err("invalid datetime"@)
    } else {
        Ok(crate::dates::spec_date_of(parsed_secs(n.created_at->0)) < from.spec_days())
    }
}

/// Whether pagination should stop at this opened-subject node.
pub fn opened_stop(node: &RawSubjectNode, from: Date) -> (r: Result<bool, FetchError>)
    requires
        from.wf(),
    ensures
        spec_opened_stop(node@, from) matches Ok(b) ==> r == Ok::<bool, FetchError>(b),
        spec_opened_stop(node@, from) matches Err(m) ==> (r matches Err(e) && e matches
            FetchError::Shape(mm) && mm@ == m),
{
    let created_raw = match &node.created_at {
        Some(c) => c,
        None => {
            return Err(FetchError::Shape(String::from_str("subject node missing createdAt")));
        },
    };
    let created_at = match parse_datetime(created_raw.as_str()) {
        Some(t) => t,
        None => {
            return Err(FetchError::Shape(String::from_str("invalid datetime")));
        },
    };
    Ok(created_at.date().days() < from.days())
}

/// An issue-comment node of the viewer connection, with its parent issue's
/// fields alongside.
pub struct RawIssueCommentNode {
    pub created_at: Option<String>,
    pub updated_at: Option<String>,
    pub url: Option<String>,
    pub body: Option<String>,
    pub issue_title: Option<String>,
    pub issue_url: Option<String>,
    pub repository: Option<String>,
}

pub ghost struct IssueCommentNodeView {
    pub created_at: Option<Seq<char>>,
    pub updated_at: Option<Seq<char>>,
    pub url: Option<Seq<char>>,
    pub body: Option<Seq<char>>,
    pub issue_title: Option<Seq<char>>,
    pub issue_url: Option<Seq<char>>,
    pub repository: Option<Seq<char>>,
}

impl View for RawIssueCommentNode {
    type V = IssueCommentNodeView;

    open spec fn view(&self) -> IssueCommentNodeView {
        IssueCommentNodeView {
            created_at: opt_str_view(self.created_at),
            updated_at: opt_str_view(self.updated_at),
            url: opt_str_view(self.url),
            body: opt_str_view(self.body),
            issue_title: opt_str_view(self.issue_title),
            issue_url: opt_str_view(self.issue_url),
            repository: opt_str_view(self.repository),
        }
    }
}

/// The event an issue-comment node yields: the comment keeps its own
/// permalink and body; its parent issue is the subject.
pub open spec fn spec_issue_comment_event(n: IssueCommentNodeView, from: Date, to: Date) -> Result<
    Option<EventView>,
    Seq<char>,
> {
    if n.created_at is None {
        Err("issue comment missing createdAt"@)
    } else if !parses_to_instant(n.created_at->0) {
        Err("invalid datetime"@)
    } else if !spec_secs_in_range(parsed_secs(n.created_at->0), Some(from), Some(to)) {
        Ok(None)
    } else if n.url is None {
        Err("issue comment missing url"@)
    } else if n.body is None {
        Err("issue comment missing body"@)
    } else if n.issue_title is None {
        Err("issue missing title"@)
    } else if n.issue_url is None {
        Err("issue missing url"@)
    } else if n.repository is None {
        Err("issue missing repository nameWithOwner"@)
    } else {
        Ok(
            Some(
                EventView {
                    kind: EventKind::IssueComment,
                    created_at: parsed_secs(n.created_at->0),
                    url: n.url->0,
                    body: Some(n.body->0),
                    repository: n.repository->0,
                    subject_title: n.issue_title->0,
                    subject_url: n.issue_url->0,
                },
            ),
        )
    }
}

/// Maps one issue-comment node, filtering by the requested range.
pub fn issue_comment_event_from_node(node: &RawIssueCommentNode, from: Date, to: Date) -> (r:
    Result<Option<EventItem>, FetchError>)
    ensures
        spec_issue_comment_event(node@, from, to) matches Ok(opt) ==> (r matches Ok(ro) && (
        match ro {
            Some(it) => opt == Some(it@) && it.wf(),
            None => opt is None,
        })),
        spec_issue_comment_event(node@, from, to) matches Err(m) ==> (r matches Err(e) && e matches
            FetchError::Shape(mm) && mm@ == m),
{
    let created_raw = match &node.created_at {
        Some(c) => c,
        None => {
            return Err(FetchError::Shape(String::from_str("issue comment missing createdAt")));
        },
    };
    let created_at = match parse_datetime(created_raw.as_str()) {
        Some(t) => t,
        None => {
            return Err(FetchError::Shape(String::from_str("invalid datetime")));
        },
    };
    if !in_range(created_at, Some(from), Some(to)) {
        return Ok(None);
    }
    let url = match &node.url {
        Some(u) => u,
        None => {
            return Err(FetchError::Shape(String::from_str("issue comment missing url")));
        },
    };
    let body = match &node.body {
        Some(b) => b,
        None => {
            return Err(FetchError::Shape(String::from_str("issue comment missing body")));
        },
    };
    let issue_title = match &node.issue_title {
        Some(t) => t,
        None => {
            return Err(FetchError::Shape(String::from_str("issue missing title")));
        },
    };
    let issue_url = match &node.issue_url {
        Some(u) => u,
        None => {
            return Err(FetchError::Shape(String::from_str("issue missing url")));
        },
    };
    let repository = match &node.repository {
        Some(rp) => rp,
        None => {
            return Err(
                FetchError::Shape(String::from_str("issue missing repository nameWithOwner")),
            );
        },
    };
    Ok(
        Some(
            EventItem {
                kind: EventKind::IssueComment,
                created_at,
                url: url.clone(),
                body: Some(body.clone()),
                repository: repository.clone(),
                subject_title: issue_title.clone(),
                subject_url: issue_url.clone(),
            },
        ),
    )
}

/// The early-stop test of the issue-comment connection: comments arrive
/// newest first by update time, so one updated before the range's start ends
/// the walk.
pub open spec fn spec_issue_comment_stop(n: IssueCommentNodeView, from: Date) -> Result<
    bool,
    Seq<char>,
> {
    if n.updated_at is None {
        Err("issue comment missing updatedAt"@)
    } else if !parses_to_instant(n.updated_at->0) {
        Err("invalid datetime"@)
    } else {
        Ok(crate::dates::spec_date_of(parsed_secs(n.updated_at->0)) < from.spec_days())
    }
}

/// Whether pagination should stop at this issue-comment node.
pub fn issue_comment_stop(node: &RawIssueCommentNode, from: Date) -> (r: Result<bool, FetchError>)
    requires
        from.wf(),
    ensures
        spec_issue_comment_stop(node@, from) matches Ok(b) ==> r == Ok::<bool, FetchError>(b),
        spec_issue_comment_stop(node@, from) matches Err(m) ==> (r matches Err(e) && e matches
            FetchError::Shape(mm) && mm@ == m),
{
    let updated_raw = match &node.updated_at {
        Some(c) => c,
        None => {
            return Err(FetchError::Shape(String::from_str("issue comment missing updatedAt")));
        },
    };
    let updated_at = match parse_datetime(updated_raw.as_str()) {
        Some(t) => t,
        None => {
            return Err(FetchError::Shape(String::from_str("invalid datetime")));
        },
    };
    Ok(updated_at.date().days() < from.days())
}

/// A comment attached to a pull-request review.
pub struct RawReviewComment {
    pub created_at: Option<String>,
    pub url: Option<String>,
    pub body: Option<String>,
}

pub ghost struct ReviewCommentView {
    pub created_at: Option<Seq<char>>,
    pub url: Option<Seq<char>>,
    pub body: Option<Seq<char>>,
}

impl View for RawReviewComment {
    type V = ReviewCommentView;

    open spec fn view(&self) -> ReviewCommentView {
        ReviewCommentView {
            created_at: opt_str_view(self.created_at),
            url: opt_str_view(self.url),
            body: opt_str_view(self.body),
        }
    }
}

/// The pull request a review belongs to.
pub struct RawPullRequestRef {
    pub title: Option<String>,
    pub url: Option<String>,
    pub repository: Option<String>,
}

pub ghost struct PullRequestRefView {
    pub title: Option<Seq<char>>,
    pub url: Option<Seq<char>>,
    pub repository: Option<Seq<char>>,
}

impl View for RawPullRequestRef {
    type V = PullRequestRefView;

    open spec fn view(&self) -> PullRequestRefView {
        PullRequestRefView {
            title: opt_str_view(self.title),
            url: opt_str_view(self.url),
            repository: opt_str_view(self.repository),
        }
    }
}

/// The review a contribution points at, with its comments.
pub struct RawReview {
    pub url: Option<String>,
    pub body: Option<String>,
    pub pull_request: Option<RawPullRequestRef>,
    pub comments: Vec<RawReviewComment>,
}

/// One node of the review-contributions connection.
pub struct RawReviewContribution {
    pub occurred_at: Option<String>,
    pub review: Option<RawReview>,
}

/// The event one review comment yields under its review's subject.
pub open spec fn spec_review_comment_event(
    c: ReviewCommentView,
    title: Seq<char>,
    subject_url: Seq<char>,
    repository: Seq<char>,
    from: Date,
    to: Date,
) -> Result<Option<EventView>, Seq<char>> {
    if c.created_at is None {
        Err("review comment missing createdAt"@)
    } else if !parses_to_instant(c.created_at->0) {
        Err("invalid datetime"@)
    } else if !spec_secs_in_range(parsed_secs(c.created_at->0), Some(from), Some(to)) {
        Ok(None)
    } else if c.url is None {
        Err("review comment missing url"@)
    } else if c.body is None {
        Err("review comment missing body"@)
    } else {
        Ok(
            Some(
                EventView {
                    kind: EventKind::PullRequestReviewComment,
                    created_at: parsed_secs(c.created_at->0),
                    url: c.url->0,
                    body: Some(c.body->0),
                    repository: repository,
                    subject_title: title,
                    subject_url: subject_url,
                },
            ),
        )
    }
}

/// The events of a review's comment list, in order.
pub open spec fn spec_review_comment_events(
    comments: Seq<ReviewCommentView>,
    title: Seq<char>,
    subject_url: Seq<char>,
    repository: Seq<char>,
    from: Date,
    to: Date,
) -> Result<Seq<EventView>, Seq<char>>
    decreases comments.len(),
{
    if comments.len() == 0 {
        Ok(Seq::empty())
    } else {
        match spec_review_comment_event(comments[0], title, subject_url, repository, from, to) {
            Err(m) => Err(m),
            Ok(opt) => match spec_review_comment_events(
                comments.drop_first(),
                title,
                subject_url,
                repository,
                from,
                to,
            ) {
                Err(m) => Err(m),
                Ok(rest) => Ok(
                    match opt {
                        Some(ev) => seq![ev] + rest,
                        None => rest,
                    },
                ),
            },
        }
    }
}

pub open spec fn review_comment_views(comments: Seq<RawReviewComment>) -> Seq<ReviewCommentView> {
    comments.map_values(|c: RawReviewComment| c@)
}

/// What one review contribution yields: a contribution without a review is
/// skipped whole; otherwise the review itself becomes an event when its
/// occurrence lies in range, followed by its in-range comments.
pub open spec fn spec_review_contribution_events(
    occurred_at: Option<Seq<char>>,
    review_url: Option<Seq<char>>,
    review_body: Option<Seq<char>>,
    pull_request: Option<PullRequestRefView>,
    comments: Seq<ReviewCommentView>,
    has_review: bool,
    from: Date,
    to: Date,
) -> Result<Seq<EventView>, Seq<char>> {
    if occurred_at is None {
        Err("review contribution missing occurredAt"@)
    } else if !parses_to_instant(occurred_at->0) {
        Err("invalid datetime"@)
    } else if !has_review {
        Ok(Seq::empty())
    } else if review_url is None {
        Err("review missing url"@)
    } else if pull_request is None {
        Err("review missing pullRequest"@)
    } else if pull_request->0.title is None {
        Err("pull request missing title"@)
    } else if pull_request->0.url is None {
        Err("pull request missing url"@)
    } else if pull_request->0.repository is None {
        Err("pull request missing repository nameWithOwner"@)
    } else {
        let pr = pull_request->0;
        let base: Seq<EventView> = if spec_secs_in_range(parsed_secs(occurred_at->0), Some(from), Some(to)) {
            seq![
                EventView {
                    kind: EventKind::PullRequestReview,
                    created_at: parsed_secs(occurred_at->0),
                    url: review_url->0,
                    body: review_body,
                    repository: pr.repository->0,
                    subject_title: pr.title->0,
                    subject_url: pr.url->0,
                },
            ]
        } else {
            Seq::empty()
        };
        match spec_review_comment_events(
            comments,
            pr.title->0,
            pr.url->0,
            pr.repository->0,
            from,
            to,
        ) {
            Err(m) => Err(m),
            Ok(rest) => Ok(base + rest),
        }
    }
}

fn review_comment_from_node(
    comment: &RawReviewComment,
    title: &str,
    subject_url: &str,
    repository: &str,
    from: Date,
    to: Date,
) -> (r: Result<Option<EventItem>, FetchError>)
    ensures
        spec_review_comment_event(comment@, title@, subject_url@, repository@, from, to) matches Ok(
            opt,
        ) ==> (r matches Ok(ro) && (match ro {
            Some(it) => opt == Some(it@) && it.wf(),
            None => opt is None,
        })),
        spec_review_comment_event(comment@, title@, subject_url@, repository@, from, to) matches
            Err(m) ==> (r matches Err(e) && e matches FetchError::Shape(mm) && mm@ == m),
{
    let created_raw = match &comment.created_at {
        Some(c) => c,
        None => {
            return Err(FetchError::Shape(String::from_str("review comment missing createdAt")));
        },
    };
    let created_at = match parse_datetime(created_raw.as_str()) {
        Some(t) => t,
        None => {
            return Err(FetchError::Shape(String::from_str("invalid datetime")));
        },
    };
    if !in_range(created_at, Some(from), Some(to)) {
        return Ok(None);
    }
    let url = match &comment.url {
        Some(u) => u,
        None => {
            return Err(FetchError::Shape(String::from_str("review comment missing url")));
        },
    };
    let body = match &comment.body {
        Some(b) => b,
        None => {
            return Err(FetchError::Shape(String::from_str("review comment missing body")));
        },
    };
    Ok(
        Some(
            EventItem {
                kind: EventKind::PullRequestReviewComment,
                created_at,
                url: url.clone(),
                body: Some(body.clone()),
                repository: String::from_str(repository),
                subject_title: String::from_str(title),
                subject_url: String::from_str(subject_url),
            },
        ),
    )
}

/// Extracts the review event and review-comment events of one contribution
/// node of the review-contributions connection.
#[verifier::loop_isolation(false)]
pub fn review_contribution_events(node: &RawReviewContribution, from: Date, to: Date) -> (r: Result<
    Vec<EventItem>,
    FetchError,
>)
    requires
        from.wf(),
        to.wf(),
    ensures
        spec_review_contribution_events(
            opt_str_view(node.occurred_at),
            review_url_view(node.review),
            review_body_view(node.review),
            review_pr_view(node.review),
            review_comments_view(node.review),
            node.review is Some,
            from,
            to,
        ) matches Ok(evs) ==> (r matches Ok(v) && views_of(v@) == evs && forall|k: int|
            0 <= k < v@.len() ==> (#[trigger] v@[k]).wf()),
        spec_review_contribution_events(
            opt_str_view(node.occurred_at),
            review_url_view(node.review),
            review_body_view(node.review),
            review_pr_view(node.review),
            review_comments_view(node.review),
            node.review is Some,
            from,
            to,
        ) matches Err(m) ==> (r matches Err(e) && e matches FetchError::Shape(mm) && mm@ == m),
{
    let occurred_raw = match &node.occurred_at {
        Some(c) => c,
        None => {
            return Err(
                FetchError::Shape(String::from_str("review contribution missing occurredAt")),
            );
        },
    };
    let occurred_at = match parse_datetime(occurred_raw.as_str()) {
        Some(t) => t,
        None => {
            return Err(FetchError::Shape(String::from_str("invalid datetime")));
        },
    };
    let review = match &node.review {
        Some(rv) => rv,
        None => {
            return Ok(Vec::new());
        },
    };
    let review_url = match &review.url {
        Some(u) => u,
        None => {
            return Err(FetchError::Shape(String::from_str("review missing url")));
        },
    };
    let pull_request = match &review.pull_request {
        Some(pr) => pr,
        None => {
            return Err(FetchError::Shape(String::from_str("review missing pullRequest")));
        },
    };
    let title = match &pull_request.title {
        Some(t) => t,
        None => {
            return Err(FetchError::Shape(String::from_str("pull request missing title")));
        },
    };
    let subject_url = match &pull_request.url {
        Some(u) => u,
        None => {
            return Err(FetchError::Shape(String::from_str("pull request missing url")));
        },
    };
    let repository = match &pull_request.repository {
        Some(rp) => rp,
        None => {
            return Err(
                FetchError::Shape(
                    String::from_str("pull request missing repository nameWithOwner"),
                ),
            );
        },
    };
    let mut out: Vec<EventItem> = Vec::new();
    if in_range(occurred_at, Some(from), Some(to)) {
        let review_body = match &review.body {
            Some(b) => Some(b.clone()),
            None => None,
        };
        out.push(
            EventItem {
                kind: EventKind::PullRequestReview,
                created_at: occurred_at,
                url: review_url.clone(),
                body: review_body,
                repository: repository.clone(),
                subject_title: title.clone(),
                subject_url: subject_url.clone(),
            },
        );
    }
    let ghost base = views_of(out@);
    let ghost comments = review_comment_views(review.comments@);
    let mut i: usize = 0;
    proof {
        assert(comments.skip(0) =~= comments);
    }
    while i < review.comments.len()
        invariant
            0 <= i <= review.comments@.len(),
            comments == review_comment_views(review.comments@),
            comments.len() == review.comments@.len(),
            spec_review_comment_events(comments, title@, subject_url@, repository@, from, to)
                == (match spec_review_comment_events(
                comments.skip(i as int),
                title@,
                subject_url@,
                repository@,
                from,
                to,
            ) {
                Err(m) => Err::<Seq<EventView>, Seq<char>>(m),
                Ok(rest) => Ok(views_of(out@).skip(base.len() as int) + rest),
            }),
            base.len() <= out@.len(),
            views_of(out@).take(base.len() as int) == base,
            forall|k: int| 0 <= k < out@.len() ==> (#[trigger] out@[k]).wf(),
        decreases review.comments@.len() - i,
    {
        proof {
            assert(comments.skip(i as int)[0] == comments[i as int]);
            assert(comments[i as int] == review.comments@[i as int]@);
            assert(comments.skip(i as int).drop_first() =~= comments.skip(i as int + 1));
        }
        let step = review_comment_from_node(
            &review.comments[i],
            title.as_str(),
            subject_url.as_str(),
            repository.as_str(),
            from,
            to,
        );
        match step {
            Err(e) => {
                proof {
                    let entry_res = spec_review_comment_event(
                        comments[i as int],
                        title@,
                        subject_url@,
                        repository@,
                        from,
                        to,
                    );
                    assert(entry_res is Err);
                    let m = entry_res->Err_0;
                    assert(spec_review_comment_events(
                        comments.skip(i as int),
                        title@,
                        subject_url@,
                        repository@,
                        from,
                        to,
                    ) == Err::<Seq<EventView>, Seq<char>>(m));
                }
                return Err(e);
            },
            Ok(None) => {},
            Ok(Some(item)) => {
                let ghost pre = views_of(out@);
                out.push(item);
                proof {
                    assert(views_of(out@) =~= pre.push(item@));
                    assert(views_of(out@).take(base.len() as int) =~= pre.take(base.len() as int));
                    assert forall|rest: Seq<EventView>|
                        true implies pre.skip(base.len() as int) + (seq![item@] + rest)
                        =~= views_of(out@).skip(base.len() as int) + rest by {}
                }
            },
        }
        i = i + 1;
    }
    proof {
        assert(comments.skip(i as int) =~= Seq::<ReviewCommentView>::empty());
        assert(views_of(out@).skip(base.len() as int) + Seq::<EventView>::empty() =~= views_of(
            out@,
        ).skip(base.len() as int));
        assert(views_of(out@) =~= base + views_of(out@).skip(base.len() as int));
    }
    Ok(out)
}

/// The review's URL, where a review is present.
pub open spec fn review_url_view(review: Option<RawReview>) -> Option<Seq<char>> {
    match review {
        Some(rv) => opt_str_view(rv.url),
        None => None,
    }
}

/// The review's body, where a review is present.
pub open spec fn review_body_view(review: Option<RawReview>) -> Option<Seq<char>> {
    match review {
        Some(rv) => opt_str_view(rv.body),
        None => None,
    }
}

/// The review's pull request, where a review is present.
pub open spec fn review_pr_view(review: Option<RawReview>) -> Option<PullRequestRefView> {
    match review {
        Some(rv) => match rv.pull_request {
            Some(pr) => Some(pr@),
            None => None,
        },
        None => None,
    }
}

/// The review's comments, where a review is present.
pub open spec fn review_comments_view(review: Option<RawReview>) -> Seq<ReviewCommentView> {
    match review {
        Some(rv) => review_comment_views(rv.comments@),
        None => Seq::empty(),
    }
}

/// The mathematical reading of a whole search node.
pub ghost struct SearchNodeView {
    pub typename: Option<Seq<char>>,
    pub url: Option<Seq<char>>,
    pub title: Option<Seq<char>>,
    pub repository: Option<Seq<char>>,
    pub timeline: Seq<TimelineEntryView>,
}

impl View for RawSearchNode {
    type V = SearchNodeView;

    open spec fn view(&self) -> SearchNodeView {
        SearchNodeView {
            typename: opt_str_view(self.typename),
            url: opt_str_view(self.url),
            title: opt_str_view(self.title),
            repository: opt_str_view(self.repository),
            timeline: timeline_views(self.timeline@),
        }
    }
}

/// The events of one search node, through its view.
pub open spec fn spec_search_node_events_v(
    n: SearchNodeView,
    viewer: Seq<char>,
    from: Option<Date>,
    to: Option<Date>,
) -> Result<Seq<EventView>, Seq<char>> {
    spec_search_node_events(
        n.typename,
        n.url,
        n.title,
        n.repository,
        n.timeline,
        viewer,
        from,
        to,
    )
}

pub open spec fn search_node_views(nodes: Seq<RawSearchNode>) -> Seq<SearchNodeView> {
    nodes.map_values(|n: RawSearchNode| n@)
}

/// The events of a list of search nodes, concatenated in order; the first
/// shape error aborts the whole fetch.
pub open spec fn spec_search_nodes_events(
    nodes: Seq<SearchNodeView>,
    viewer: Seq<char>,
    from: Option<Date>,
    to: Option<Date>,
) -> Result<Seq<EventView>, Seq<char>>
    decreases nodes.len(),
{
    if nodes.len() == 0 {
        Ok(Seq::empty())
    } else {
        match spec_search_node_events_v(nodes[0], viewer, from, to) {
            Err(m) => Err(m),
            Ok(evs) => match spec_search_nodes_events(nodes.drop_first(), viewer, from, to) {
                Err(m) => Err(m),
                Ok(rest) => Ok(evs + rest),
            },
        }
    }
}

/// Extracts the events of every node a bounded search returned.
#[verifier::loop_isolation(false)]
pub fn search_nodes_events(
    nodes: &Vec<RawSearchNode>,
    viewer_login: &str,
    from: Option<Date>,
    to: Option<Date>,
) -> (r: Result<Vec<EventItem>, FetchError>)
    ensures
        spec_search_nodes_events(search_node_views(nodes@), viewer_login@, from, to) matches Ok(
            evs,
        ) ==> (r matches Ok(v) && views_of(v@) == evs && forall|k: int|
            0 <= k < v@.len() ==> (#[trigger] v@[k]).wf()),
        spec_search_nodes_events(search_node_views(nodes@), viewer_login@, from, to) matches Err(
            m,
        ) ==> (r matches Err(e) && e matches FetchError::Shape(mm) && mm@ == m),
{
    let ghost views = search_node_views(nodes@);
    let mut out: Vec<EventItem> = Vec::new();
    let mut i: usize = 0;
    proof {
        assert(views.skip(0) =~= views);
    }
    while i < nodes.len()
        invariant
            0 <= i <= nodes@.len(),
            spec_search_nodes_events(views, viewer_login@, from, to) == (
            match spec_search_nodes_events(views.skip(i as int), viewer_login@, from, to) {
                Err(m) => Err::<Seq<EventView>, Seq<char>>(m),
                Ok(rest) => Ok(views_of(out@) + rest),
            }),
            forall|k: int| 0 <= k < out@.len() ==> (#[trigger] out@[k]).wf(),
        decreases nodes@.len() - i,
    {
        proof {
            assert(views.skip(i as int)[0] == views[i as int]);
            assert(views[i as int] == nodes@[i as int]@);
            assert(views.skip(i as int).drop_first() =~= views.skip(i as int + 1));
        }
        match event_items_from_search_node(&nodes[i], viewer_login, from, to) {
            Err(e) => {
                proof {
                    let node_res = spec_search_node_events_v(views[i as int], viewer_login@, from, to);
                    assert(node_res is Err);
                    let m = node_res->Err_0;
                    assert(spec_search_nodes_events(views.skip(i as int), viewer_login@, from, to)
                        == Err::<Seq<EventView>, Seq<char>>(m));
                }
                return Err(e);
            },
            Ok(mut items) => {
                let ghost pre = views_of(out@);
                let ghost got = views_of(items@);
                out.append(&mut items);
                proof {
                    assert(views_of(out@) =~= pre + got);
                    assert forall|rest: Seq<EventView>|
                        true implies pre + (got + rest) =~= views_of(out@) + rest by {}
                }
            },
        }
        i = i + 1;
    }
    proof {
        assert(views.skip(i as int) =~= Seq::<SearchNodeView>::empty());
        assert(views_of(out@) + Seq::<EventView>::empty() =~= views_of(out@));
    }
    Ok(out)
}

/// A terminal pull-request event: closed or merged.
pub open spec fn is_pr_terminal(e: EventView) -> bool {
    e.kind == EventKind::PullRequestClosed || e.kind == EventKind::PullRequestMerged
}

/// A closed-issue event.
pub open spec fn is_issue_closed(e: EventView) -> bool {
    e.kind == EventKind::IssueClosed
}

#[verifier::loop_isolation(false)]
fn filter_pr_terminal(items: Vec<EventItem>) -> (r: Vec<EventItem>)
    ensures
        views_of(r@) == views_of(items@).filter(|e: EventView| is_pr_terminal(e)),
        forall|k: int|
            0 <= k < r@.len() ==> exists|i: int|
                0 <= i < items@.len() && #[trigger] r@[k]@ == items@[i]@ && r@[k].wf() == items@[
                    i
                ].wf(),
{
    let ghost pred = |e: EventView| is_pr_terminal(e);
    let mut out: Vec<EventItem> = Vec::new();
    let mut i: usize = 0;
    proof {
        reveal(Seq::filter);
        assert(views_of(items@.take(0)).filter(pred) =~= Seq::<EventView>::empty());
        assert(views_of(out@) =~= views_of(items@.take(0)).filter(pred));
    }
    while i < items.len()
        invariant
            0 <= i <= items@.len(),
            views_of(out@) == views_of(items@.take(i as int)).filter(pred),
            forall|k: int|
                0 <= k < out@.len() ==> exists|j: int|
                    0 <= j < items@.len() && #[trigger] out@[k]@ == items@[j]@ && out@[k].wf()
                        == items@[j].wf(),
        decreases items@.len() - i,
    {
        let item = &items[i];
        let keep = matches!(item.kind, EventKind::PullRequestClosed | EventKind::PullRequestMerged);
        proof {
            reveal(Seq::filter);
            assert(keep == pred(items@[i as int]@));
        }
        let ghost pre = out@;
        if keep {
            out.push(item.duplicate());
        }
        proof {
            reveal(Seq::filter);
            let taken = views_of(items@.take(i as int + 1));
            assert(taken.drop_last() =~= views_of(items@.take(i as int)));
            assert(taken.last() == items@[i as int]@);
            if keep {
                assert(views_of(out@) =~= views_of(pre).push(items@[i as int]@));
            }
            assert(views_of(out@) == views_of(items@.take(i as int + 1)).filter(pred));
        }
        i = i + 1;
    }
    proof {
        assert(items@.take(i as int) =~= items@);
    }
    out
}

#[verifier::loop_isolation(false)]
fn filter_issue_closed(items: Vec<EventItem>) -> (r: Vec<EventItem>)
    ensures
        views_of(r@) == views_of(items@).filter(|e: EventView| is_issue_closed(e)),
        forall|k: int|
            0 <= k < r@.len() ==> exists|i: int|
                0 <= i < items@.len() && #[trigger] r@[k]@ == items@[i]@ && r@[k].wf() == items@[
                    i
                ].wf(),
{
    let ghost pred = |e: EventView| is_issue_closed(e);
    let mut out: Vec<EventItem> = Vec::new();
    let mut i: usize = 0;
    proof {
        reveal(Seq::filter);
        assert(views_of(items@.take(0)).filter(pred) =~= Seq::<EventView>::empty());
        assert(views_of(out@) =~= views_of(items@.take(0)).filter(pred));
    }
    while i < items.len()
        invariant
            0 <= i <= items@.len(),
            views_of(out@) == views_of(items@.take(i as int)).filter(pred),
            forall|k: int|
                0 <= k < out@.len() ==> exists|j: int|
                    0 <= j < items@.len() && #[trigger] out@[k]@ == items@[j]@ && out@[k].wf()
                        == items@[j].wf(),
        decreases items@.len() - i,
    {
        let item = &items[i];
        let keep = matches!(item.kind, EventKind::IssueClosed);
        proof {
            reveal(Seq::filter);
            assert(keep == pred(items@[i as int]@));
        }
        let ghost pre = out@;
        if keep {
            out.push(item.duplicate());
        }
        proof {
            reveal(Seq::filter);
            let taken = views_of(items@.take(i as int + 1));
            assert(taken.drop_last() =~= views_of(items@.take(i as int)));
            assert(taken.last() == items@[i as int]@);
            if keep {
                assert(views_of(out@) =~= views_of(pre).push(items@[i as int]@));
            }
            assert(views_of(out@) == views_of(items@.take(i as int + 1)).filter(pred));
        }
        i = i + 1;
    }
    proof {
        assert(items@.take(i as int) =~= items@);
    }
    out
}

/// The closed and merged pull-request events of a search fetch: node events
/// restricted to terminal pull-request kinds, with superseded closed events
/// dropped. An empty requested range yields an empty result, never an error.
pub fn closed_pull_request_events(
    nodes: &Vec<RawSearchNode>,
    viewer_login: &str,
    from: Date,
    to: Date,
) -> (r: Result<Vec<EventItem>, FetchError>)
    ensures
        from.spec_days() > to.spec_days() ==> (r matches Ok(v) && v@.len() == 0),
        from.spec_days() <= to.spec_days() && spec_search_nodes_events(
            search_node_views(nodes@),
            viewer_login@,
            Some(from),
            Some(to),
        ) is Ok ==> (r matches Ok(v) && views_of(v@) == spec_reconciled(
            spec_search_nodes_events(
                search_node_views(nodes@),
                viewer_login@,
                Some(from),
                Some(to),
            )->Ok_0.filter(|e: EventView| is_pr_terminal(e)),
        ) && forall|k: int| 0 <= k < v@.len() ==> (#[trigger] v@[k]).wf()),
        from.spec_days() <= to.spec_days() && spec_search_nodes_events(
            search_node_views(nodes@),
            viewer_login@,
            Some(from),
            Some(to),
        ) is Err ==> (r matches Err(e) && e matches FetchError::Shape(mm) && mm@
            == spec_search_nodes_events(
            search_node_views(nodes@),
            viewer_login@,
            Some(from),
            Some(to),
        )->Err_0),
{
    if from.days() > to.days() {
        return Ok(Vec::new());
    }
    match search_nodes_events(nodes, viewer_login, Some(from), Some(to)) {
        Err(e) => Err(e),
        Ok(all) => {
            let ghost all_views = views_of(all@);
            let filtered = filter_pr_terminal(all);
            let ghost filtered_views = views_of(filtered@);
            let deduped = filter_out_closed_when_merged(filtered);
            proof {
                assert forall|k: int| 0 <= k < deduped@.len() implies (
                #[trigger] deduped@[k]).wf() by {
                    assert(deduped@[k]@ == deduped@[k]@);
                    let a = choose|a: int|
                        0 <= a < filtered_views.len() && deduped@[k]@ == filtered@[a]@ && deduped@[
                            k
                        ].wf() == filtered@[a].wf();
                    assert(filtered@[a]@ == filtered@[a]@);
                    let b = choose|b: int|
                        0 <= b < all_views.len() && filtered@[a]@ == all@[b]@ && filtered@[a].wf()
                            == all@[b].wf();
                    assert(all@[b].wf());
                }
            }
            Ok(deduped)
        },
    }
}

/// The closed-issue events of a search fetch. An empty requested range
/// yields an empty result, never an error.
pub fn closed_issue_events(
    nodes: &Vec<RawSearchNode>,
    viewer_login: &str,
    from: Date,
    to: Date,
) -> (r: Result<Vec<EventItem>, FetchError>)
    ensures
        from.spec_days() > to.spec_days() ==> (r matches Ok(v) && v@.len() == 0),
        from.spec_days() <= to.spec_days() && spec_search_nodes_events(
            search_node_views(nodes@),
            viewer_login@,
            Some(from),
            Some(to),
        ) is Ok ==> (r matches Ok(v) && views_of(v@) == spec_search_nodes_events(
            search_node_views(nodes@),
            viewer_login@,
            Some(from),
            Some(to),
        )->Ok_0.filter(|e: EventView| is_issue_closed(e)) && forall|k: int|
            0 <= k < v@.len() ==> (#[trigger] v@[k]).wf()),
        from.spec_days() <= to.spec_days() && spec_search_nodes_events(
            search_node_views(nodes@),
            viewer_login@,
            Some(from),
            Some(to),
        ) is Err ==> (r matches Err(e) && e matches FetchError::Shape(mm) && mm@
            == spec_search_nodes_events(
            search_node_views(nodes@),
            viewer_login@,
            Some(from),
            Some(to),
        )->Err_0),
{
    if from.days() > to.days() {
        return Ok(Vec::new());
    }
    match search_nodes_events(nodes, viewer_login, Some(from), Some(to)) {
        Err(e) => Err(e),
        Ok(all) => {
            let ghost all_views = views_of(all@);
            let filtered = filter_issue_closed(all);
            proof {
                assert forall|k: int| 0 <= k < filtered@.len() implies (
                #[trigger] filtered@[k]).wf() by {
                    assert(filtered@[k]@ == filtered@[k]@);
                    let b = choose|b: int|
                        0 <= b < all_views.len() && filtered@[k]@ == all@[b]@ && filtered@[k].wf()
                            == all@[b].wf();
                    assert(all@[b].wf());
                }
            }
            Ok(filtered)
        },
    }
}

/// One page of the issue-comments connection: events gathered in order
/// until a node's stop test fires; the flag says whether the walk ends here.
pub open spec fn spec_issue_comments_page(
    nodes: Seq<IssueCommentNodeView>,
    from: Date,
    to: Date,
) -> Result<(Seq<EventView>, bool), Seq<char>>
    decreases nodes.len(),
{
    if nodes.len() == 0 {
        Ok((Seq::empty(), false))
    } else {
        match spec_issue_comment_stop(nodes[0], from) {
            Err(m) => Err(m),
            Ok(stop) => if stop {
                Ok((Seq::empty(), true))
            } else {
                match spec_issue_comment_event(nodes[0], from, to) {
                    Err(m) => Err(m),
                    Ok(opt) => match spec_issue_comments_page(nodes.drop_first(), from, to) {
                        Err(m) => Err(m),
                        Ok(pair) => Ok(
                            (
                                match opt {
                                    Some(ev) => seq![ev] + pair.0,
                                    None => pair.0,
                                },
                                pair.1,
                            ),
                        ),
                    },
                }
            },
        }
    }
}

pub open spec fn issue_comment_views(nodes: Seq<RawIssueCommentNode>) -> Seq<
    IssueCommentNodeView,
> {
    nodes.map_values(|n: RawIssueCommentNode| n@)
}

/// Walks one page of issue-comment nodes: mapped events until the stop test
/// fires, and whether it did.
#[verifier::loop_isolation(false)]
pub fn issue_comments_page(nodes: &Vec<RawIssueCommentNode>, from: Date, to: Date) -> (r: Result<
    (Vec<EventItem>, bool),
    FetchError,
>)
    requires
        from.wf(),
        to.wf(),
    ensures
        spec_issue_comments_page(issue_comment_views(nodes@), from, to) is Ok ==> (r matches Ok(p)
            && views_of(p.0@) == spec_issue_comments_page(issue_comment_views(nodes@), from, to)->Ok_0.0
            && p.1 == spec_issue_comments_page(issue_comment_views(nodes@), from, to)->Ok_0.1
            && forall|k: int| 0 <= k < p.0@.len() ==> (#[trigger] p.0@[k]).wf()),
        spec_issue_comments_page(issue_comment_views(nodes@), from, to) is Err ==> (r matches Err(
            e,
        ) && e matches FetchError::Shape(mm) && mm@ == spec_issue_comments_page(
            issue_comment_views(nodes@),
            from,
            to,
        )->Err_0),
{
    let ghost views = issue_comment_views(nodes@);
    let mut out: Vec<EventItem> = Vec::new();
    let mut i: usize = 0;
    proof {
        assert(views.skip(0) =~= views);
    }
    while i < nodes.len()
        invariant
            0 <= i <= nodes@.len(),
            spec_issue_comments_page(views, from, to) == (match spec_issue_comments_page(
                views.skip(i as int),
                from,
                to,
            ) {
                Err(m) => Err::<(Seq<EventView>, bool), Seq<char>>(m),
                Ok(pair) => Ok((views_of(out@) + pair.0, pair.1)),
            }),
            forall|k: int| 0 <= k < out@.len() ==> (#[trigger] out@[k]).wf(),
        decreases nodes@.len() - i,
    {
        proof {
            assert(views.skip(i as int)[0] == views[i as int]);
            assert(views[i as int] == nodes@[i as int]@);
            assert(views.skip(i as int).drop_first() =~= views.skip(i as int + 1));
        }
        let node = &nodes[i];
        match issue_comment_stop(node, from) {
            Err(e) => {
                return Err(e);
            },
            Ok(true) => {
                proof {
                    assert(views_of(out@) + Seq::<EventView>::empty() =~= views_of(out@));
                }
                return Ok((out, true));
            },
            Ok(false) => {},
        }
        match issue_comment_event_from_node(node, from, to) {
            Err(e) => {
                return Err(e);
            },
            Ok(None) => {},
            Ok(Some(item)) => {
                let ghost pre = views_of(out@);
                out.push(item);
                proof {
                    assert(views_of(out@) =~= pre.push(item@));
                    assert forall|rest: Seq<EventView>|
                        true implies pre + (seq![item@] + rest) =~= views_of(out@) + rest by {}
                }
            },
        }
        i = i + 1;
    }
    proof {
        assert(views.skip(i as int) =~= Seq::<IssueCommentNodeView>::empty());
        assert(views_of(out@) + Seq::<EventView>::empty() =~= views_of(out@));
    }
    Ok((out, false))
}

/// One page of an opened-subjects connection, under the given event kind.
pub open spec fn spec_opened_subjects_page(
    nodes: Seq<SubjectNodeView>,
    kind: EventKind,
    from: Date,
    to: Date,
) -> Result<(Seq<EventView>, bool), Seq<char>>
    decreases nodes.len(),
{
    if nodes.len() == 0 {
        Ok((Seq::empty(), false))
    } else {
        match spec_opened_stop(nodes[0], from) {
            Err(m) => Err(m),
            Ok(stop) => if stop {
                Ok((Seq::empty(), true))
            } else {
                match spec_opened_event(nodes[0], kind, from, to) {
                    Err(m) => Err(m),
                    Ok(opt) => match spec_opened_subjects_page(
                        nodes.drop_first(),
                        kind,
                        from,
                        to,
                    ) {
                        Err(m) => Err(m),
                        Ok(pair) => Ok(
                            (
                                match opt {
                                    Some(ev) => seq![ev] + pair.0,
                                    None => pair.0,
                                },
                                pair.1,
                            ),
                        ),
                    },
                }
            },
        }
    }
}

pub open spec fn subject_views(nodes: Seq<RawSubjectNode>) -> Seq<SubjectNodeView> {
    nodes.map_values(|n: RawSubjectNode| n@)
}

/// Walks one page of opened-subject nodes (issues or pull requests): mapped
/// events until the stop test fires, and whether it did.
#[verifier::loop_isolation(false)]
pub fn opened_subjects_page(nodes: &Vec<RawSubjectNode>, kind: EventKind, from: Date, to: Date) -> (r:
    Result<(Vec<EventItem>, bool), FetchError>)
    requires
        from.wf(),
        to.wf(),
    ensures
        spec_opened_subjects_page(subject_views(nodes@), kind, from, to) is Ok ==> (r matches Ok(p)
            && views_of(p.0@) == spec_opened_subjects_page(subject_views(nodes@), kind, from, to)->Ok_0.0
            && p.1 == spec_opened_subjects_page(subject_views(nodes@), kind, from, to)->Ok_0.1
            && forall|k: int| 0 <= k < p.0@.len() ==> (#[trigger] p.0@[k]).wf()),
        spec_opened_subjects_page(subject_views(nodes@), kind, from, to) is Err ==> (r matches Err(
            e,
        ) && e matches FetchError::Shape(mm) && mm@ == spec_opened_subjects_page(
            subject_views(nodes@),
            kind,
            from,
            to,
        )->Err_0),
{
    let ghost views = subject_views(nodes@);
    let mut out: Vec<EventItem> = Vec::new();
    let mut i: usize = 0;
    proof {
        assert(views.skip(0) =~= views);
    }
    while i < nodes.len()
        invariant
            0 <= i <= nodes@.len(),
            spec_opened_subjects_page(views, kind, from, to) == (
            match spec_opened_subjects_page(views.skip(i as int), kind, from, to) {
                Err(m) => Err::<(Seq<EventView>, bool), Seq<char>>(m),
                Ok(pair) => Ok((views_of(out@) + pair.0, pair.1)),
            }),
            forall|k: int| 0 <= k < out@.len() ==> (#[trigger] out@[k]).wf(),
        decreases nodes@.len() - i,
    {
        proof {
            assert(views.skip(i as int)[0] == views[i as int]);
            assert(views[i as int] == nodes@[i as int]@);
            assert(views.skip(i as int).drop_first() =~= views.skip(i as int + 1));
        }
        let node = &nodes[i];
        match opened_stop(node, from) {
            Err(e) => {
                return Err(e);
            },
            Ok(true) => {
                proof {
                    assert(views_of(out@) + Seq::<EventView>::empty() =~= views_of(out@));
                }
                return Ok((out, true));
            },
            Ok(false) => {},
        }
        match opened_event_from_node(node, kind, from, to) {
            Err(e) => {
                return Err(e);
            },
            Ok(None) => {},
            Ok(Some(item)) => {
                let ghost pre = views_of(out@);
                out.push(item);
                proof {
                    assert(views_of(out@) =~= pre.push(item@));
                    assert forall|rest: Seq<EventView>|
                        true implies pre + (seq![item@] + rest) =~= views_of(out@) + rest by {}
                }
            },
        }
        i = i + 1;
    }
    proof {
        assert(views.skip(i as int) =~= Seq::<SubjectNodeView>::empty());
        assert(views_of(out@) + Seq::<EventView>::empty() =~= views_of(out@));
    }
    Ok((out, false))
}

/// The mathematical reading of one review-contribution node.
pub ghost struct ReviewContributionView {
    pub occurred_at: Option<Seq<char>>,
    pub has_review: bool,
    pub review_url: Option<Seq<char>>,
    pub review_body: Option<Seq<char>>,
    pub pull_request: Option<PullRequestRefView>,
    pub comments: Seq<ReviewCommentView>,
}

impl View for RawReviewContribution {
    type V = ReviewContributionView;

    open spec fn view(&self) -> ReviewContributionView {
        ReviewContributionView {
            occurred_at: opt_str_view(self.occurred_at),
            has_review: self.review is Some,
            review_url: review_url_view(self.review),
            review_body: review_body_view(self.review),
            pull_request: review_pr_view(self.review),
            comments: review_comments_view(self.review),
        }
    }
}

/// The events of one review contribution, through its view.
pub open spec fn spec_review_contribution_events_v(
    c: ReviewContributionView,
    from: Date,
    to: Date,
) -> Result<Seq<EventView>, Seq<char>> {
    spec_review_contribution_events(
        c.occurred_at,
        c.review_url,
        c.review_body,
        c.pull_request,
        c.comments,
        c.has_review,
        from,
        to,
    )
}

pub open spec fn review_contribution_views(nodes: Seq<RawReviewContribution>) -> Seq<
    ReviewContributionView,
> {
    nodes.map_values(|n: RawReviewContribution| n@)
}

/// One page of the review-contributions connection: every node's events in
/// order; there is no early stop here.
pub open spec fn spec_review_contributions_page(
    nodes: Seq<ReviewContributionView>,
    from: Date,
    to: Date,
) -> Result<Seq<EventView>, Seq<char>>
    decreases nodes.len(),
{
    if nodes.len() == 0 {
        Ok(Seq::empty())
    } else {
        match spec_review_contribution_events_v(nodes[0], from, to) {
            Err(m) => Err(m),
            Ok(evs) => match spec_review_contributions_page(nodes.drop_first(), from, to) {
                Err(m) => Err(m),
                Ok(rest) => Ok(evs + rest),
            },
        }
    }
}

/// Walks one page of review-contribution nodes.
#[verifier::loop_isolation(false)]
pub fn review_contributions_page(nodes: &Vec<RawReviewContribution>, from: Date, to: Date) -> (r:
    Result<Vec<EventItem>, FetchError>)
    requires
        from.wf(),
        to.wf(),
    ensures
        spec_review_contributions_page(review_contribution_views(nodes@), from, to) is Ok ==> (
        r matches Ok(v) && views_of(v@) == spec_review_contributions_page(
            review_contribution_views(nodes@),
            from,
            to,
        )->Ok_0 && forall|k: int| 0 <= k < v@.len() ==> (#[trigger] v@[k]).wf()),
        spec_review_contributions_page(review_contribution_views(nodes@), from, to) is Err ==> (
        r matches Err(e) && e matches FetchError::Shape(mm) && mm@
            == spec_review_contributions_page(review_contribution_views(nodes@), from, to)->Err_0),
{
    let ghost views = review_contribution_views(nodes@);
    let mut out: Vec<EventItem> = Vec::new();
    let mut i: usize = 0;
    proof {
        assert(views.skip(0) =~= views);
    }
    while i < nodes.len()
        invariant
            0 <= i <= nodes@.len(),
            spec_review_contributions_page(views, from, to) == (
            match spec_review_contributions_page(views.skip(i as int), from, to) {
                Err(m) => Err::<Seq<EventView>, Seq<char>>(m),
                Ok(rest) => Ok(views_of(out@) + rest),
            }),
            forall|k: int| 0 <= k < out@.len() ==> (#[trigger] out@[k]).wf(),
        decreases nodes@.len() - i,
    {
        proof {
            assert(views.skip(i as int)[0] == views[i as int]);
            assert(views[i as int] == nodes@[i as int]@);
            assert(views.skip(i as int).drop_first() =~= views.skip(i as int + 1));
        }
        match review_contribution_events(&nodes[i], from, to) {
            Err(e) => {
                return Err(e);
            },
            Ok(mut items) => {
                let ghost pre = views_of(out@);
                let ghost got = views_of(items@);
                out.append(&mut items);
                proof {
                    assert(views_of(out@) =~= pre + got);
                    assert forall|rest: Seq<EventView>|
                        true implies pre + (got + rest) =~= views_of(out@) + rest by {}
                }
            },
        }
        i = i + 1;
    }
    proof {
        assert(views.skip(i as int) =~= Seq::<ReviewContributionView>::empty());
        assert(views_of(out@) + Seq::<EventView>::empty() =~= views_of(out@));
    }
    Ok(out)
}

} // verus!
