//! Deterministic, stably-ordered text report for one host.
//!
//! Events are sorted by `(repository, subject_url, created_at)`, grouped into
//! a repository heading, a subject heading, and one line per event, with
//! truncated body previews under lines that carry text.

use vstd::multiset::Multiset;
use vstd::prelude::*;

use crate::dates::spec_date_of;
use crate::events::EventItem;
use crate::events::EventView;
use crate::events::preview_line_limit;
use crate::events::should_include_event_url;
use crate::events::spec_action_label;
use crate::events::spec_preview_line_limit;
use crate::events::spec_should_include_event_url;
use crate::events::views_of;
use crate::text::spec_date_str;
use crate::text::join_blank;
use crate::text::join_nl;
use crate::text::lemma_join_blank_push;
use crate::text::lex_lt;
use crate::text::opt_str_view;
use crate::text::trim_nl_back;
use crate::text::trim_trailing_newlines;
use crate::text::spec_trim;
use crate::text::split_lines;
use crate::text::split_newlines;
use crate::text::str_eq;
use crate::text::str_lt;
use crate::text::trim_str;

verus! {

/// The report's sort key: repository, then subject permalink, then time.
pub open spec fn key_le(a: EventView, b: EventView) -> bool {
    if a.repository != b.repository {
        lex_lt(a.repository, b.repository)
    } else if a.subject_url != b.subject_url {
        lex_lt(a.subject_url, b.subject_url)
    } else {
        a.created_at <= b.created_at
    }
}

fn key_le_exec(a: &EventItem, b: &EventItem) -> (r: bool)
    ensures
        r == key_le(a@, b@),
{
    if !str_eq(a.repository.as_str(), b.repository.as_str()) {
        str_lt(a.repository.as_str(), b.repository.as_str())
    } else if !str_eq(a.subject_url.as_str(), b.subject_url.as_str()) {
        str_lt(a.subject_url.as_str(), b.subject_url.as_str())
    } else {
        a.created_at.secs() <= b.created_at.secs()
    }
}

/// Stable insertion of `e` into an already sorted sequence: it lands after
/// every element whose key is less than or equal to its own.
pub open spec fn insert_sorted(s: Seq<EventView>, e: EventView) -> Seq<EventView>
    decreases s.len(),
{
    if s.len() == 0 {
        seq![e]
    } else if key_le(s.last(), e) {
        s.push(e)
    } else {
        insert_sorted(s.drop_last(), e).push(s.last())
    }
}

/// The stable sort of the events under `key_le`: insertion order breaks ties.
pub open spec fn sort_events(s: Seq<EventView>) -> Seq<EventView>
    decreases s.len(),
{
    if s.len() == 0 {
        Seq::empty()
    } else {
        insert_sorted(sort_events(s.drop_last()), s.last())
    }
}

/// A preview line may keep at most this many code points before it is
/// hard-truncated.
pub const COMMENT_PREVIEW_MAX_LEN: usize = 80;

/// The first `k` lines that stay nonempty after trimming, already trimmed.
pub open spec fn first_nonempty_lines(lines: Seq<Seq<char>>, k: int) -> Seq<Seq<char>>
    decreases lines.len(),
{
    if lines.len() == 0 || k <= 0 {
        Seq::empty()
    } else {
        let t = spec_trim(lines[0]);
        if t.len() == 0 {
            first_nonempty_lines(lines.drop_first(), k)
        } else {
            seq![t] + first_nonempty_lines(lines.drop_first(), k - 1)
        }
    }
}

/// A preview line after truncation: over 80 code points it is cut to 80 and
/// suffixed with `...`; otherwise a final kept line of a longer body gets a
/// trailing ` ...`.
pub open spec fn spec_clip_line(line: Seq<char>, mark_more: bool) -> Seq<char> {
    if line.len() > 80 {
        line.take(80) + "..."@
    } else if mark_more {
        line + " ..."@
    } else {
        line
    }
}

/// The prefixed preview lines of the kept body lines.
pub open spec fn spec_preview_block(kept: Seq<Seq<char>>, has_more: bool, prefix: Seq<char>) -> Seq<
    Seq<char>,
> {
    Seq::new(kept.len(), |i: int| prefix + spec_clip_line(kept[i], has_more && i == kept.len() - 1))
}

/// The preview under an event line: up to `max_lines` trimmed nonempty body
/// lines, each prefixed, joined with newlines; `None` when nothing remains.
pub open spec fn spec_body_preview(body: Seq<char>, max_lines: int, prefix: Seq<char>) -> Option<
    Seq<char>,
> {
    if max_lines <= 0 {
        None
    } else {
        let lines = first_nonempty_lines(split_newlines(body), max_lines + 1);
        if lines.len() == 0 {
            None
        } else {
            let has_more = lines.len() > max_lines;
            let kept = if has_more {
                lines.take(max_lines)
            } else {
                lines
            };
            Some(join_nl(spec_preview_block(kept, has_more, prefix)))
        }
    }
}

proof fn lemma_join_push(ls: Seq<Seq<char>>, x: Seq<char>)
    ensures
        join_nl(ls.push(x)) == if ls.len() == 0 {
            x
        } else {
            join_nl(ls) + seq!['\n'] + x
        },
    decreases ls.len(),
{
    if ls.len() == 0 {
        assert(ls.push(x)[0] == x);
        assert(join_nl(ls.push(x)) == x);
    } else {
        lemma_join_push(ls.drop_first(), x);
        assert(ls.push(x).drop_first() =~= ls.drop_first().push(x));
        assert(ls.push(x)[0] == ls[0]);
        if ls.len() == 1 {
            assert(join_nl(ls) == ls[0]);
        }
    }
}

/// Builds the preview of a body: trimmed nonempty lines up to the label's
/// limit, each prefixed and truncated, with an ellipsis when lines were
/// dropped.
pub fn body_preview(body: &str, max_lines: usize, line_prefix: &str) -> (r: Option<String>)
    requires
        max_lines <= 1000,
    ensures
        r matches Some(s) ==> spec_body_preview(body@, max_lines as int, line_prefix@) == Some(s@),
        r is None ==> spec_body_preview(body@, max_lines as int, line_prefix@) is None,
{
    if max_lines == 0 {
        return None;
    }
    let raw = split_lines(body);
    let ghost all = raw.deep_view();
    let mut lines: Vec<String> = Vec::new();
    let mut idx: usize = 0;
    proof {
        assert(all.skip(0) =~= all);
        assert(lines.deep_view() =~= Seq::<Seq<char>>::empty());
    }
    while idx < raw.len() && lines.len() < max_lines + 1
        invariant
            0 <= idx <= raw.len(),
            all == raw.deep_view(),
            1 <= max_lines <= 1000,
            lines.len() <= max_lines + 1,
            first_nonempty_lines(all, max_lines + 1) == lines.deep_view() + first_nonempty_lines(
                all.skip(idx as int),
                max_lines + 1 - lines.len(),
            ),
        decreases raw.len() - idx,
    {
        let ghost pre = lines.deep_view();
        let t = trim_str(raw[idx].as_str());
        proof {
            assert(all.skip(idx as int)[0] == all[idx as int]);
            assert(all[idx as int] == raw@[idx as int]@);
            assert(all.skip(idx as int).drop_first() =~= all.skip(idx as int + 1));
        }
        if t.unicode_len() > 0 {
            lines.push(String::from_str(t));
            proof {
                assert(lines.deep_view() =~= pre.push(t@));
                assert(pre + (seq![t@] + first_nonempty_lines(
                    all.skip(idx as int + 1),
                    max_lines + 1 - lines.len(),
                )) =~= lines.deep_view() + first_nonempty_lines(
                    all.skip(idx as int + 1),
                    max_lines + 1 - lines.len(),
                ));
            }
        }
        idx = idx + 1;
    }
    proof {
        if idx >= raw.len() {
            assert(all.skip(idx as int) =~= Seq::<Seq<char>>::empty());
        }
        assert(first_nonempty_lines(all.skip(idx as int), max_lines + 1 - lines.len())
            =~= Seq::<Seq<char>>::empty());
        assert(lines.deep_view() + Seq::<Seq<char>>::empty() =~= lines.deep_view());
        assert(first_nonempty_lines(all, max_lines + 1) == lines.deep_view());
    }
    if lines.len() == 0 {
        return None;
    }
    let ghost found = lines.deep_view();
    let has_more = lines.len() > max_lines;
    if has_more {
        lines.truncate(max_lines);
        proof {
            assert(lines.deep_view() =~= found.take(max_lines as int));
        }
    }
    let ghost kept = lines.deep_view();
    let ghost block = spec_preview_block(kept, has_more, line_prefix@);
    let kept_len = lines.len();
    let mut out = String::new();
    let mut i: usize = 0;
    proof {
        assert(block.take(0) =~= Seq::<Seq<char>>::empty());
        assert(out@ =~= join_nl(block.take(0)));
    }
    while i < kept_len
        invariant
            0 <= i <= kept_len,
            kept_len == lines.len(),
            kept == lines.deep_view(),
            block == spec_preview_block(kept, has_more, line_prefix@),
            out@ == join_nl(block.take(i as int)),
        decreases kept_len - i,
    {
        proof {
            lemma_join_push(block.take(i as int), block[i as int]);
            assert(block.take(i as int).push(block[i as int]) =~= block.take(i as int + 1));
        }
        if i > 0 {
            proof {
                reveal_strlit("\n");
            }
            out.append("\n");
        }
        out.append(line_prefix);
        let line = &lines[i];
        let llen = line.as_str().unicode_len();
        if llen > COMMENT_PREVIEW_MAX_LEN {
            let clipped = line.as_str().substring_char(0, COMMENT_PREVIEW_MAX_LEN);
            out.append(clipped);
            out.append("...");
            proof {
                assert(clipped@ =~= kept[i as int].take(80));
            }
        } else {
            out.append(line.as_str());
            if has_more && i + 1 == kept_len {
                out.append(" ...");
            }
        }
        proof {
            assert(out@ =~= join_nl(block.take(i as int + 1)));
        }
        i = i + 1;
    }
    proof {
        assert(block.take(kept_len as int) =~= block);
    }
    Some(out)
}

proof fn lemma_insert_sorted_at(s: Seq<EventView>, e: EventView, j: int)
    requires
        0 <= j <= s.len(),
        forall|k: int| j <= k < s.len() ==> !key_le(#[trigger] s[k], e),
        j > 0 ==> key_le(s[j - 1], e),
    ensures
        insert_sorted(s, e) == s.insert(j, e),
    decreases s.len(),
{
    if j == s.len() {
        if s.len() == 0 {
            assert(insert_sorted(s, e) =~= s.insert(j, e));
        } else {
            assert(key_le(s.last(), e));
            assert(insert_sorted(s, e) =~= s.insert(j, e));
        }
    } else {
        assert(!key_le(s[s.len() - 1], e));
        lemma_insert_sorted_at(s.drop_last(), e, j);
        assert(insert_sorted(s.drop_last(), e).push(s.last()) =~= s.insert(j, e));
    }
}

/// Sorts the items by `(repository, subject_url, created_at)`, stably.
pub fn sort_items(items: &Vec<EventItem>) -> (r: Vec<EventItem>)
    ensures
        views_of(r@) == sort_events(views_of(items@)),
        forall|k: int|
            0 <= k < r@.len() ==> exists|i: int|
                0 <= i < items@.len() && #[trigger] r@[k]@ == items@[i]@ && r@[k].wf()
                    == items@[i].wf(),
{
    let mut out: Vec<EventItem> = Vec::new();
    let mut n: usize = 0;
    proof {
        assert(views_of(items@.take(0)) =~= Seq::<EventView>::empty());
        assert(views_of(out@) =~= sort_events(views_of(items@.take(0))));
    }
    while n < items.len()
        invariant
            0 <= n <= items@.len(),
            views_of(out@) == sort_events(views_of(items@.take(n as int))),
            forall|k: int|
                0 <= k < out@.len() ==> exists|i: int|
                    0 <= i < items@.len() && #[trigger] out@[k]@ == items@[i]@ && out@[k].wf()
                        == items@[i].wf(),
        decreases items@.len() - n,
    {
        let item = &items[n];
        let mut j: usize = out.len();
        while j > 0 && !key_le_exec(&out[j - 1], item)
            invariant
                0 <= j <= out@.len(),
                forall|k: int| j <= k < out@.len() ==> !key_le(#[trigger] out@[k]@, item@),
            decreases j,
        {
            j = j - 1;
        }
        proof {
            lemma_insert_sorted_at(views_of(out@), item@, j as int);
        }
        let ghost old_out = out@;
        out.insert(j, item.duplicate());
        proof {
            assert(views_of(out@) =~= views_of(old_out).insert(j as int, item@));
            let taken = items@.take(n as int + 1);
            assert(taken.drop_last() =~= items@.take(n as int));
            assert(taken.last() == items@[n as int]);
            assert(views_of(taken).drop_last() =~= views_of(taken.drop_last()));
            assert(views_of(taken).last() == items@[n as int]@);
            assert(sort_events(views_of(taken)) == insert_sorted(
                sort_events(views_of(taken.drop_last())),
                items@[n as int]@,
            ));
            assert(views_of(out@) == sort_events(views_of(items@.take(n as int + 1))));
            assert(forall|k: int|
                0 <= k < out@.len() ==> exists|i: int|
                    0 <= i < items@.len() && #[trigger] out@[k]@ == items@[i]@ && out@[k].wf()
                        == items@[i].wf()) by {
                assert forall|k: int| 0 <= k < out@.len() implies exists|i: int|
                    0 <= i < items@.len() && #[trigger] out@[k]@ == items@[i]@ && out@[k].wf()
                        == items@[i].wf() by {
                    if k == j {
                        assert(out@[k]@ == items@[n as int]@ && out@[k].wf() == items@[
                            n as int
                        ].wf());
                    } else if k < j {
                        assert(out@[k] == old_out[k]);
                    } else {
                        assert(out@[k] == old_out[k - 1]);
                    }
                }
            }
        }
        n = n + 1;
    }
    proof {
        assert(items@.take(n as int) =~= items@);
    }
    out
}

/// One event's own line: its UTC calendar date and action label, and, only
/// for labels that keep a permalink, its URL.
pub open spec fn spec_event_line(e: EventView, compact: bool) -> Seq<char> {
    let label = spec_action_label(e.kind);
    let date = spec_date_str(spec_date_of(e.created_at));
    let bullet = if compact {
        "  - "@
    } else {
        "- "@
    };
    if spec_should_include_event_url(label) {
        bullet + date + " "@ + label + " "@ + e.url + "\n"@
    } else {
        bullet + date + " "@ + label + "\n"@
    }
}

/// Whether a string ends in a blank line (two newlines).
pub open spec fn spec_ends_two_nl(s: Seq<char>) -> bool {
    s.len() >= 2 && s[s.len() - 1] == '\n' && s[s.len() - 2] == '\n'
}

fn ends_two_nl(s: &String) -> (r: bool)
    ensures
        r == spec_ends_two_nl(s@),
{
    let len = s.as_str().unicode_len();
    if len < 2 {
        false
    } else {
        s.as_str().get_char(len - 1) as u32 == '\n' as u32 && s.as_str().get_char(len - 2) as u32
            == '\n' as u32
    }
}

/// The renderer's running state: output so far and the open headings.
pub ghost struct RenderState {
    pub out: Seq<char>,
    pub repo: Option<Seq<char>>,
    pub subj: Option<Seq<char>>,
}

/// One event appended to the report: headings are opened when the
/// repository or subject changes, then the event line, then any preview.
pub open spec fn render_item(st: RenderState, e: EventView, compact: bool) -> RenderState {
    let repo_changed = st.repo != Some(e.repository);
    let out1 = if repo_changed {
        let o = if !spec_ends_two_nl(st.out) {
            st.out + seq!['\n']
        } else {
            st.out
        };
        o + "## "@ + e.repository + "\n\n"@
    } else {
        st.out
    };
    let subj1 = if repo_changed {
        None
    } else {
        st.subj
    };
    let subj_changed = subj1 != Some(e.subject_url);
    let out2 = if subj_changed {
        let o = if !compact && !spec_ends_two_nl(out1) {
            out1 + seq!['\n']
        } else {
            out1
        };
        if compact {
            o + "- "@ + e.subject_title + " "@ + e.subject_url + "\n"@
        } else {
            o + "### "@ + e.subject_title + " "@ + e.subject_url + "\n\n"@
        }
    } else {
        out1
    };
    let label = spec_action_label(e.kind);
    let line = spec_event_line(e, compact);
    let out3 = out2 + line;
    let prefix = if compact {
        "    > "@
    } else {
        "  > "@
    };
    let out4 = match e.body {
        Some(b) => match spec_body_preview(b, spec_preview_line_limit(label), prefix) {
            Some(p) => out3 + p + seq!['\n'],
            None => out3,
        },
        None => out3,
    };
    RenderState { out: out4, repo: Some(e.repository), subj: Some(e.subject_url) }
}

/// The report text after rendering each event in order.
pub open spec fn render_seq(st: RenderState, evs: Seq<EventView>, compact: bool) -> Seq<char>
    decreases evs.len(),
{
    if evs.len() == 0 {
        st.out
    } else {
        render_seq(render_item(st, evs[0], compact), evs.drop_first(), compact)
    }
}

/// The whole report for one host: heading, then either the no-activity
/// placeholder or the sorted, grouped events.
pub open spec fn spec_format_markdown(host: Seq<char>, items: Seq<EventView>, compact: bool) -> Seq<
    char,
> {
    let head = "# "@ + host + "\n\n"@;
    if items.len() == 0 {
        head + "_No activity found._\n"@
    } else {
        render_seq(
            RenderState { out: head, repo: None, subj: None },
            sort_events(items),
            compact,
        )
    }
}

/// Renders the report for one host. Verbose and compact mode share all
/// sorting, grouping and truncation rules and differ only in list tokens.
#[verifier::rlimit(100)]
pub fn format_markdown(host: &str, items: &Vec<EventItem>, compact: bool) -> (r: String)
    requires
        forall|i: int| 0 <= i < items@.len() ==> #[trigger] items@[i].wf(),
    ensures
        r@ == spec_format_markdown(host@, views_of(items@), compact),
{
    let mut out = String::new();
    proof {
        reveal_strlit("# ");
        reveal_strlit("\n\n");
        reveal_strlit("\n");
    }
    out.append("# ");
    out.append(host);
    out.append("\n\n");
    if items.len() == 0 {
        proof {
            assert(views_of(items@) =~= Seq::<EventView>::empty());
        }
        out.append("_No activity found._\n");
        return out;
    }
    let sorted = sort_items(items);
    let ghost views = sort_events(views_of(items@));
    proof {
        assert(views_of(items@).len() == items@.len());
    }
    let ghost st0 = RenderState { out: out@, repo: None, subj: None };
    let mut cur_repo: Option<String> = None;
    let mut cur_subj: Option<String> = None;
    let mut n: usize = 0;
    proof {
        assert(views.skip(0) =~= views);
        assert forall|k: int| 0 <= k < sorted@.len() implies #[trigger] sorted@[k].wf() by {
            assert(sorted@[k]@ == sorted@[k]@);
            let i = choose|i: int|
                0 <= i < items@.len() && sorted@[k]@ == items@[i]@ && sorted@[k].wf() == items@[
                    i
                ].wf();
            assert(items@[i].wf());
        }
    }
    while n < sorted.len()
        invariant
            0 <= n <= sorted.len(),
            views_of(sorted@) == views,
            sorted@.len() == views.len(),
            forall|k: int| 0 <= k < sorted@.len() ==> #[trigger] sorted@[k].wf(),
            render_seq(
                RenderState {
                    out: out@,
                    repo: opt_str_view(cur_repo),
                    subj: opt_str_view(cur_subj),
                },
                views.skip(n as int),
                compact,
            ) == render_seq(st0, views, compact),
        decreases sorted.len() - n,
    {
        let ghost st_cur = RenderState {
            out: out@,
            repo: opt_str_view(cur_repo),
            subj: opt_str_view(cur_subj),
        };
        let item = &sorted[n];
        let ghost e = item@;
        proof {
            reveal_strlit("\n");
            reveal_strlit("\n\n");
            reveal_strlit("## ");
            reveal_strlit("### ");
            reveal_strlit("- ");
            reveal_strlit("  - ");
            reveal_strlit(" ");
            assert(sorted@[n as int].wf());
            assert(views.skip(n as int)[0] == views[n as int]);
            assert(views[n as int] == views_of(sorted@)[n as int]);
            assert(views.skip(n as int).drop_first() =~= views.skip(n as int + 1));
        }
        let ghost st_next = render_item(st_cur, e, compact);
        let repo_changed = match &cur_repo {
            None => true,
            Some(r) => !str_eq(r.as_str(), item.repository.as_str()),
        };
        proof {
            assert(repo_changed == (st_cur.repo != Some(e.repository)));
        }
        let ghost o1 = if repo_changed {
            (if !spec_ends_two_nl(st_cur.out) {
                st_cur.out + seq!['\n']
            } else {
                st_cur.out
            }) + "## "@ + e.repository + "\n\n"@
        } else {
            st_cur.out
        };
        let ghost s1: Option<Seq<char>> = if repo_changed {
            None
        } else {
            st_cur.subj
        };
        if repo_changed {
            if !ends_two_nl(&out) {
                out.append("\n");
            }
            proof {
                reveal_strlit("## ");
                assert(out@ =~= (if !spec_ends_two_nl(st_cur.out) {
                    st_cur.out + seq!['\n']
                } else {
                    st_cur.out
                }));
            }
            let ghost base = out@;
            out.append("## ");
            proof {
                assert(out@ =~= base + "## "@);
            }
            out.append(item.repository.as_str());
            proof {
                assert(out@ =~= base + "## "@ + e.repository);
            }
            out.append("\n\n");
            proof {
                assert(out@ =~= base + "## "@ + e.repository + "\n\n"@);
            }
            cur_repo = Some(item.repository.clone());
            cur_subj = None;
        }
        proof {
            assert(out@ =~= o1);
            assert(opt_str_view(cur_subj) == s1);
        }
        let subj_changed = match &cur_subj {
            None => true,
            Some(s) => !str_eq(s.as_str(), item.subject_url.as_str()),
        };
        proof {
            assert(subj_changed == (s1 != Some(e.subject_url)));
        }
        let ghost o2 = if subj_changed {
            let o = if !compact && !spec_ends_two_nl(o1) {
                o1 + seq!['\n']
            } else {
                o1
            };
            if compact {
                o + "- "@ + e.subject_title + " "@ + e.subject_url + "\n"@
            } else {
                o + "### "@ + e.subject_title + " "@ + e.subject_url + "\n\n"@
            }
        } else {
            o1
        };
        if subj_changed {
            if !compact && !ends_two_nl(&out) {
                out.append("\n");
            }
            if compact {
                proof {
                    reveal_strlit("- ");
                    reveal_strlit(" ");
                }
                out.append("- ");
                out.append(item.subject_title.as_str());
                out.append(" ");
                out.append(item.subject_url.as_str());
                out.append("\n");
            } else {
                proof {
                    reveal_strlit("### ");
                    reveal_strlit(" ");
                }
                out.append("### ");
                out.append(item.subject_title.as_str());
                out.append(" ");
                out.append(item.subject_url.as_str());
                out.append("\n\n");
            }
            cur_subj = Some(item.subject_url.clone());
        }
        proof {
            assert(out@ =~= o2);
        }
        let ghost spec_label = spec_action_label(e.kind);
        let ghost line = if spec_should_include_event_url(spec_label) {
            (if compact {
                "  - "@
            } else {
                "- "@
            }) + spec_date_str(spec_date_of(e.created_at)) + " "@ + spec_label + " "@ + e.url
                + "\n"@
        } else {
            (if compact {
                "  - "@
            } else {
                "- "@
            }) + spec_date_str(spec_date_of(e.created_at)) + " "@ + spec_label + "\n"@
        };
        let label = item.kind.action_label();
        let date_s = item.created_at.date().format_iso();
        if compact {
            proof {
                reveal_strlit("  - ");
            }
            out.append("  - ");
        } else {
            proof {
                reveal_strlit("- ");
            }
            out.append("- ");
        }
        out.append(date_s.as_str());
        proof {
            reveal_strlit(" ");
        }
        out.append(" ");
        out.append(label);
        if should_include_event_url(label) {
            out.append(" ");
            out.append(item.url.as_str());
        }
        out.append("\n");
        proof {
            assert(out@ =~= o2 + line);
        }
        let ghost o3 = o2 + line;
        if let Some(b) = &item.body {
            let limit = preview_line_limit(label);
            let prefix = if compact {
                "    > "
            } else {
                "  > "
            };
            match body_preview(b.as_str(), limit, prefix) {
                Some(p) => {
                    out.append(p.as_str());
                    out.append("\n");
                    proof {
                        assert(out@ =~= o3 + p@ + seq!['\n']);
                    }
                },
                None => {},
            }
        }
        proof {
            assert(out@ =~= st_next.out);
            assert(opt_str_view(cur_repo) == st_next.repo);
            assert(opt_str_view(cur_subj) == st_next.subj);
        }
        n = n + 1;
    }
    proof {
        assert(views.skip(n as int) =~= Seq::<EventView>::empty());
    }
    out
}

/// The mathematical reading of per-host results: host name and event views.
pub open spec fn host_results_view(results: Seq<(String, Vec<EventItem>)>) -> Seq<
    (Seq<char>, Seq<EventView>),
> {
    results.map_values(|p: (String, Vec<EventItem>)| (p.0@, views_of(p.1@)))
}

/// The whole run's output: one report per host in the order given, each
/// stripped of trailing newlines, joined by a single blank line.
pub open spec fn spec_format_host_outputs(
    results: Seq<(Seq<char>, Seq<EventView>)>,
    compact: bool,
) -> Seq<char> {
    join_blank(
        results.map_values(
            |p: (Seq<char>, Seq<EventView>)| trim_nl_back(spec_format_markdown(p.0, p.1, compact)),
        ),
    )
}

/// Concatenates the per-host reports, preserving the callers' host order.
pub fn format_host_outputs(results: &Vec<(String, Vec<EventItem>)>, compact: bool) -> (r: String)
    requires
        forall|i: int, j: int|
            0 <= i < results@.len() && 0 <= j < results@[i].1@.len() ==> (#[trigger] results@[
                i
            ].1@[j]).wf(),
    ensures
        r@ == spec_format_host_outputs(host_results_view(results@), compact),
{
    let ghost sections = host_results_view(results@).map_values(
        |p: (Seq<char>, Seq<EventView>)| trim_nl_back(spec_format_markdown(p.0, p.1, compact)),
    );
    let mut out = String::new();
    let mut i: usize = 0;
    proof {
        assert(sections.take(0) =~= Seq::<Seq<char>>::empty());
        assert(out@ =~= join_blank(sections.take(0)));
    }
    while i < results.len()
        invariant
            0 <= i <= results@.len(),
            sections == host_results_view(results@).map_values(
                |p: (Seq<char>, Seq<EventView>)| trim_nl_back(
                    spec_format_markdown(p.0, p.1, compact),
                ),
            ),
            sections.len() == results@.len(),
            forall|a: int, j: int|
                0 <= a < results@.len() && 0 <= j < results@[a].1@.len() ==> (#[trigger] results@[
                    a
                ].1@[j]).wf(),
            out@ == join_blank(sections.take(i as int)),
        decreases results@.len() - i,
    {
        let p = &results[i];
        let section = format_markdown(p.0.as_str(), &p.1, compact);
        let trimmed = trim_trailing_newlines(section.as_str());
        proof {
            lemma_join_blank_push(sections.take(i as int), sections[i as int]);
            assert(sections.take(i as int).push(sections[i as int]) =~= sections.take(i as int + 1));
            reveal_strlit("\n\n");
            assert(trimmed@ == sections[i as int]);
        }
        if i > 0 {
            out.append("\n\n");
        }
        out.append(trimmed);
        proof {
            assert(out@ =~= join_blank(sections.take(i as int + 1)));
        }
        i = i + 1;
    }
    proof {
        assert(sections.take(i as int) =~= sections);
    }
    out
}

/// Accepts a host name after trimming surrounding whitespace; an empty
/// result is rejected with a message.
pub fn parse_hostname(input: &str) -> (r: Result<String, String>)
    ensures
        spec_trim(input@).len() == 0 ==> (r matches Err(e) && e@ == "hostname must not be empty"@),
        spec_trim(input@).len() > 0 ==> (r matches Ok(h) && h@ == spec_trim(input@)),
{
    let host = trim_str(input);
    if host.unicode_len() == 0 {
        Err(String::from_str("hostname must not be empty"))
    } else {
        Ok(String::from_str(host))
    }
}

/// The report's events appear in non-decreasing sort-key order.
pub open spec fn sorted_by_key(s: Seq<EventView>) -> bool {
    forall|i: int, j: int| 0 <= i <= j < s.len() ==> key_le(#[trigger] s[i], #[trigger] s[j])
}

/// Distinct characters have distinct code points.
proof fn lemma_char_injective(c: char, d: char)
    requires
        c != d,
    ensures
        (c as u32) != (d as u32),
{
}

proof fn lemma_lex_total(a: Seq<char>, b: Seq<char>)
    ensures
        a == b || lex_lt(a, b) || lex_lt(b, a),
    decreases a.len(),
{
    if b.len() == 0 && a.len() == 0 {
        assert(a =~= b);
    } else if a.len() > 0 && b.len() > 0 {
        if a[0] == b[0] {
            lemma_lex_total(a.drop_first(), b.drop_first());
            if a.drop_first() == b.drop_first() {
                assert(a.len() == b.len());
                assert forall|i: int| 0 <= i < a.len() implies a[i] == b[i] by {
                    if i > 0 {
                        assert(a.drop_first()[i - 1] == b.drop_first()[i - 1]);
                    }
                }
                assert(a =~= b);
            } else if lex_lt(a.drop_first(), b.drop_first()) {
                assert(lex_lt(a, b));
            } else {
                assert(lex_lt(b, a));
            }
        } else {
            lemma_char_injective(a[0], b[0]);
        }
    }
}

/// Any two events are ordered one way or the other by the sort key.
pub proof fn lemma_key_le_total(a: EventView, b: EventView)
    ensures
        key_le(a, b) || key_le(b, a),
{
    lemma_lex_total(a.repository, b.repository);
    lemma_lex_total(a.subject_url, b.subject_url);
}

proof fn lemma_insert_sorted_multiset(s: Seq<EventView>, e: EventView)
    ensures
        insert_sorted(s, e).to_multiset() =~= s.to_multiset().insert(e),
    decreases s.len(),
{
    broadcast use vstd::seq_lib::group_to_multiset_ensures;

    if s.len() == 0 {
        assert(seq![e] =~= Seq::<EventView>::empty().push(e));
        assert(Seq::<EventView>::empty().push(e).to_multiset() =~= Seq::<
            EventView,
        >::empty().to_multiset().insert(e));
        assert(Seq::<EventView>::empty().to_multiset() =~= Multiset::<EventView>::empty());
    } else if key_le(s.last(), e) {
        assert(s.push(e).to_multiset() =~= s.to_multiset().insert(e));
    } else {
        let t = s.drop_last();
        lemma_insert_sorted_multiset(t, e);
        assert(insert_sorted(t, e).push(s.last()).to_multiset() =~= insert_sorted(
            t,
            e,
        ).to_multiset().insert(s.last()));
        assert(t.push(s.last()) =~= s);
        assert(t.push(s.last()).to_multiset() =~= t.to_multiset().insert(s.last()));
        assert(t.to_multiset().insert(e).insert(s.last()) =~= t.to_multiset().insert(
            s.last(),
        ).insert(e));
    }
}

proof fn lemma_insert_sorted_sorted(s: Seq<EventView>, e: EventView)
    requires
        sorted_by_key(s),
    ensures
        sorted_by_key(insert_sorted(s, e)),
    decreases s.len(),
{
    broadcast use vstd::seq_lib::group_to_multiset_ensures;

    if s.len() == 0 {
    } else if key_le(s.last(), e) {
        let out = s.push(e);
        assert forall|i: int, j: int| 0 <= i <= j < out.len() implies key_le(
            #[trigger] out[i],
            #[trigger] out[j],
        ) by {
            if j < out.len() - 1 {
                assert(key_le(s[i], s[j]));
            } else if i < out.len() - 1 {
                assert(key_le(s[i], s[s.len() - 1]));
                lemma_key_le_trans(s[i], s[s.len() - 1], e);
            }
        }
    } else {
        let t = s.drop_last();
        let l = s.last();
        assert(sorted_by_key(t)) by {
            assert forall|i: int, j: int| 0 <= i <= j < t.len() implies key_le(
                #[trigger] t[i],
                #[trigger] t[j],
            ) by {
                assert(key_le(s[i], s[j]));
            }
        }
        lemma_insert_sorted_sorted(t, e);
        lemma_insert_sorted_multiset(t, e);
        lemma_key_le_total(l, e);
        let ins = insert_sorted(t, e);
        let out = ins.push(l);
        assert forall|i: int, j: int| 0 <= i <= j < out.len() implies key_le(
            #[trigger] out[i],
            #[trigger] out[j],
        ) by {
            if j < out.len() - 1 {
                assert(key_le(ins[i], ins[j]));
            } else if i < out.len() - 1 {
                let x = ins[i];
                assert(ins.to_multiset().count(x) > 0) by {
                    assert(ins.contains(x));
                }
                assert(t.to_multiset().insert(e).count(x) > 0);
                if x == e {
                    assert(key_le(e, l));
                } else {
                    assert(t.to_multiset().count(x) > 0);
                    assert(t.contains(x));
                    let k = choose|k: int| 0 <= k < t.len() && t[k] == x;
                    assert(key_le(s[k], s[s.len() - 1]));
                }
            }
        }
    }
}

/// Transitivity of the sort key.
pub proof fn lemma_key_le_trans(a: EventView, b: EventView, c: EventView)
    ensures
        key_le(a, b) && key_le(b, c) ==> key_le(a, c),
{
    if key_le(a, b) && key_le(b, c) {
        lemma_lex_trans(a.repository, b.repository, c.repository);
        lemma_lex_trans(a.subject_url, b.subject_url, c.subject_url);
        lemma_lex_not_both(a.repository, b.repository);
        lemma_lex_not_both(b.repository, c.repository);
        lemma_lex_not_both(a.subject_url, b.subject_url);
        lemma_lex_not_both(b.subject_url, c.subject_url);
    }
}

proof fn lemma_lex_trans(a: Seq<char>, b: Seq<char>, c: Seq<char>)
    ensures
        lex_lt(a, b) && lex_lt(b, c) ==> lex_lt(a, c),
    decreases a.len() + b.len() + c.len(),
{
    if lex_lt(a, b) && lex_lt(b, c) {
        if a.len() > 0 && b.len() > 0 && c.len() > 0 && a[0] == b[0] && b[0] == c[0] {
            lemma_lex_trans(a.drop_first(), b.drop_first(), c.drop_first());
        }
    }
}

proof fn lemma_lex_not_both(a: Seq<char>, b: Seq<char>)
    ensures
        !(lex_lt(a, b) && lex_lt(b, a)),
    decreases a.len(),
{
    if a.len() > 0 && b.len() > 0 && a[0] == b[0] {
        lemma_lex_not_both(a.drop_first(), b.drop_first());
    }
}

/// Grouping order law: the sorted sequence the renderer walks is
/// non-decreasing under `(repository, subject_url, created_at)` and holds
/// exactly the events that went in.
pub proof fn lemma_render_order(items: Seq<EventView>)
    ensures
        sorted_by_key(sort_events(items)),
        sort_events(items).to_multiset() == items.to_multiset(),
    decreases items.len(),
{
    broadcast use vstd::seq_lib::group_to_multiset_ensures;

    if items.len() == 0 {
        assert(sort_events(items) =~= Seq::<EventView>::empty());
    } else {
        let t = items.drop_last();
        lemma_render_order(t);
        lemma_insert_sorted_sorted(sort_events(t), items.last());
        lemma_insert_sorted_multiset(sort_events(t), items.last());
        assert(t.push(items.last()) =~= items);
        assert(t.push(items.last()).to_multiset() =~= t.to_multiset().insert(items.last()));
        assert(sort_events(items).to_multiset() =~= items.to_multiset());
    }
}

/// Hard truncation law: a preview line of 81 or more code points renders as
/// exactly its first 80 code points followed by a three-character ellipsis.
pub proof fn lemma_line_hard_truncation(line: Seq<char>, mark_more: bool)
    requires
        line.len() >= 81,
    ensures
        spec_clip_line(line, mark_more) == line.take(80) + "..."@,
        spec_clip_line(line, mark_more).len() == 83,
{
    reveal_strlit("...");
}

/// Line-count truncation law: a body with more nonempty lines than the
/// label's limit previews exactly `limit` lines, and when the final kept
/// line is short enough to escape hard truncation it ends in ` ...`.
pub proof fn lemma_preview_line_count(body: Seq<char>, max_lines: int, prefix: Seq<char>)
    requires
        max_lines >= 1,
        first_nonempty_lines(split_newlines(body), max_lines + 1).len() > max_lines,
        first_nonempty_lines(split_newlines(body), max_lines + 1)[max_lines - 1].len() <= 80,
    ensures
        ({
            let lines = first_nonempty_lines(split_newlines(body), max_lines + 1);
            let block = spec_preview_block(lines.take(max_lines), true, prefix);
            &&& spec_body_preview(body, max_lines, prefix) == Some(join_nl(block))
            &&& block.len() == max_lines
            &&& block[max_lines - 1] == prefix + lines[max_lines - 1] + " ..."@
        }),
{
    let lines = first_nonempty_lines(split_newlines(body), max_lines + 1);
    let kept = lines.take(max_lines);
    assert(kept[max_lines - 1] == lines[max_lines - 1]);
    reveal_strlit(" ...");
}

/// URL-omission law: an event whose action label is `Opened`, `Closed` or
/// `Merged` renders without its own permalink; only `Comment` lines carry
/// one.
pub proof fn lemma_url_omission(e: EventView, compact: bool)
    ensures
        !spec_should_include_event_url(spec_action_label(e.kind)) ==> spec_event_line(e, compact)
            == (if compact {
            "  - "@
        } else {
            "- "@
        }) + spec_date_str(spec_date_of(e.created_at)) + " "@ + spec_action_label(e.kind) + "\n"@,
        spec_should_include_event_url(spec_action_label(e.kind)) ==> spec_event_line(e, compact)
            == (if compact {
            "  - "@
        } else {
            "- "@
        }) + spec_date_str(spec_date_of(e.created_at)) + " "@ + spec_action_label(e.kind) + " "@
            + e.url + "\n"@,
{
}

} // verus!
