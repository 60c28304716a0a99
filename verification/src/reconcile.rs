//! Merging the per-source result lists and the closed/merged dedup rule.
//!
//! A merge is the more specific terminal state of a pull request, and hosts
//! emit both a closed and a merged event for the same transition. For every
//! subject that has a merged event, all of its closed events are dropped;
//! matching is by subject permalink alone.

use vstd::prelude::*;

use crate::events::EventItem;
use crate::events::EventKind;
use crate::events::EventView;
use crate::events::views_of;
use crate::text::str_eq;

verus! {

/// Whether some event in `s` records a merge of the subject at `url`.
pub open spec fn has_merged_for(s: Seq<EventView>, url: Seq<char>) -> bool {
    exists|i: int|
        0 <= i < s.len() && s[i].kind == EventKind::PullRequestMerged && s[i].subject_url == url
}

/// An event survives reconciliation unless it is a closed pull request whose
/// subject also has a merged event.
pub open spec fn spec_keeps(s: Seq<EventView>, e: EventView) -> bool {
    !(e.kind == EventKind::PullRequestClosed && has_merged_for(s, e.subject_url))
}

/// The reconciled list: input order kept, superseded closed events removed.
pub open spec fn spec_reconciled(s: Seq<EventView>) -> Seq<EventView> {
    s.filter(|e: EventView| spec_keeps(s, e))
}

fn exists_merged_for(items: &Vec<EventItem>, url: &String) -> (r: bool)
    ensures
        r == has_merged_for(views_of(items@), url@),
{
    let ghost all = views_of(items@);
    let mut i: usize = 0;
    while i < items.len()
        invariant
            0 <= i <= items@.len(),
            all == views_of(items@),
            forall|k: int|
                0 <= k < i ==> !((#[trigger] all[k]).kind == EventKind::PullRequestMerged
                    && all[k].subject_url == url@),
        decreases items@.len() - i,
    {
        let item = &items[i];
        if matches!(item.kind, EventKind::PullRequestMerged) && str_eq(
            item.subject_url.as_str(),
            url.as_str(),
        ) {
            proof {
                assert(all[i as int].kind == EventKind::PullRequestMerged && all[
                    i as int
                ].subject_url == url@);
            }
            return true;
        }
        i = i + 1;
    }
    false
}

/// Drops every closed pull-request event whose subject also carries a merged
/// event anywhere in the input; everything else is kept in order.
pub fn filter_out_closed_when_merged(items: Vec<EventItem>) -> (r: Vec<EventItem>)
    ensures
        views_of(r@) == spec_reconciled(views_of(items@)),
        forall|k: int|
            0 <= k < r@.len() ==> exists|i: int|
                0 <= i < items@.len() && #[trigger] r@[k]@ == items@[i]@ && r@[k].wf() == items@[
                    i
                ].wf(),
{
    let ghost all = views_of(items@);
    let ghost pred = |e: EventView| spec_keeps(all, e);
    let mut out: Vec<EventItem> = Vec::new();
    let mut i: usize = 0;
    proof {
        reveal(Seq::filter);
        assert(views_of(items@.take(0)).filter(pred) =~= Seq::<EventView>::empty());
        assert(views_of(out@) =~= views_of(items@.take(0)).filter(pred));
    }
    while i < items.len()
        invariant
            0 <= i <= items@.len(),
            all == views_of(items@),
            pred == (|e: EventView| spec_keeps(all, e)),
            views_of(out@) == views_of(items@.take(i as int)).filter(pred),
            forall|k: int|
                0 <= k < out@.len() ==> exists|j: int|
                    0 <= j < items@.len() && #[trigger] out@[k]@ == items@[j]@ && out@[k].wf()
                        == items@[j].wf(),
        decreases items@.len() - i,
    {
        let item = &items[i];
        let keep = if matches!(item.kind, EventKind::PullRequestClosed) {
            !exists_merged_for(&items, &item.subject_url)
        } else {
            true
        };
        proof {
            assert(keep == pred(all[i as int]));
        }
        let ghost pre = out@;
        if keep {
            out.push(item.duplicate());
        }
        proof {
            reveal(Seq::filter);
            let taken = views_of(items@.take(i as int + 1));
            assert(taken.drop_last() =~= views_of(items@.take(i as int)));
            assert(taken.last() == all[i as int]);
            assert(taken.filter(pred) == if pred(all[i as int]) {
                taken.drop_last().filter(pred).push(all[i as int])
            } else {
                taken.drop_last().filter(pred)
            });
            if keep {
                assert(views_of(out@) =~= views_of(pre).push(all[i as int]));
            }
            assert(views_of(out@) == views_of(items@.take(i as int + 1)).filter(pred));
        }
        i = i + 1;
    }
    proof {
        assert(items@.take(i as int) =~= items@);
    }
    out
}

/// Appends the six per-source result lists in their fixed order.
pub fn merge_source_events(
    issue_comments: Vec<EventItem>,
    review_contributions: Vec<EventItem>,
    opened_issues: Vec<EventItem>,
    opened_prs: Vec<EventItem>,
    closed_issues: Vec<EventItem>,
    closed_prs: Vec<EventItem>,
) -> (r: Vec<EventItem>)
    ensures
        r@ == issue_comments@ + review_contributions@ + opened_issues@ + opened_prs@
            + closed_issues@ + closed_prs@,
{
    let mut out = issue_comments;
    let mut rest = review_contributions;
    out.append(&mut rest);
    let mut rest = opened_issues;
    out.append(&mut rest);
    let mut rest = opened_prs;
    out.append(&mut rest);
    let mut rest = closed_issues;
    out.append(&mut rest);
    let mut rest = closed_prs;
    out.append(&mut rest);
    out
}

proof fn lemma_filter_filter<A>(s: Seq<A>, p: spec_fn(A) -> bool, q: spec_fn(A) -> bool)
    ensures
        s.filter(p).filter(q) == s.filter(|e: A| p(e) && q(e)),
    decreases s.len(),
{
    reveal(Seq::filter);
    let pq = |e: A| p(e) && q(e);
    if s.len() == 0 {
        assert(s.filter(p).filter(q) =~= s.filter(pq));
    } else {
        let l = s.last();
        let t = s.drop_last();
        lemma_filter_filter(t, p, q);
        if p(l) {
            assert(s.filter(p) == t.filter(p).push(l));
            assert(t.filter(p).push(l).drop_last() =~= t.filter(p));
            assert(t.filter(p).push(l).last() == l);
        }
    }
}

/// Dedup law: once a merged event exists for a subject, the reconciled list
/// holds no closed pull-request event for that subject, holds exactly the
/// merged events the input held for it, and never removes a closed event of
/// a subject without a merge.
pub proof fn lemma_closed_merged_dedup(s: Seq<EventView>, url: Seq<char>)
    requires
        has_merged_for(s, url),
    ensures
        spec_reconciled(s).filter(
            |e: EventView| e.kind == EventKind::PullRequestClosed && e.subject_url == url,
        ).len() == 0,
        spec_reconciled(s).filter(
            |e: EventView| e.kind == EventKind::PullRequestMerged && e.subject_url == url,
        ) == s.filter(
            |e: EventView| e.kind == EventKind::PullRequestMerged && e.subject_url == url,
        ),
        forall|i: int|
            0 <= i < s.len() && (#[trigger] s[i]).kind == EventKind::PullRequestClosed
                && !has_merged_for(s, s[i].subject_url) ==> spec_reconciled(s).contains(s[i]),
{
    let keeps = |e: EventView| spec_keeps(s, e);
    let closed_here = |e: EventView| e.kind == EventKind::PullRequestClosed && e.subject_url
        == url;
    let merged_here = |e: EventView| e.kind == EventKind::PullRequestMerged && e.subject_url
        == url;
    reveal(Seq::filter);
    broadcast use vstd::seq_lib::group_filter_ensures;

    let reconciled = spec_reconciled(s);
    assert(reconciled.filter(closed_here).len() == 0) by {
        if reconciled.filter(closed_here).len() > 0 {
            let x = reconciled.filter(closed_here)[0];
            assert(closed_here(x));
            lemma_filter_subset(reconciled, closed_here);
            assert(reconciled.contains(x));
            let j = choose|j: int| 0 <= j < reconciled.len() && reconciled[j] == x;
            assert(spec_keeps(s, reconciled[j]));
            assert(false);
        }
    }
    lemma_filter_filter(s, keeps, merged_here);
    assert(s.filter(|e: EventView| keeps(e) && merged_here(e)) =~= s.filter(merged_here)) by {
        lemma_filter_same(s, |e: EventView| keeps(e) && merged_here(e), merged_here);
    }
}

/// Everything a filter keeps was in the underlying sequence.
proof fn lemma_filter_subset<A>(s: Seq<A>, p: spec_fn(A) -> bool)
    ensures
        forall|i: int| 0 <= i < s.filter(p).len() ==> s.contains(#[trigger] s.filter(p)[i]),
    decreases s.len(),
{
    reveal(Seq::filter);
    if s.len() > 0 {
        let t = s.drop_last();
        lemma_filter_subset(t, p);
        assert forall|i: int| 0 <= i < s.filter(p).len() implies s.contains(
            #[trigger] s.filter(p)[i],
        ) by {
            if i < t.filter(p).len() {
                assert(s.filter(p)[i] == t.filter(p)[i]);
                let j = choose|j: int| 0 <= j < t.len() && t[j] == t.filter(p)[i];
                assert(s[j] == s.filter(p)[i]);
            } else {
                assert(s.filter(p)[i] == s.last());
                assert(s[s.len() - 1] == s.last());
            }
        }
    }
}

proof fn lemma_filter_same<A>(s: Seq<A>, p: spec_fn(A) -> bool, q: spec_fn(A) -> bool)
    requires
        forall|e: A| #[trigger] p(e) == q(e),
    ensures
        s.filter(p) == s.filter(q),
    decreases s.len(),
{
    reveal(Seq::filter);
    if s.len() == 0 {
        assert(s.filter(p) =~= s.filter(q));
    } else {
        lemma_filter_same(s.drop_last(), p, q);
    }
}

/// Reconciling an empty list yields an empty list: an empty range stays
/// empty downstream of every fetch.
pub proof fn lemma_reconcile_empty()
    ensures
        spec_reconciled(Seq::<EventView>::empty()) == Seq::<EventView>::empty(),
{
    reveal(Seq::filter);
    assert(spec_reconciled(Seq::<EventView>::empty()) =~= Seq::<EventView>::empty());
}

} // verus!
