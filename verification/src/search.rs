//! The range-bisecting search planner.
//!
//! A search query over a date range can return at most a fixed number of
//! results, so the fetcher keeps a work-list of candidate sub-ranges: it pops
//! a range, asks the host for a cheap count, and either skips it (zero
//! results), fetches it whole (within the cap), fetches a single over-full
//! day best-effort, or bisects it at the midpoint and pushes both halves.
//! The planner here makes every one of those decisions; the surrounding
//! application only runs the queries and reports the counts back.

use vstd::prelude::*;

use crate::dates::Date;
use crate::dates::DateRange;
use crate::dates::midpoint_date;
use crate::text::spec_date_str;

verus! {

/// A host reports at most this many results for one search query.
pub const SEARCH_RESULT_CAP: u64 = 1000;

/// `a` lies within `b` (an empty range lies in anything).
pub open spec fn range_sub_of(a: DateRange, b: DateRange) -> bool {
    a.spec_is_empty() || (b.from.spec_days() <= a.from.spec_days() && a.to.spec_days()
        <= b.to.spec_days())
}

/// `a` and `b` share no day.
pub open spec fn range_disjoint(a: DateRange, b: DateRange) -> bool {
    a.spec_is_empty() || b.spec_is_empty() || a.to.spec_days() < b.from.spec_days()
        || b.to.spec_days() < a.from.spec_days()
}

/// Day `d` lies in one of the ranges.
pub open spec fn covers(rs: Seq<DateRange>, d: int) -> bool {
    exists|i: int|
        0 <= i < rs.len() && (#[trigger] rs[i]).from.spec_days() <= d <= rs[i].to.spec_days()
}

/// The planner's invariant over an abstract state: every tracked range is a
/// well-formed part of the seeded range, no two tracked ranges overlap, every
/// day of the seeded range is still tracked somewhere, and settled ranges are
/// never empty.
pub open spec fn planner_inv(
    pending: Seq<DateRange>,
    resolved: Seq<DateRange>,
    full: DateRange,
) -> bool {
    let all = pending + resolved;
    &&& forall|i: int|
        0 <= i < all.len() ==> (#[trigger] all[i]).wf() && range_sub_of(all[i], full)
    &&& forall|i: int, j: int|
        0 <= i < j < all.len() ==> range_disjoint(#[trigger] all[i], #[trigger] all[j])
    &&& forall|d: int|
        full.from.spec_days() <= d <= full.to.spec_days() ==> #[trigger] covers(all, d)
    &&& forall|i: int| 0 <= i < resolved.len() ==> !(#[trigger] resolved[i]).spec_is_empty()
}

/// What to do with a range after its result count came back.
#[derive(Clone, Copy, PartialEq, Eq, Structural, Debug)]
pub enum LeafAction {
    /// No results in this range: nothing to fetch.
    Skip,
    /// The whole range fits under the cap: fetch its pages.
    FetchFull,
    /// A single day over the cap cannot be bisected further: fetch what the
    /// host will give, accepting the loss.
    FetchBestEffort,
    /// The range was split; its halves are back on the work-list.
    Bisected,
}

/// The work-list state of one bounded search over a date range.
pub struct RangeSearchFetcher {
    /// Candidate sub-ranges still to be counted, popped from the back.
    pub pending: Vec<DateRange>,
    /// Settled leaves, in decision order: counted and not bisected further.
    pub resolved: Vec<DateRange>,
    /// The range the planner was seeded with.
    pub full: DateRange,
}

impl RangeSearchFetcher {
    pub open spec fn wf(self) -> bool {
        self.full.wf() && planner_inv(self.pending@, self.resolved@, self.full)
    }

    /// Seeds the work-list with the whole requested range.
    pub fn new(full: DateRange) -> (r: RangeSearchFetcher)
        requires
            full.wf(),
        ensures
            r.wf(),
            r.full == full,
            r.pending@ == seq![full],
            r.resolved@.len() == 0,
    {
        let mut pending: Vec<DateRange> = Vec::new();
        pending.push(full);
        let r = RangeSearchFetcher { pending, resolved: Vec::new(), full };
        proof {
            let all = r.pending@ + r.resolved@;
            assert(all =~= seq![full]);
            assert(forall|d: int|
                full.from.spec_days() <= d <= full.to.spec_days() ==> #[trigger] covers(all, d))
                by {
                assert forall|d: int|
                    full.from.spec_days() <= d <= full.to.spec_days() implies #[trigger] covers(
                    all,
                    d,
                ) by {
                    assert(all[0].from.spec_days() <= d <= all[0].to.spec_days());
                }
            }
        }
        r
    }

    /// Pops the next candidate range, discarding empty ones; `None` once the
    /// work-list is exhausted.
    pub fn next_range(&mut self) -> (r: Option<DateRange>)
        requires
            old(self).wf(),
        ensures
            final(self).full == old(self).full,
            final(self).full.wf(),
            final(self).resolved@ == old(self).resolved@,
            r is None ==> final(self).wf() && final(self).pending@.len() == 0,
            r matches Some(rg) ==> !rg.spec_is_empty() && rg.wf() && planner_inv(
                final(self).pending@ + seq![rg],
                final(self).resolved@,
                final(self).full,
            ),
    {
        loop
            invariant
                self.wf(),
                self.full == old(self).full,
                self.full.wf(),
                self.resolved@ == old(self).resolved@,
            decreases self.pending@.len(),
        {
            let ghost entry_pending = self.pending@;
            let popped = self.pending.pop();
            match popped {
                None => {
                    return None;
                },
                Some(rg) => {
                    proof {
                        assert(entry_pending =~= self.pending@.push(rg));
                    }
                    if !rg.is_empty() {
                        proof {
                            assert(self.pending@ + seq![rg] =~= entry_pending);
                            assert(rg.wf()) by {
                                let all = entry_pending + self.resolved@;
                                assert(all[entry_pending.len() - 1] == rg);
                            }
                        }
                        return Some(rg);
                    }
                    proof {
                        lemma_inv_drop_empty(entry_pending, self.resolved@, self.full);
                        assert(entry_pending.drop_last() =~= self.pending@);
                    }
                },
            }
        }
    }

    /// Settles or splits `range` after the host reported `count` results for
    /// it. `range` must be the range just popped from this planner.
    pub fn decide(&mut self, range: DateRange, count: u64) -> (r: LeafAction)
        requires
            old(self).full.wf(),
            range.wf(),
            !range.spec_is_empty(),
            planner_inv(old(self).pending@ + seq![range], old(self).resolved@, old(self).full),
        ensures
            final(self).wf(),
            final(self).full == old(self).full,
            count == 0 ==> r == LeafAction::Skip,
            0 < count <= SEARCH_RESULT_CAP ==> r == LeafAction::FetchFull,
            count > SEARCH_RESULT_CAP && range.from.spec_days() == range.to.spec_days() ==> r
                == LeafAction::FetchBestEffort,
            r != LeafAction::Bisected ==> final(self).pending@ == old(self).pending@
                && final(self).resolved@ == old(self).resolved@.push(range),
            count > SEARCH_RESULT_CAP && range.from.spec_days() < range.to.spec_days() ==> ({
                let mid = range.from.spec_days() + (range.to.spec_days() - range.from.spec_days())
                    / 2;
                &&& r == LeafAction::Bisected
                &&& final(self).resolved@ == old(self).resolved@
                &&& final(self).pending@.len() == old(self).pending@.len() + 2
                &&& final(self).pending@.take(old(self).pending@.len() as int) == old(
                    self,
                ).pending@
                &&& final(self).pending@[final(self).pending@.len() - 2].from.spec_days() == mid
                    + 1
                &&& final(self).pending@[final(self).pending@.len() - 2].to == range.to
                &&& final(self).pending@[final(self).pending@.len() - 1].from == range.from
                &&& final(self).pending@[final(self).pending@.len() - 1].to.spec_days() == mid
            }),
    {
        if count == 0 {
            proof {
                lemma_inv_settle(self.pending@, self.resolved@, self.full, range);
            }
            self.resolved.push(range);
            LeafAction::Skip
        } else if count <= SEARCH_RESULT_CAP {
            proof {
                lemma_inv_settle(self.pending@, self.resolved@, self.full, range);
            }
            self.resolved.push(range);
            LeafAction::FetchFull
        } else if range.from.days() == range.to.days() {
            proof {
                lemma_inv_settle(self.pending@, self.resolved@, self.full, range);
            }
            self.resolved.push(range);
            LeafAction::FetchBestEffort
        } else {
            let mid = midpoint_date(range.from, range.to);
            let next_day = match mid.succ() {
                Some(d) => d,
                None => {
                    proof {
                        assert(false);
                    }
                    range.to
                },
            };
            let upper = DateRange { from: next_day, to: range.to };
            let lower = DateRange { from: range.from, to: mid };
            proof {
                lemma_inv_bisect(self.pending@, self.resolved@, self.full, range, lower, upper);
            }
            self.pending.push(upper);
            self.pending.push(lower);
            proof {
                assert(self.pending@.take(self.pending@.len() - 2) =~= old(self).pending@);
            }
            LeafAction::Bisected
        }
    }
}

/// How many attempts a failing search query gets before the error surfaces.
pub const SEARCH_RETRIES: u64 = 3;

/// The exponential backoff before re-running a failed attempt: a base delay
/// of 200 ms doubled after each attempt.
pub fn backoff_delay_ms(attempt: u64) -> (r: u64)
    requires
        1 <= attempt <= SEARCH_RETRIES,
    ensures
        attempt == 1 ==> r == 200,
        attempt == 2 ==> r == 400,
        attempt == 3 ==> r == 800,
{
    if attempt == 1 {
        200
    } else if attempt == 2 {
        400
    } else {
        800
    }
}

/// What to do after a transport failure on the given attempt.
#[derive(Clone, Copy, PartialEq, Eq, Structural, Debug)]
pub enum RetryStep {
    /// Sleep this long, then run the query again.
    Retry { delay_ms: u64 },
    /// The attempts are used up: surface the error, fail the whole fetch.
    GiveUp,
}

/// Retry policy of the search fetcher: every transport failure before the
/// final attempt is retried with exponential backoff; the final attempt's
/// error is surfaced and no partial result is returned.
pub fn retry_decision(attempt: u64) -> (r: RetryStep)
    requires
        1 <= attempt <= SEARCH_RETRIES,
    ensures
        attempt < SEARCH_RETRIES ==> (r matches RetryStep::Retry { delay_ms } && (attempt == 1
            ==> delay_ms == 200) && (attempt == 2 ==> delay_ms == 400)),
        attempt == SEARCH_RETRIES ==> r == RetryStep::GiveUp,
{
    if attempt == SEARCH_RETRIES {
        RetryStep::GiveUp
    } else {
        RetryStep::Retry { delay_ms: backoff_delay_ms(attempt) }
    }
}

/// The search predicate sent to the host: the base query restricted to the
/// requesting user and to closure dates inside the sub-range.
pub fn search_query(query_base: &str, from: Date, to: Date) -> (r: String)
    requires
        from.wf(),
        to.wf(),
    ensures
        r@ == query_base@ + " involves:@me closed:"@ + spec_date_str(from.spec_days() as int)
            + ".."@ + spec_date_str(to.spec_days() as int),
{
    let mut out = String::new();
    proof {
        reveal_strlit(" involves:@me closed:");
        reveal_strlit("..");
    }
    out.append(query_base);
    out.append(" involves:@me closed:");
    let from_str = from.format_iso();
    out.append(from_str.as_str());
    out.append("..");
    let to_str = to.format_iso();
    out.append(to_str.as_str());
    out
}

/// Discarding an empty candidate keeps the invariant: it tracked no days.
proof fn lemma_inv_drop_empty(pending: Seq<DateRange>, resolved: Seq<DateRange>, full: DateRange)
    requires
        planner_inv(pending, resolved, full),
        pending.len() > 0,
        pending.last().spec_is_empty(),
    ensures
        planner_inv(pending.drop_last(), resolved, full),
{
    let all = pending + resolved;
    let all2 = pending.drop_last() + resolved;
    let p = pending.len() - 1;
    assert(forall|i: int| 0 <= i < p ==> all2[i] == all[i]);
    assert(forall|i: int| p <= i < all2.len() ==> all2[i] == all[i + 1]);
    assert forall|d: int|
        full.from.spec_days() <= d <= full.to.spec_days() implies #[trigger] covers(all2, d) by {
        assert(covers(all, d));
        let i = choose|i: int|
            0 <= i < all.len() && (#[trigger] all[i]).from.spec_days() <= d
                <= all[i].to.spec_days();
        assert(i != p);
        if i < p {
            assert(all2[i].from.spec_days() <= d <= all2[i].to.spec_days());
        } else {
            assert(all2[i - 1].from.spec_days() <= d <= all2[i - 1].to.spec_days());
        }
    }
}

/// Settling the popped range moves it from the work-list to the leaves and
/// keeps the invariant: the tracked ranges are the same.
proof fn lemma_inv_settle(
    pending: Seq<DateRange>,
    resolved: Seq<DateRange>,
    full: DateRange,
    range: DateRange,
)
    requires
        planner_inv(pending + seq![range], resolved, full),
        !range.spec_is_empty(),
    ensures
        planner_inv(pending, resolved.push(range), full),
{
    let all = (pending + seq![range]) + resolved;
    let all2 = pending + resolved.push(range);
    let p = pending.len() as int;
    let n = all.len() as int;
    assert(all2.len() == n);
    assert(forall|i: int| 0 <= i < p ==> all2[i] == all[i]);
    assert(forall|i: int| p <= i < n - 1 ==> all2[i] == all[i + 1]);
    assert(all2[n - 1] == all[p]);
    let to_old = |i: int|
        if i < p {
            i
        } else if i == n - 1 {
            p
        } else {
            i + 1
        };
    assert forall|i: int| 0 <= i < all2.len() implies (#[trigger] all2[i]).wf() && range_sub_of(
        all2[i],
        full,
    ) by {
        assert(all2[i] == all[to_old(i)]);
    }
    assert forall|i: int, j: int| 0 <= i < j < all2.len() implies range_disjoint(
        #[trigger] all2[i],
        #[trigger] all2[j],
    ) by {
        let a = to_old(i);
        let b = to_old(j);
        assert(all2[i] == all[a] && all2[j] == all[b]);
        assert(a != b);
        if a < b {
            assert(range_disjoint(all[a], all[b]));
        } else {
            assert(range_disjoint(all[b], all[a]));
        }
    }
    assert forall|d: int|
        full.from.spec_days() <= d <= full.to.spec_days() implies #[trigger] covers(all2, d) by {
        assert(covers(all, d));
        let i = choose|i: int|
            0 <= i < all.len() && (#[trigger] all[i]).from.spec_days() <= d
                <= all[i].to.spec_days();
        if i < p {
            assert(all2[i].from.spec_days() <= d <= all2[i].to.spec_days());
        } else if i == p {
            assert(all2[n - 1].from.spec_days() <= d <= all2[n - 1].to.spec_days());
        } else {
            assert(all2[i - 1].from.spec_days() <= d <= all2[i - 1].to.spec_days());
        }
    }
}

/// Splitting the popped range at its midpoint keeps the invariant: the two
/// halves are disjoint, non-empty, and cover exactly the split range.
proof fn lemma_inv_bisect(
    pending: Seq<DateRange>,
    resolved: Seq<DateRange>,
    full: DateRange,
    range: DateRange,
    lower: DateRange,
    upper: DateRange,
)
    requires
        planner_inv(pending + seq![range], resolved, full),
        !range.spec_is_empty(),
        range.from.spec_days() < range.to.spec_days(),
        lower.from == range.from,
        upper.to == range.to,
        lower.to.wf(),
        upper.from.wf(),
        range.from.spec_days() <= lower.to.spec_days() < range.to.spec_days(),
        upper.from.spec_days() == lower.to.spec_days() + 1,
    ensures
        planner_inv(pending.push(upper).push(lower), resolved, full),
{
    let all = (pending + seq![range]) + resolved;
    let all2 = pending.push(upper).push(lower) + resolved;
    let p = pending.len() as int;
    assert(all2.len() == all.len() + 1);
    assert(forall|i: int| 0 <= i < p ==> all2[i] == all[i]);
    assert(all2[p] == upper);
    assert(all2[p + 1] == lower);
    assert(forall|i: int| p + 2 <= i < all2.len() ==> all2[i] == all[i - 1]);
    assert(all[p] == range);
    let to_old = |i: int|
        if i < p {
            i
        } else if i == p || i == p + 1 {
            p
        } else {
            i - 1
        };
    assert(range_sub_of(lower, range) && range_sub_of(upper, range));
    assert forall|i: int| 0 <= i < all2.len() implies (#[trigger] all2[i]).wf() && range_sub_of(
        all2[i],
        full,
    ) by {
        if i == p || i == p + 1 {
            assert(all[p].wf() && range_sub_of(all[p], full));
        } else {
            assert(all2[i] == all[to_old(i)]);
        }
    }
    assert forall|i: int, j: int| 0 <= i < j < all2.len() implies range_disjoint(
        #[trigger] all2[i],
        #[trigger] all2[j],
    ) by {
        let a = to_old(i);
        let b = to_old(j);
        assert(all2[i] == all[a] || (i == p && all2[i] == upper) || (i == p + 1 && all2[i]
            == lower));
        assert(all2[j] == all[b] || (j == p && all2[j] == upper) || (j == p + 1 && all2[j]
            == lower));
        if i == p && j == p + 1 {
            assert(range_disjoint(upper, lower));
        } else if a < b {
            assert(range_disjoint(all[a], all[b]));
        } else if b < a {
            assert(range_disjoint(all[b], all[a]));
        }
    }
    assert forall|d: int|
        full.from.spec_days() <= d <= full.to.spec_days() implies #[trigger] covers(all2, d) by {
        assert(covers(all, d));
        let i = choose|i: int|
            0 <= i < all.len() && (#[trigger] all[i]).from.spec_days() <= d
                <= all[i].to.spec_days();
        if i < p {
            assert(all2[i].from.spec_days() <= d <= all2[i].to.spec_days());
        } else if i == p {
            if d <= lower.to.spec_days() {
                assert(all2[p + 1].from.spec_days() <= d <= all2[p + 1].to.spec_days());
            } else {
                assert(all2[p].from.spec_days() <= d <= all2[p].to.spec_days());
            }
        } else {
            assert(all2[i + 1].from.spec_days() <= d <= all2[i + 1].to.spec_days());
        }
    }
}

/// Bisection completeness: once the work-list is drained, the settled leaf
/// ranges cover every day of the seeded range, exactly once, and nothing
/// outside it. Together with the per-leaf fetches this makes the union of
/// leaf results the same set a single uncapped query would return.
pub proof fn lemma_bisection_partition(rs: RangeSearchFetcher)
    requires
        rs.wf(),
        rs.pending@.len() == 0,
    ensures
        forall|d: int|
            rs.full.from.spec_days() <= d <= rs.full.to.spec_days() ==> #[trigger] covers(
                rs.resolved@,
                d,
            ),
        forall|i: int|
            0 <= i < rs.resolved@.len() ==> !(#[trigger] rs.resolved@[i]).spec_is_empty()
                && range_sub_of(rs.resolved@[i], rs.full),
        forall|i: int, j: int|
            0 <= i < j < rs.resolved@.len() ==> range_disjoint(
                #[trigger] rs.resolved@[i],
                #[trigger] rs.resolved@[j],
            ),
{
    let all = rs.pending@ + rs.resolved@;
    assert(all =~= rs.resolved@);
}

/// An empty requested range settles nothing: every leaf is non-empty and
/// lies inside the seeded range, which holds no day at all.
pub proof fn lemma_empty_range_resolves_nothing(rs: RangeSearchFetcher)
    requires
        rs.wf(),
        rs.full.spec_is_empty(),
    ensures
        rs.resolved@.len() == 0,
{
    if rs.resolved@.len() > 0 {
        let all = rs.pending@ + rs.resolved@;
        let i = rs.pending@.len() as int;
        assert(all[i] == rs.resolved@[0]);
        assert(all[i].wf() && range_sub_of(all[i], rs.full));
        assert(!rs.resolved@[0].spec_is_empty());
        assert(false);
    }
}

} // verus!
