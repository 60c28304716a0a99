//! Calendar dates as day numbers since 1970-01-01, and inclusive date ranges.
//!
//! A `Date` covers the years 1970 through 9999. A `DateRange` is the
//! inclusive span `[from, to]`; a range with `from > to` is empty and every
//! algorithm treats it as "no days", never as an error.

use vstd::prelude::*;

verus! {

/// Day number of 9999-12-31, counted from 1970-01-01 (day 0).
pub const MAX_EPOCH_DAY: u64 = 2932896;

/// A calendar date, stored as whole days since 1970-01-01.
#[derive(Clone, Copy, PartialEq, Eq, Structural, Debug)]
pub struct Date {
    days: u64,
}

impl Date {
    /// The day number of this date, counted from 1970-01-01.
    pub closed spec fn spec_days(self) -> u64 {
        self.days
    }

    /// Every constructed date lies between 1970-01-01 and 9999-12-31.
    pub open spec fn wf(self) -> bool {
        self.spec_days() <= MAX_EPOCH_DAY
    }

    /// Wraps a day number; callers outside the date module go through
    /// `from_ymd` or `parse` instead.
    pub fn from_days(days: u64) -> (r: Option<Date>)
        ensures
            days <= MAX_EPOCH_DAY ==> (r matches Some(d) && d.spec_days() == days && d.wf()),
            days > MAX_EPOCH_DAY ==> r is None,
    {
        if days <= MAX_EPOCH_DAY {
            Some(Date { days })
        } else {
            None
        }
    }

    #[verifier::when_used_as_spec(spec_days)]
    pub fn days(self) -> (r: u64)
        ensures
            r == self.spec_days(),
    {
        self.days
    }

    /// The next calendar day, or `None` at the end of year 9999.
    pub fn succ(self) -> (r: Option<Date>)
        requires
            self.wf(),
        ensures
            self.spec_days() < MAX_EPOCH_DAY ==> (r matches Some(d) && d.spec_days()
                == self.spec_days() + 1 && d.wf()),
            self.spec_days() == MAX_EPOCH_DAY ==> r is None,
    {
        if self.days < MAX_EPOCH_DAY {
            Some(Date { days: self.days + 1 })
        } else {
            None
        }
    }
}

/// An inclusive span of calendar days; `from > to` means the empty range.
#[derive(Clone, Copy, PartialEq, Eq, Structural, Debug)]
pub struct DateRange {
    pub from: Date,
    pub to: Date,
}

impl DateRange {
    pub open spec fn wf(self) -> bool {
        self.from.wf() && self.to.wf()
    }

    /// The set of day numbers the range covers.
    pub open spec fn day_set(self) -> Set<int> {
        Set::new(|d: int| self.from.spec_days() <= d <= self.to.spec_days())
    }

    pub open spec fn spec_is_empty(self) -> bool {
        self.from.spec_days() > self.to.spec_days()
    }

    #[verifier::when_used_as_spec(spec_is_empty)]
    pub fn is_empty(self) -> (r: bool)
        ensures
            r == self.spec_is_empty(),
    {
        self.from.days > self.to.days
    }

    /// How many days the range covers.
    pub open spec fn width(self) -> int {
        if self.spec_is_empty() {
            0
        } else {
            self.to.spec_days() - self.from.spec_days() + 1
        }
    }
}

/// Proleptic Gregorian leap-year rule.
pub open spec fn is_leap_year(y: int) -> bool {
    y % 4 == 0 && (y % 100 != 0 || y % 400 == 0)
}

pub open spec fn spec_days_in_year(y: int) -> int {
    if is_leap_year(y) {
        366
    } else {
        365
    }
}

/// Days from 1970-01-01 to the first day of year `y`.
pub open spec fn days_before_year(y: int) -> int
    decreases y,
{
    if y <= 1970 {
        0
    } else {
        days_before_year(y - 1) + spec_days_in_year(y - 1)
    }
}

pub open spec fn spec_days_in_month(y: int, m: int) -> int {
    if m == 2 {
        if is_leap_year(y) {
            29
        } else {
            28
        }
    } else if m == 4 || m == 6 || m == 9 || m == 11 {
        30
    } else {
        31
    }
}

/// Days from the first day of year `y` to the first day of its month `m`.
pub open spec fn days_before_month(y: int, m: int) -> int
    decreases m,
{
    if m <= 1 {
        0
    } else {
        days_before_month(y, m - 1) + spec_days_in_month(y, m - 1)
    }
}

/// The day number (from 1970-01-01) of the calendar date `y-m-d`.
pub open spec fn epoch_day_of(y: int, m: int, d: int) -> int {
    days_before_year(y) + days_before_month(y, m) + (d - 1)
}

/// A calendar date this library can hold: years 1970 through 9999.
pub open spec fn valid_ymd(y: int, m: int, d: int) -> bool {
    &&& 1970 <= y <= 9999
    &&& 1 <= m <= 12
    &&& 1 <= d <= spec_days_in_month(y, m)
}

proof fn lemma_days_before_year_bounds(y: int)
    requires
        1970 <= y,
    ensures
        365 * (y - 1970) <= days_before_year(y) <= 366 * (y - 1970),
    decreases y,
{
    if y > 1970 {
        lemma_days_before_year_bounds(y - 1);
    }
}

/// Leap years before year `y` (from year 1), by the closed formula.
spec fn leap_count_to(y: int) -> int {
    (y - 1) / 4 - (y - 1) / 100 + (y - 1) / 400
}

/// How a quotient moves when its dividend grows by one.
proof fn lemma_div_inc(y: int, k: int)
    requires
        k >= 1,
    ensures
        y % k == 0 ==> y / k == (y - 1) / k + 1,
        y % k != 0 ==> y / k == (y - 1) / k,
{
    let q = (y - 1) / k;
    let r = (y - 1) % k;
    vstd::arithmetic::div_mod::lemma_fundamental_div_mod(y - 1, k);
    assert((q + 1) * k == q * k + k) by (nonlinear_arith);
    if r + 1 == k {
        vstd::arithmetic::div_mod::lemma_fundamental_div_mod_converse(y, k, q + 1, 0);
    } else {
        vstd::arithmetic::div_mod::lemma_fundamental_div_mod_converse(y, k, q, r + 1);
    }
}

/// Divisibility by 400 implies divisibility by 100, and 100 implies 4.
proof fn lemma_div_chains(x: int)
    ensures
        x % 400 == 0 ==> x % 100 == 0,
        x % 100 == 0 ==> x % 4 == 0,
{
    if x % 400 == 0 {
        let q = x / 400;
        vstd::arithmetic::div_mod::lemma_fundamental_div_mod(x, 400);
        assert(x == (4 * q) * 100 + 0) by (nonlinear_arith)
            requires
                x == 400 * q,
        ;
        vstd::arithmetic::div_mod::lemma_fundamental_div_mod_converse(x, 100, 4 * q, 0);
    }
    if x % 100 == 0 {
        let q = x / 100;
        vstd::arithmetic::div_mod::lemma_fundamental_div_mod(x, 100);
        assert(x == (25 * q) * 4 + 0) by (nonlinear_arith)
            requires
                x == 100 * q,
        ;
        vstd::arithmetic::div_mod::lemma_fundamental_div_mod_converse(x, 4, 25 * q, 0);
    }
}

/// The recursive day count agrees with the closed leap-count formula.
proof fn lemma_days_before_year_closed(y: int)
    requires
        1970 <= y,
    ensures
        days_before_year(y) == 365 * (y - 1970) + leap_count_to(y) - leap_count_to(1970),
    decreases y,
{
    if y > 1970 {
        lemma_days_before_year_closed(y - 1);
        lemma_div_inc(y - 1, 4);
        lemma_div_inc(y - 1, 100);
        lemma_div_inc(y - 1, 400);
        lemma_div_chains(y - 1);
    }
}

/// Fixed day counts at the calendar's upper edge.
proof fn lemma_year_10000()
    ensures
        days_before_year(9999) == 2932532,
        days_before_year(10000) == 2932897,
{
    lemma_days_before_year_closed(9999);
    lemma_days_before_year_closed(10000);
}

/// A full year's months sum to its day count.
proof fn lemma_months_cover_year(y: int)
    ensures
        days_before_month(y, 13) == spec_days_in_year(y),
{
    reveal_with_fuel(days_before_month, 13);
}

fn days_in_year(y: u64) -> (r: u64)
    ensures
        r == spec_days_in_year(y as int),
{
    if y % 4 == 0 && (y % 100 != 0 || y % 400 == 0) {
        366
    } else {
        365
    }
}

fn days_in_month(y: u64, m: u64) -> (r: u64)
    ensures
        r == spec_days_in_month(y as int, m as int),
{
    if m == 2 {
        if y % 4 == 0 && (y % 100 != 0 || y % 400 == 0) {
            29
        } else {
            28
        }
    } else if m == 4 || m == 6 || m == 9 || m == 11 {
        30
    } else {
        31
    }
}

impl Date {
    /// The date `y-m-d`, or `None` when it falls outside the supported
    /// calendar (years 1970 through 9999, days checked against their month).
    pub fn from_ymd(y: u64, m: u64, d: u64) -> (r: Option<Date>)
        ensures
            valid_ymd(y as int, m as int, d as int) ==> (r matches Some(date) && date.wf()
                && date.spec_days() == epoch_day_of(y as int, m as int, d as int)),
            !valid_ymd(y as int, m as int, d as int) ==> r is None,
    {
        if !(1970 <= y && y <= 9999 && 1 <= m && m <= 12 && 1 <= d && d <= days_in_month(y, m)) {
            return None;
        }
        let mut acc: u64 = 0;
        let mut cur: u64 = 1970;
        while cur < y
            invariant
                1970 <= cur <= y <= 9999,
                acc == days_before_year(cur as int),
            decreases y - cur,
        {
            proof {
                lemma_days_before_year_bounds(cur as int + 1);
            }
            acc = acc + days_in_year(cur);
            cur = cur + 1;
        }
        let mut macc: u64 = acc;
        let mut mo: u64 = 1;
        proof {
            lemma_days_before_year_bounds(y as int);
        }
        while mo < m
            invariant
                1 <= mo <= m <= 12,
                y <= 9999,
                acc == days_before_year(y as int),
                macc == days_before_year(y as int) + days_before_month(y as int, mo as int),
                days_before_year(y as int) <= 366 * (y - 1970),
                macc <= 2938614 + 31 * (mo - 1),
            decreases m - mo,
        {
            macc = macc + days_in_month(y, mo);
            mo = mo + 1;
        }
        let days: u64 = macc + d - 1;
        proof {
            lemma_year_10000();
            lemma_months_cover_year(y as int);
            lemma_days_before_month_monotone(y as int, m as int + 1, 13);
            assert(days_before_month(y as int, m as int + 1) == days_before_month(
                y as int,
                m as int,
            ) + spec_days_in_month(y as int, m as int));
            assert(days <= days_before_year(y as int) + spec_days_in_year(y as int) - 1);
            assert(days_before_year(y as int) + spec_days_in_year(y as int) == days_before_year(
                y as int + 1,
            ));
            if y < 9999 {
                lemma_days_before_year_monotone(y as int + 1, 9999);
            }
        }
        Some(Date { days })
    }

    /// The calendar date `(year, month, day)` of this day number.
    pub fn to_ymd(self) -> (r: (u64, u64, u64))
        requires
            self.wf(),
        ensures
            valid_ymd(r.0 as int, r.1 as int, r.2 as int),
            epoch_day_of(r.0 as int, r.1 as int, r.2 as int) == self.spec_days(),
    {
        let mut y: u64 = 1970;
        let mut acc: u64 = 0;
        proof {
            lemma_year_10000();
        }
        while acc + days_in_year(y) <= self.days
            invariant
                self.wf(),
                1970 <= y <= 9999,
                acc == days_before_year(y as int),
                acc <= self.days,
                days_before_year(9999) == 2932532,
            decreases MAX_EPOCH_DAY - acc,
        {
            proof {
                if y == 9999 {
                    assert(acc + spec_days_in_year(9999) > MAX_EPOCH_DAY);
                }
            }
            acc = acc + days_in_year(y);
            y = y + 1;
        }
        let mut m: u64 = 1;
        let mut macc: u64 = acc;
        proof {
            lemma_months_cover_year(y as int);
        }
        while macc + days_in_month(y, m) <= self.days
            invariant
                self.wf(),
                1970 <= y <= 9999,
                1 <= m <= 12,
                acc == days_before_year(y as int),
                macc == acc + days_before_month(y as int, m as int),
                macc <= self.days,
                self.days < acc + spec_days_in_year(y as int),
                days_before_month(y as int, 13) == spec_days_in_year(y as int),
            decreases 13 - m,
        {
            proof {
                if m == 12 {
                    assert(days_before_month(y as int, 13) == days_before_month(y as int, 12)
                        + spec_days_in_month(y as int, 12));
                }
            }
            macc = macc + days_in_month(y, m);
            m = m + 1;
        }
        let d: u64 = self.days - macc + 1;
        (y, m, d)
    }
}

/// Month day-count prefixes grow with the month.
proof fn lemma_days_before_month_monotone(y: int, a: int, b: int)
    requires
        a <= b,
    ensures
        days_before_month(y, a) <= days_before_month(y, b),
    decreases b - a,
{
    if a < b {
        lemma_days_before_month_monotone(y, a, b - 1);
    }
}

proof fn lemma_days_before_year_monotone(a: int, b: int)
    requires
        a <= b,
    ensures
        days_before_year(a) <= days_before_year(b),
    decreases b - a,
{
    if a < b {
        lemma_days_before_year_monotone(a, b - 1);
    }
}

/// The unique calendar reading of a day number; `epoch_day_of` is injective
/// on valid dates, so this picks out exactly one triple.
pub open spec fn ymd_of_day(days: int) -> (int, int, int) {
    choose|t: (int, int, int)|
        valid_ymd(t.0, t.1, t.2) && epoch_day_of(t.0, t.1, t.2) == days
}

/// A date's day number determines its year, month and day.
pub proof fn lemma_epoch_day_injective(a: (int, int, int), b: (int, int, int))
    requires
        valid_ymd(a.0, a.1, a.2),
        valid_ymd(b.0, b.1, b.2),
        epoch_day_of(a.0, a.1, a.2) == epoch_day_of(b.0, b.1, b.2),
    ensures
        a == b,
{
    if a.0 != b.0 {
        let (lo, hi) = if a.0 < b.0 {
            (a, b)
        } else {
            (b, a)
        };
        lemma_epoch_day_year_bounds(lo.0, lo.1, lo.2);
        lemma_epoch_day_year_bounds(hi.0, hi.1, hi.2);
        lemma_days_before_year_monotone(lo.0 + 1, hi.0);
        assert(false);
    } else if a.1 != b.1 {
        let (lo, hi) = if a.1 < b.1 {
            (a, b)
        } else {
            (b, a)
        };
        lemma_days_before_month_monotone(lo.0, lo.1 + 1, hi.1);
        assert(days_before_month(lo.0, lo.1 + 1) == days_before_month(lo.0, lo.1)
            + spec_days_in_month(lo.0, lo.1));
        assert(false);
    }
}

/// A valid date's day number lies within its year's span.
proof fn lemma_epoch_day_year_bounds(y: int, m: int, d: int)
    requires
        valid_ymd(y, m, d),
    ensures
        days_before_year(y) <= epoch_day_of(y, m, d) < days_before_year(y + 1),
{
    lemma_days_before_month_monotone(y, 1, m);
    lemma_days_before_month_monotone(y, m + 1, 13);
    lemma_months_cover_year(y);
    assert(days_before_month(y, m + 1) == days_before_month(y, m) + spec_days_in_month(y, m));
}

/// Ties `ymd_of_day` to a known valid date.
pub proof fn lemma_ymd_of_day(y: int, m: int, d: int)
    requires
        valid_ymd(y, m, d),
    ensures
        ymd_of_day(epoch_day_of(y, m, d)) == (y, m, d),
{
    let days = epoch_day_of(y, m, d);
    let w = (y, m, d);
    assert(valid_ymd(w.0, w.1, w.2) && epoch_day_of(w.0, w.1, w.2) == days);
    assert(exists|t: (int, int, int)|
        valid_ymd(t.0, t.1, t.2) && epoch_day_of(t.0, t.1, t.2) == days);
    let t = ymd_of_day(days);
    assert(valid_ymd(t.0, t.1, t.2) && epoch_day_of(t.0, t.1, t.2) == days);
    lemma_epoch_day_injective(t, w);
}

/// Last representable second: 23:59:59 on 9999-12-31 UTC.
pub const MAX_INSTANT_SECS: u64 = 253402300799;

/// A UTC instant, stored as whole seconds since 1970-01-01T00:00:00Z.
#[derive(Clone, Copy, PartialEq, Eq, Structural, Debug)]
pub struct Instant {
    secs: u64,
}

/// The day number an instant falls on.
pub open spec fn spec_date_of(secs: int) -> int {
    secs / 86400
}

impl Instant {
    pub closed spec fn spec_secs(self) -> u64 {
        self.secs
    }

    pub open spec fn wf(self) -> bool {
        self.spec_secs() <= MAX_INSTANT_SECS
    }

    #[verifier::when_used_as_spec(spec_secs)]
    pub fn secs(self) -> (r: u64)
        ensures
            r == self.spec_secs(),
    {
        self.secs
    }

    /// Wraps a count of seconds since the epoch; out of the supported
    /// calendar (1970 through 9999), `None`.
    pub fn from_secs(secs: i64) -> (r: Option<Instant>)
        ensures
            0 <= secs <= MAX_INSTANT_SECS ==> (r matches Some(t) && t.spec_secs() == secs
                && t.wf()),
            !(0 <= secs <= MAX_INSTANT_SECS) ==> r is None,
    {
        if 0 <= secs && secs <= MAX_INSTANT_SECS as i64 {
            Some(Instant { secs: secs as u64 })
        } else {
            None
        }
    }

    /// The instant at `h:mi:s` UTC on the calendar date `y-m-d`.
    pub fn from_ymd_hms(y: u64, m: u64, d: u64, h: u64, mi: u64, s: u64) -> (r: Option<Instant>)
        ensures
            valid_ymd(y as int, m as int, d as int) && h < 24 && mi < 60 && s < 60 ==> (r matches
                Some(t) && t.wf() && t.spec_secs() == epoch_day_of(y as int, m as int, d as int)
                * 86400 + h * 3600 + mi * 60 + s),
            !(valid_ymd(y as int, m as int, d as int) && h < 24 && mi < 60 && s < 60) ==> r
                is None,
    {
        if !(h < 24 && mi < 60 && s < 60) {
            return None;
        }
        match Date::from_ymd(y, m, d) {
            None => None,
            Some(date) => {
                let secs: u64 = date.days() * 86400 + h * 3600 + mi * 60 + s;
                Some(Instant { secs })
            },
        }
    }

    /// The calendar date this instant falls on (UTC).
    pub fn date(self) -> (r: Date)
        requires
            self.wf(),
        ensures
            r.wf(),
            r.spec_days() == spec_date_of(self.spec_secs() as int),
    {
        proof {
            vstd::arithmetic::div_mod::lemma_div_is_ordered(
                self.secs as int,
                MAX_INSTANT_SECS as int,
                86400,
            );
        }
        Date { days: self.secs / 86400 }
    }
}

/// Whether the calendar date of a second count lies inside the optional
/// bounds.
pub open spec fn spec_secs_in_range(secs: int, from: Option<Date>, to: Option<Date>) -> bool {
    &&& (from matches Some(f) ==> spec_date_of(secs) >= f.spec_days())
    &&& (to matches Some(b) ==> spec_date_of(secs) <= b.spec_days())
}

/// Whether an instant's calendar date lies inside the optional bounds.
pub open spec fn spec_in_range(t: Instant, from: Option<Date>, to: Option<Date>) -> bool {
    spec_secs_in_range(t.spec_secs() as int, from, to)
}

/// An event is kept only when its creation date lies inside `[from, to]`;
/// a missing bound is open.
pub fn in_range(t: Instant, from: Option<Date>, to: Option<Date>) -> (r: bool)
    requires
        t.wf(),
    ensures
        r == spec_in_range(t, from, to),
{
    let date = t.date();
    if let Some(f) = from {
        if date.days() < f.days() {
            return false;
        }
    }
    if let Some(b) = to {
        if date.days() > b.days() {
            return false;
        }
    }
    true
}

/// Fills missing bounds: an absent start becomes 1970-01-01, an absent end
/// becomes the given current date.
pub fn normalize_range(from: Option<Date>, to: Option<Date>, today: Date) -> (r: (Date, Date))
    ensures
        from matches Some(f) ==> r.0 == f,
        from is None ==> r.0.spec_days() == 0 && r.0.wf(),
        to matches Some(b) ==> r.1 == b,
        to is None ==> r.1 == today,
{
    let start = match from {
        Some(f) => f,
        None => Date { days: 0 },
    };
    let end = match to {
        Some(b) => b,
        None => today,
    };
    (start, end)
}

/// The start-of-day instant used as the `since` query variable, when a lower
/// bound is present.
pub fn issue_since(from: Option<Date>) -> (r: Option<Instant>)
    requires
        from matches Some(f) ==> f.wf(),
    ensures
        from matches Some(f) ==> (r matches Some(t) && t.wf() && t.spec_secs() == f.spec_days()
            * 86400),
        from is None ==> r is None,
{
    match from {
        None => None,
        Some(f) => Some(Instant { secs: f.days() * 86400 }),
    }
}

/// The UTC instant an RFC 3339 string denotes, in whole seconds since the
/// epoch, or `None` when the string is not a valid RFC 3339 date-time.
pub uninterp spec fn rfc3339_parse(s: Seq<char>) -> Option<i64>;

/// Relies on chrono's `DateTime::parse_from_rfc3339` and `timestamp`: an
/// RFC 3339 string denotes one instant, a function of its characters alone,
/// and `timestamp` is its whole-second count from the epoch under the parsed
/// offset.
#[verifier::external_body]
fn parse_rfc3339_secs(s: &str) -> (r: Option<i64>)
    ensures
        r == rfc3339_parse(s@),
{
    match chrono::DateTime::parse_from_rfc3339(s) {
        Ok(dt) => Some(dt.timestamp()),
        Err(_) => None,
    }
}

/// Reads a host-reported RFC 3339 timestamp. Strings that do not parse, or
/// that denote an instant outside the supported calendar (1970 through
/// 9999), are rejected.
pub fn parse_datetime(value: &str) -> (r: Option<Instant>)
    ensures
        r matches Some(t) ==> t.wf() && rfc3339_parse(value@) == Some(t.spec_secs() as i64),
        r is None ==> !(rfc3339_parse(value@) matches Some(s) && 0 <= s <= MAX_INSTANT_SECS),
{
    match parse_rfc3339_secs(value) {
        None => None,
        Some(secs) => Instant::from_secs(secs),
    }
}

/// The midpoint day used for bisection: `from + (to - from) / 2`, truncating.
pub fn midpoint_date(from: Date, to: Date) -> (r: Date)
    requires
        from.wf(),
        to.wf(),
        from.spec_days() <= to.spec_days(),
    ensures
        r.wf(),
        r.spec_days() == from.spec_days() + (to.spec_days() - from.spec_days()) / 2,
        from.spec_days() <= r.spec_days() <= to.spec_days(),
        from.spec_days() < to.spec_days() ==> r.spec_days() < to.spec_days(),
{
    let half: u64 = (to.days - from.days) / 2;
    Date { days: from.days + half }
}

/// An ASCII decimal digit.
pub open spec fn is_digit_char(c: char) -> bool {
    48 <= c as u32 <= 57
}

/// The value of an ASCII decimal digit.
pub open spec fn digit_value(c: char) -> int {
    c as u32 - 48
}

/// The reading of a `YYYY-MM-DD` string: four digits, a dash, two digits, a
/// dash, two digits.
pub open spec fn spec_parse_iso_date(s: Seq<char>) -> Option<(int, int, int)> {
    if s.len() == 10 && is_digit_char(s[0]) && is_digit_char(s[1]) && is_digit_char(s[2])
        && is_digit_char(s[3]) && s[4] == '-' && is_digit_char(s[5]) && is_digit_char(s[6]) && s[7]
        == '-' && is_digit_char(s[8]) && is_digit_char(s[9]) {
        Some(
            (
                1000 * digit_value(s[0]) + 100 * digit_value(s[1]) + 10 * digit_value(s[2])
                    + digit_value(s[3]),
                10 * digit_value(s[5]) + digit_value(s[6]),
                10 * digit_value(s[8]) + digit_value(s[9]),
            ),
        )
    } else {
        None
    }
}

/// Parses a `YYYY-MM-DD` date; strings of any other shape, and dates off
/// the supported calendar, are rejected.
pub fn parse_date(input: &str) -> (r: Option<Date>)
    ensures
        ({
            let parsed = spec_parse_iso_date(input@);
            match parsed {
                None => r is None,
                Some(t) => if valid_ymd(t.0, t.1, t.2) {
                    r matches Some(d) && d.wf() && d.spec_days() == epoch_day_of(t.0, t.1, t.2)
                } else {
                    r is None
                },
            }
        }),
{
    if input.unicode_len() != 10 {
        return None;
    }
    let u0 = input.get_char(0) as u32;
    let u1 = input.get_char(1) as u32;
    let u2 = input.get_char(2) as u32;
    let u3 = input.get_char(3) as u32;
    let u4 = input.get_char(4) as u32;
    let u5 = input.get_char(5) as u32;
    let u6 = input.get_char(6) as u32;
    let u7 = input.get_char(7) as u32;
    let u8 = input.get_char(8) as u32;
    let u9 = input.get_char(9) as u32;
    let dash = '-' as u32;
    if !(48 <= u0 && u0 <= 57 && 48 <= u1 && u1 <= 57 && 48 <= u2 && u2 <= 57 && 48 <= u3 && u3
        <= 57 && u4 == dash && 48 <= u5 && u5 <= 57 && 48 <= u6 && u6 <= 57 && u7 == dash && 48
        <= u8 && u8 <= 57 && 48 <= u9 && u9 <= 57) {
        return None;
    }
    let y: u64 = 1000 * ((u0 - 48) as u64) + 100 * ((u1 - 48) as u64) + 10 * ((u2 - 48) as u64) + (
    (u3 - 48) as u64);
    let m: u64 = 10 * ((u5 - 48) as u64) + ((u6 - 48) as u64);
    let d: u64 = 10 * ((u8 - 48) as u64) + ((u9 - 48) as u64);
    Date::from_ymd(y, m, d)
}

/// Splits an inclusive range into consecutive chunks of at most 365 days,
/// front to back: the host accepts only year-sized contribution windows.
pub fn review_chunks(from: Date, to: Date) -> (r: Vec<DateRange>)
    requires
        from.wf(),
        to.wf(),
    ensures
        from.spec_days() > to.spec_days() ==> r@.len() == 0,
        from.spec_days() <= to.spec_days() ==> r@.len() > 0 && r@[0].from == from && r@[r@.len()
            - 1].to == to,
        forall|i: int|
            0 <= i < r@.len() ==> (!(#[trigger] r@[i]).spec_is_empty() && r@[i].wf() && r@[
                i
            ].to.spec_days() - r@[i].from.spec_days() <= 364),
        forall|i: int|
            0 <= i < r@.len() - 1 ==> (#[trigger] r@[i + 1].from.spec_days()) == r@[
                i
            ].to.spec_days() + 1,
{
    let mut out: Vec<DateRange> = Vec::new();
    if from.days() > to.days() {
        return out;
    }
    let mut current = from;
    loop
        invariant
            from.wf(),
            to.wf(),
            current.wf(),
            from.spec_days() <= current.spec_days() <= to.spec_days(),
            out@.len() == 0 ==> current == from,
            out@.len() > 0 ==> out@[0].from == from && out@[out@.len() - 1].to.spec_days()
                == current.spec_days() - 1,
            forall|i: int|
                0 <= i < out@.len() ==> (!(#[trigger] out@[i]).spec_is_empty() && out@[i].wf()
                    && out@[i].to.spec_days() - out@[i].from.spec_days() <= 364),
            forall|i: int|
                0 <= i < out@.len() - 1 ==> (#[trigger] out@[i + 1].from.spec_days()) == out@[
                    i
                ].to.spec_days() + 1,
        decreases to.spec_days() + 1 - current.spec_days(),
    {
        let chunk_end = if to.days() - current.days() <= 364 {
            to
        } else {
            Date { days: current.days + 364 }
        };
        out.push(DateRange { from: current, to: chunk_end });
        if chunk_end.days() == to.days() {
            return out;
        }
        current = Date { days: chunk_end.days + 1 };
    }
}

} // verus!
