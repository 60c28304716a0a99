//! Character-level text helpers: decimal rendering, code-point
//! lexicographic order, whitespace trimming, and line splitting.
//!
//! All executable functions here are proved against spec functions over
//! `Seq<char>` views, so the rendering layer can state its output exactly.

use vstd::prelude::*;

use crate::dates::Date;
use crate::dates::lemma_ymd_of_day;
use crate::dates::ymd_of_day;

verus! {

/// The decimal digit character for a value below ten.
pub open spec fn digit_char(d: int) -> char {
    if d == 0 {
        '0'
    } else if d == 1 {
        '1'
    } else if d == 2 {
        '2'
    } else if d == 3 {
        '3'
    } else if d == 4 {
        '4'
    } else if d == 5 {
        '5'
    } else if d == 6 {
        '6'
    } else if d == 7 {
        '7'
    } else if d == 8 {
        '8'
    } else {
        '9'
    }
}

/// Decimal rendering of a non-negative integer, no leading zeros.
pub open spec fn spec_dec(n: int) -> Seq<char>
    decreases n,
{
    if n < 10 {
        seq![digit_char(n)]
    } else {
        spec_dec(n / 10).push(digit_char(n % 10))
    }
}

/// Decimal rendering padded on the left to two digits.
pub open spec fn spec_dec2(n: int) -> Seq<char> {
    if n < 10 {
        seq!['0'].add(spec_dec(n))
    } else {
        spec_dec(n)
    }
}

fn digit_str(d: u64) -> (r: &'static str)
    requires
        d < 10,
    ensures
        r@ == seq![digit_char(d as int)],
{
    proof {
        reveal_strlit("0");
        reveal_strlit("1");
        reveal_strlit("2");
        reveal_strlit("3");
        reveal_strlit("4");
        reveal_strlit("5");
        reveal_strlit("6");
        reveal_strlit("7");
        reveal_strlit("8");
        reveal_strlit("9");
    }
    if d == 0 {
        "0"
    } else if d == 1 {
        "1"
    } else if d == 2 {
        "2"
    } else if d == 3 {
        "3"
    } else if d == 4 {
        "4"
    } else if d == 5 {
        "5"
    } else if d == 6 {
        "6"
    } else if d == 7 {
        "7"
    } else if d == 8 {
        "8"
    } else {
        "9"
    }
}

/// Appends the decimal rendering of `n` to `out`.
pub fn push_dec(out: &mut String, n: u64)
    ensures
        final(out)@ == old(out)@ + spec_dec(n as int),
    decreases n,
{
    if n < 10 {
        out.append(digit_str(n));
    } else {
        push_dec(out, n / 10);
        out.append(digit_str(n % 10));
    }
}

/// Appends `n` as two digits, zero-padded.
pub fn push_dec2(out: &mut String, n: u64)
    ensures
        final(out)@ == old(out)@ + spec_dec2(n as int),
{
    if n < 10 {
        proof {
            reveal_strlit("0");
        }
        out.append("0");
    }
    push_dec(out, n);
}

/// The `YYYY-MM-DD` rendering of a day number, through its unique calendar
/// reading.
pub open spec fn spec_date_str(days: int) -> Seq<char> {
    let (y, m, d) = ymd_of_day(days);
    spec_dec(y) + seq!['-'] + spec_dec2(m) + seq!['-'] + spec_dec2(d)
}

/// Strict lexicographic order on code points, the order `str` comparison
/// gives (byte order on UTF-8 agrees with code-point order).
pub open spec fn lex_lt(a: Seq<char>, b: Seq<char>) -> bool
    decreases a.len(),
{
    if b.len() == 0 {
        false
    } else if a.len() == 0 {
        true
    } else if a[0] != b[0] {
        (a[0] as u32) < (b[0] as u32)
    } else {
        lex_lt(a.drop_first(), b.drop_first())
    }
}

fn str_lt_rec(a: &str, b: &str, i: usize, alen: usize, blen: usize) -> (r: bool)
    requires
        alen == a@.len(),
        blen == b@.len(),
        i <= alen,
        i <= blen,
    ensures
        r == lex_lt(a@.skip(i as int), b@.skip(i as int)),
    decreases alen - i,
{
    if i >= blen {
        false
    } else if i >= alen {
        true
    } else {
        let ca = a.get_char(i);
        let cb = b.get_char(i);
        if ca as u32 != cb as u32 {
            proof {
                assert(a@.skip(i as int)[0] == a@[i as int]);
                assert(b@.skip(i as int)[0] == b@[i as int]);
            }
            (ca as u32) < (cb as u32)
        } else {
            let r = str_lt_rec(a, b, i + 1, alen, blen);
            proof {
                assert(a@.skip(i as int)[0] == a@[i as int]);
                assert(b@.skip(i as int)[0] == b@[i as int]);
                assert(a@.skip(i as int).drop_first() =~= a@.skip(i as int + 1));
                assert(b@.skip(i as int).drop_first() =~= b@.skip(i as int + 1));
            }
            r
        }
    }
}

/// Code-point lexicographic comparison of two strings.
pub fn str_lt(a: &str, b: &str) -> (r: bool)
    ensures
        r == lex_lt(a@, b@),
{
    let alen = a.unicode_len();
    let blen = b.unicode_len();
    proof {
        assert(a@.skip(0) =~= a@);
        assert(b@.skip(0) =~= b@);
    }
    str_lt_rec(a, b, 0, alen, blen)
}

fn str_eq_rec(a: &str, b: &str, i: usize, len: usize) -> (r: bool)
    requires
        len == a@.len(),
        len == b@.len(),
        i <= len,
        forall|k: int| 0 <= k < i ==> a@[k] == b@[k],
    ensures
        r == (a@ == b@),
    decreases len - i,
{
    if i >= len {
        proof {
            assert(a@ =~= b@);
        }
        true
    } else {
        let ca = a.get_char(i);
        let cb = b.get_char(i);
        if ca as u32 != cb as u32 {
            proof {
                assert(a@[i as int] != b@[i as int]);
            }
            false
        } else {
            str_eq_rec(a, b, i + 1, len)
        }
    }
}

/// Whether two strings hold the same characters.
pub fn str_eq(a: &str, b: &str) -> (r: bool)
    ensures
        r == (a@ == b@),
{
    let alen = a.unicode_len();
    let blen = b.unicode_len();
    if alen != blen {
        false
    } else {
        str_eq_rec(a, b, 0, alen)
    }
}

/// The Unicode White_Space code points, the set `char::is_whitespace` tests.
pub open spec fn is_ws_char(c: char) -> bool {
    let u = c as u32;
    ||| u == 9
    ||| u == 10
    ||| u == 11
    ||| u == 12
    ||| u == 13
    ||| u == 32
    ||| u == 0x85
    ||| u == 0xA0
    ||| u == 0x1680
    ||| (0x2000 <= u && u <= 0x200A)
    ||| u == 0x2028
    ||| u == 0x2029
    ||| u == 0x202F
    ||| u == 0x205F
    ||| u == 0x3000
}

fn is_ws(c: char) -> (r: bool)
    ensures
        r == is_ws_char(c),
{
    let u = c as u32;
    u == 9 || u == 10 || u == 11 || u == 12 || u == 13 || u == 32 || u == 0x85 || u == 0xA0 || u
        == 0x1680 || (0x2000 <= u && u <= 0x200A) || u == 0x2028 || u == 0x2029 || u == 0x202F || u
        == 0x205F || u == 0x3000
}

pub open spec fn trim_front(s: Seq<char>) -> Seq<char>
    decreases s.len(),
{
    if s.len() > 0 && is_ws_char(s[0]) {
        trim_front(s.drop_first())
    } else {
        s
    }
}

pub open spec fn trim_back(s: Seq<char>) -> Seq<char>
    decreases s.len(),
{
    if s.len() > 0 && is_ws_char(s.last()) {
        trim_back(s.drop_last())
    } else {
        s
    }
}

/// What `str::trim` leaves: the string without leading and trailing
/// whitespace.
pub open spec fn spec_trim(s: Seq<char>) -> Seq<char> {
    trim_back(trim_front(s))
}

/// Trims leading and trailing whitespace, by code point.
pub fn trim_str<'a>(s: &'a str) -> (r: &'a str)
    ensures
        r@ == spec_trim(s@),
{
    let len = s.unicode_len();
    let mut i: usize = 0;
    proof {
        assert(s@.skip(0) =~= s@);
    }
    while i < len && is_ws(s.get_char(i))
        invariant
            0 <= i <= len,
            len == s@.len(),
            trim_front(s@) == trim_front(s@.skip(i as int)),
        decreases len - i,
    {
        proof {
            assert(s@.skip(i as int)[0] == s@[i as int]);
            assert(s@.skip(i as int).drop_first() =~= s@.skip(i as int + 1));
        }
        i = i + 1;
    }
    proof {
        if i < len {
            assert(s@.skip(i as int)[0] == s@[i as int]);
        }
        assert(trim_front(s@) == s@.skip(i as int));
    }
    let ghost f = s@.skip(i as int);
    let mut j: usize = len;
    proof {
        assert(f.take(len - i as int) =~= f);
    }
    while j > i && is_ws(s.get_char(j - 1))
        invariant
            i <= j <= len,
            len == s@.len(),
            f == s@.skip(i as int),
            trim_back(f) == trim_back(f.take(j - i as int)),
        decreases j,
    {
        proof {
            let k = j - i as int;
            assert(f.take(k).last() == f[k - 1]);
            assert(f[k - 1] == s@[j - 1]);
            assert(f.take(k).drop_last() =~= f.take(k - 1));
        }
        j = j - 1;
    }
    proof {
        if j > i {
            let k = j - i as int;
            assert(f.take(k).last() == f[k - 1]);
            assert(f[k - 1] == s@[j - 1]);
        }
        assert(trim_back(f) == f.take(j - i as int));
        assert(f.take(j - i as int) =~= s@.subrange(i as int, j as int));
    }
    s.substring_char(i, j)
}

/// Index of the first newline, or -1 when there is none.
pub open spec fn spec_find_nl(s: Seq<char>) -> int
    decreases s.len(),
{
    if s.len() == 0 {
        -1
    } else if s[0] == '\n' {
        0
    } else {
        let r = spec_find_nl(s.drop_first());
        if r < 0 {
            -1
        } else {
            1 + r
        }
    }
}

pub proof fn lemma_find_nl_bounds(s: Seq<char>)
    ensures
        -1 <= spec_find_nl(s) < s.len(),
        spec_find_nl(s) >= 0 ==> s[spec_find_nl(s)] == '\n',
    decreases s.len(),
{
    if s.len() > 0 && s[0] != '\n' {
        lemma_find_nl_bounds(s.drop_first());
    }
}

/// The lines of a string, split on `'\n'`.
pub open spec fn split_newlines(s: Seq<char>) -> Seq<Seq<char>>
    decreases s.len(),
    via split_newlines_dec
{
    let p = spec_find_nl(s);
    if p < 0 {
        seq![s]
    } else {
        seq![s.take(p)] + split_newlines(s.skip(p + 1))
    }
}

#[via_fn]
proof fn split_newlines_dec(s: Seq<char>) {
    lemma_find_nl_bounds(s);
}

proof fn lemma_find_nl_at(s: Seq<char>, p: int)
    requires
        0 <= p < s.len(),
        s[p] == '\n',
        forall|k: int| 0 <= k < p ==> s[k] != '\n',
    ensures
        spec_find_nl(s) == p,
    decreases p,
{
    if p > 0 {
        lemma_find_nl_at(s.drop_first(), p - 1);
    }
}

proof fn lemma_find_nl_none(s: Seq<char>)
    requires
        forall|k: int| 0 <= k < s.len() ==> s[k] != '\n',
    ensures
        spec_find_nl(s) == -1,
    decreases s.len(),
{
    if s.len() > 0 {
        lemma_find_nl_none(s.drop_first());
    }
}

/// Splits a string into its newline-separated lines.
pub fn split_lines(s: &str) -> (r: Vec<String>)
    ensures
        r.deep_view() == split_newlines(s@),
    decreases s@.len(),
{
    let len = s.unicode_len();
    let mut i: usize = 0;
    while i < len && s.get_char(i) as u32 != '\n' as u32
        invariant
            0 <= i <= len,
            len == s@.len(),
            forall|k: int| 0 <= k < i ==> s@[k] != '\n',
        decreases len - i,
    {
        i = i + 1;
    }
    if i >= len {
        proof {
            lemma_find_nl_none(s@);
        }
        let mut out: Vec<String> = Vec::new();
        out.push(String::from_str(s));
        proof {
            assert(out.deep_view() =~= seq![s@]);
        }
        out
    } else {
        proof {
            lemma_find_nl_at(s@, i as int);
        }
        let head = s.substring_char(0, i);
        let tail = s.substring_char(i + 1, len);
        proof {
            assert(tail@ =~= s@.skip(i as int + 1));
        }
        let mut out = split_lines(tail);
        out.insert(0, String::from_str(head));
        proof {
            assert(head@ =~= s@.take(i as int));
            assert(out.deep_view() =~= seq![s@.take(i as int)] + split_newlines(
                s@.skip(i as int + 1),
            ));
        }
        out
    }
}

/// What trailing newlines remain to be removed leaves behind, the effect of
/// trimming `'\n'` from the end.
pub open spec fn trim_nl_back(s: Seq<char>) -> Seq<char>
    decreases s.len(),
{
    if s.len() > 0 && s.last() == '\n' {
        trim_nl_back(s.drop_last())
    } else {
        s
    }
}

/// Removes every trailing newline.
pub fn trim_trailing_newlines<'a>(s: &'a str) -> (r: &'a str)
    ensures
        r@ == trim_nl_back(s@),
{
    let len = s.unicode_len();
    let mut j: usize = len;
    proof {
        assert(s@.take(len as int) =~= s@);
    }
    while j > 0 && s.get_char(j - 1) as u32 == '\n' as u32
        invariant
            0 <= j <= len,
            len == s@.len(),
            trim_nl_back(s@) == trim_nl_back(s@.take(j as int)),
        decreases j,
    {
        proof {
            assert(s@.take(j as int).last() == s@[j - 1]);
            assert(s@.take(j as int).drop_last() =~= s@.take(j as int - 1));
        }
        j = j - 1;
    }
    proof {
        if j > 0 {
            assert(s@.take(j as int).last() == s@[j - 1]);
        }
        assert(trim_nl_back(s@) == s@.take(j as int));
        assert(s@.take(j as int) =~= s@.subrange(0, j as int));
    }
    s.substring_char(0, j)
}

/// Lines joined with a blank line (two newlines) between them.
pub open spec fn join_blank(ls: Seq<Seq<char>>) -> Seq<char>
    decreases ls.len(),
{
    if ls.len() == 0 {
        Seq::empty()
    } else if ls.len() == 1 {
        ls[0]
    } else {
        ls[0] + "\n\n"@ + join_blank(ls.drop_first())
    }
}

pub proof fn lemma_join_blank_push(ls: Seq<Seq<char>>, x: Seq<char>)
    ensures
        join_blank(ls.push(x)) == if ls.len() == 0 {
            x
        } else {
            join_blank(ls) + "\n\n"@ + x
        },
    decreases ls.len(),
{
    if ls.len() == 0 {
        assert(ls.push(x)[0] == x);
        assert(join_blank(ls.push(x)) == x);
    } else {
        lemma_join_blank_push(ls.drop_first(), x);
        assert(ls.push(x).drop_first() =~= ls.drop_first().push(x));
        assert(ls.push(x)[0] == ls[0]);
        if ls.len() == 1 {
            assert(join_blank(ls) == ls[0]);
        }
    }
}

/// The view of an optional string.
pub open spec fn opt_str_view(o: Option<String>) -> Option<Seq<char>> {
    match o {
        Some(s) => Some(s@),
        None => None,
    }
}

/// Pieces joined with the given separator between them.
pub open spec fn join_sep(ls: Seq<Seq<char>>, sep: Seq<char>) -> Seq<char>
    decreases ls.len(),
{
    if ls.len() == 0 {
        Seq::empty()
    } else if ls.len() == 1 {
        ls[0]
    } else {
        ls[0] + sep + join_sep(ls.drop_first(), sep)
    }
}

pub proof fn lemma_join_sep_push(ls: Seq<Seq<char>>, sep: Seq<char>, x: Seq<char>)
    ensures
        join_sep(ls.push(x), sep) == if ls.len() == 0 {
            x
        } else {
            join_sep(ls, sep) + sep + x
        },
    decreases ls.len(),
{
    if ls.len() == 0 {
        assert(ls.push(x)[0] == x);
        assert(join_sep(ls.push(x), sep) == x);
    } else {
        lemma_join_sep_push(ls.drop_first(), sep, x);
        assert(ls.push(x).drop_first() =~= ls.drop_first().push(x));
        assert(ls.push(x)[0] == ls[0]);
        if ls.len() == 1 {
            assert(join_sep(ls, sep) == ls[0]);
        }
    }
}

/// Lines joined with `'\n'` between them.
pub open spec fn join_nl(ls: Seq<Seq<char>>) -> Seq<char>
    decreases ls.len(),
{
    if ls.len() == 0 {
        Seq::empty()
    } else if ls.len() == 1 {
        ls[0]
    } else {
        ls[0] + seq!['\n'] + join_nl(ls.drop_first())
    }
}

impl Date {
    /// Renders this date as `YYYY-MM-DD`.
    pub fn format_iso(self) -> (r: String)
        requires
            self.wf(),
        ensures
            r@ == spec_date_str(self.spec_days() as int),
    {
        let (y, m, d) = self.to_ymd();
        proof {
            lemma_ymd_of_day(y as int, m as int, d as int);
            reveal_strlit("-");
        }
        let mut out = String::new();
        push_dec(&mut out, y);
        out.append("-");
        push_dec2(&mut out, m);
        out.append("-");
        push_dec2(&mut out, d);
        out
    }
}

/// The code point with an ASCII capital letter lowered.
pub open spec fn lower_u32(c: char) -> u32 {
    let u = c as u32;
    if 65 <= u <= 90 {
        (u + 32) as u32
    } else {
        u
    }
}

/// ASCII-case-insensitive string equality.
pub open spec fn spec_eq_ignore_ascii_case(a: Seq<char>, b: Seq<char>) -> bool {
    a.len() == b.len() && forall|i: int| 0 <= i < a.len() ==> lower_u32(a[i]) == lower_u32(#[trigger] b[i])
}

fn lower_exec(c: char) -> (r: u32)
    ensures
        r == lower_u32(c),
{
    let u = c as u32;
    if 65 <= u && u <= 90 {
        u + 32
    } else {
        u
    }
}

/// Compares two strings ignoring ASCII case.
pub fn str_eq_ignore_ascii_case(a: &str, b: &str) -> (r: bool)
    ensures
        r == spec_eq_ignore_ascii_case(a@, b@),
{
    let alen = a.unicode_len();
    let blen = b.unicode_len();
    if alen != blen {
        return false;
    }
    let mut i: usize = 0;
    while i < alen
        invariant
            0 <= i <= alen,
            alen == a@.len(),
            alen == b@.len(),
            forall|k: int| 0 <= k < i ==> lower_u32(a@[k]) == lower_u32(#[trigger] b@[k]),
        decreases alen - i,
    {
        if lower_exec(a.get_char(i)) != lower_exec(b.get_char(i)) {
            return false;
        }
        i = i + 1;
    }
    true
}

} // verus!
