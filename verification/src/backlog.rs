//! Open backlog items and their age: `- [ ]` lines, with an optional
//! trailing `Added YYYY-MM-DD` marker.
use vstd::prelude::*;
use vstd::string::*;
use crate::calendar::count_days;
use crate::chars::{cut, parse_u64, split_lines, trimmed, trimmed_end};
use crate::text::{chars_of, string_of};

verus! {

use crate::calendar::{civil_days, lemma_days_from_year_zero};
use crate::chars::{is_digit, lines, parsed_u64, trim, trim_end, views};

/// One open item.
#[derive(Debug, Clone, PartialEq)]
pub struct BacklogItem {
    pub text: String,
    /// Days since 1970-01-01, when the item carries a date.
    pub added_days: Option<i64>,
}

/// `pat` stands in `s` at position `i`.
pub open spec fn stands_at(s: Seq<char>, pat: Seq<char>, i: int) -> bool {
    0 <= i && i + pat.len() <= s.len() && s.subrange(i, i + pat.len()) == pat
}

/// The last position up to `n` at which `pat` stands.
pub open spec fn last_at(s: Seq<char>, pat: Seq<char>, n: int) -> Option<int>
    decreases n + 1,
{
    if n < 0 {
        None
    } else if stands_at(s, pat, n) {
        Some(n)
    } else {
        last_at(s, pat, n - 1)
    }
}

/// A character that a date may hold.
pub open spec fn date_char(c: char) -> bool {
    is_digit(c) || c == '-'
}

/// The leading characters that a date may hold.
pub open spec fn date_run(s: Seq<char>) -> Seq<char>
    decreases s.len(),
{
    if s.len() == 0 || !date_char(s[0]) {
        Seq::empty()
    } else {
        seq![s[0]] + date_run(s.drop_first())
    }
}

/// The pieces between dashes.
pub open spec fn dash_parts(s: Seq<char>) -> Seq<Seq<char>>
    decreases s.len(),
{
    if s.len() == 0 {
        seq![Seq::empty()]
    } else {
        let front = dash_parts(s.drop_last());
        if s.last() == '-' {
            front.push(Seq::empty())
        } else {
            front.drop_last().push(front.last().push(s.last()))
        }
    }
}

/// The day of a date: exactly year, month and day, in range, and a day
/// that 64 bits can count.
pub open spec fn date_days(s: Seq<char>) -> Option<i64> {
    let p = dash_parts(s);
    if p.len() != 3 {
        None
    } else {
        match (parsed_u64(p[0]), parsed_u64(p[1]), parsed_u64(p[2])) {
            (Some(y), Some(m), Some(d)) => if 1 <= m <= 12 && 1 <= d <= 31 && civil_days(
                y as int,
                m as int,
                d as int,
            ) <= i64::MAX {
                Some(civil_days(y as int, m as int, d as int) as i64)
            } else {
                None
            },
            _ => None,
        }
    }
}

/// Where the last date marker of a text starts.
pub open spec fn marker_at(s: Seq<char>) -> Option<int> {
    last_at(s, "Added "@, s.len() as int)
}

/// The day that the last date marker of a text names.
pub open spec fn added_days(s: Seq<char>) -> Option<i64> {
    match marker_at(s) {
        Some(i) => date_days(date_run(s.skip(i + "Added "@.len()))),
        None => None,
    }
}

/// The item of a line: its text without the date marker, and its day.
pub open spec fn item_of(line: Seq<char>) -> Option<(Seq<char>, Option<i64>)> {
    let t = trim(line);
    if "- [ ] "@.is_prefix_of(t) {
        let rest = t.skip("- [ ] "@.len() as int);
        let day = added_days(rest);
        Some(
            (
                if day is Some {
                    trim_end(rest.take(marker_at(rest)->0))
                } else {
                    trim(rest)
                },
                day,
            ),
        )
    } else {
        None
    }
}

/// The items of the first `n` lines.
pub open spec fn items_of(all: Seq<Seq<char>>, n: int) -> Seq<(Seq<char>, Option<i64>)>
    decreases n,
{
    if n <= 0 {
        Seq::empty()
    } else {
        match item_of(all[n - 1]) {
            Some(item) => items_of(all, n - 1).push(item),
            None => items_of(all, n - 1),
        }
    }
}

/// Items as texts and days.
pub open spec fn item_texts(items: Seq<BacklogItem>) -> Seq<(Seq<char>, Option<i64>)> {
    items.map_values(|b: BacklogItem| (b.text@, b.added_days))
}

/// Whether `pat` stands in `v` at `i`.
fn stands(v: &Vec<char>, pat: &Vec<char>, i: usize) -> (r: bool)
    requires
        i <= v@.len(),
    ensures
        r == stands_at(v@, pat@, i as int),
{
    let n: usize = v.len();
    if n - i < pat.len() {
        return false;
    }
    let mut k: usize = 0;
    while k < pat.len()
        invariant
            k <= pat@.len(),
            n == v@.len(),
            i + pat@.len() <= n,
            forall|j: int| 0 <= j < k ==> #[trigger] pat@[j] == v@[i + j],
        decreases pat@.len() - k,
    {
        if v[i + k] != pat[k] {
            proof {
                assert(v@.subrange(i as int, i + pat@.len())[k as int] != pat@[k as int]);
            }
            return false;
        }
        k = k + 1;
    }
    proof {
        assert(v@.subrange(i as int, i + pat@.len()) =~= pat@);
    }
    true
}

/// The last position at which `pat` stands.
fn rfind(v: &Vec<char>, pat: &Vec<char>) -> (r: Option<usize>)
    ensures
        match r {
            Some(i) => last_at(v@, pat@, v@.len() as int) == Some(i as int) && stands_at(
                v@,
                pat@,
                i as int,
            ),
            None => last_at(v@, pat@, v@.len() as int) is None,
        },
{
    let mut n: usize = v.len();
    loop
        invariant
            n <= v@.len(),
            last_at(v@, pat@, v@.len() as int) == last_at(v@, pat@, n as int),
        decreases n,
    {
        if stands(v, pat, n) {
            return Some(n);
        }
        if n == 0 {
            proof {
                assert(last_at(v@, pat@, -1) is None);
            }
            return None;
        }
        n = n - 1;
    }
}

/// A date run is a prefix.
proof fn lemma_date_run_is(s: Seq<char>, k: int)
    requires
        0 <= k <= s.len(),
        forall|i: int| 0 <= i < k ==> date_char(#[trigger] s[i]),
        k < s.len() ==> !date_char(s[k]),
    ensures
        date_run(s) == s.take(k),
    decreases k,
{
    if k > 0 {
        let t = s.drop_first();
        assert(date_char(s[0]));
        assert forall|i: int| 0 <= i < k - 1 implies date_char(#[trigger] t[i]) by {
            assert(t[i] == s[i + 1]);
        }
        lemma_date_run_is(t, k - 1);
        assert(seq![s[0]] + t.take(k - 1) =~= s.take(k));
    } else {
        assert(s.take(0) =~= Seq::<char>::empty());
    }
}

/// Split at dashes.
fn split_dashes(v: &Vec<char>) -> (r: Vec<Vec<char>>)
    ensures
        views(r@) == dash_parts(v@),
{
    let mut out: Vec<Vec<char>> = Vec::new();
    let mut piece: Vec<char> = Vec::new();
    let mut i: usize = 0;
    proof {
        assert(v@.take(0) =~= Seq::<char>::empty());
        assert(views(out@).push(piece@) =~= dash_parts(v@.take(0)));
    }
    while i < v.len()
        invariant
            i <= v@.len(),
            views(out@).push(piece@) == dash_parts(v@.take(i as int)),
        decreases v@.len() - i,
    {
        let c: char = v[i];
        proof {
            assert(v@.take(i + 1).drop_last() =~= v@.take(i as int));
            assert(v@.take(i + 1).last() == c);
        }
        let ghost before = views(out@);
        let ghost held = piece@;
        if c == '-' {
            out.push(piece);
            piece = Vec::new();
            proof {
                assert(views(out@) =~= before.push(held));
                assert(piece@ =~= Seq::<char>::empty());
            }
        } else {
            piece.push(c);
            proof {
                assert(before.push(held).drop_last() =~= before);
            }
        }
        i = i + 1;
    }
    let ghost before = views(out@);
    out.push(piece);
    proof {
        assert(v@.take(i as int) =~= v@);
        assert(views(out@) =~= before.push(piece@));
    }
    out
}

/// The day of a date.
fn parse_date(v: &Vec<char>) -> (r: Option<i64>)
    ensures
        r == date_days(v@),
{
    let p = split_dashes(v);
    proof {
        assert(views(p@).len() == p@.len());
    }
    if p.len() != 3 {
        return None;
    }
    proof {
        assert(views(p@)[0] == p@[0]@);
        assert(views(p@)[1] == p@[1]@);
        assert(views(p@)[2] == p@[2]@);
    }
    let y: Option<u64> = parse_u64(&p[0]);
    let m: Option<u64> = parse_u64(&p[1]);
    let d: Option<u64> = parse_u64(&p[2]);
    match (y, m, d) {
        (Some(y), Some(m), Some(d)) => {
            if m < 1 || m > 12 || d < 1 || d > 31 {
                return None;
            }
            let days: i128 = count_days(y as i128, m as i128, d as i128);
            proof {
                lemma_days_from_year_zero(y as int, m as int, d as int);
            }
            if days <= i64::MAX as i128 {
                Some(days as i64)
            } else {
                None
            }
        },
        _ => None,
    }
}

/// The day that the last date marker of a text names.
pub fn find_added_days(text: &str) -> (r: Option<i64>)
    ensures
        r == added_days(text@),
{
    let v = chars_of(text);
    find_added(&v).1
}

/// Where the last date marker stands, and the day that it names.
fn find_added(v: &Vec<char>) -> (r: (Option<usize>, Option<i64>))
    ensures
        r.1 == added_days(v@),
        match r.0 {
            Some(i) => marker_at(v@) == Some(i as int) && i <= v@.len(),
            None => marker_at(v@) is None,
        },
{
    let marker = chars_of("Added ");
    match rfind(v, &marker) {
        None => (None, None),
        Some(i) => {
            let n: usize = v.len();
            let from: usize = i + marker.len();
            let ghost tail = v@.skip(from as int);
            let mut end: usize = from;
            while end < n && ((v[end] >= '0' && v[end] <= '9') || v[end] == '-')
                invariant
                    n == v@.len(),
                    from <= end <= n,
                    tail == v@.skip(from as int),
                    forall|j: int| 0 <= j < end - from ==> date_char(#[trigger] tail[j]),
                decreases n - end,
            {
                proof {
                    assert(tail[end - from] == v@[end as int]);
                }
                end = end + 1;
            }
            let date = cut(v, from, end);
            proof {
                if end < n {
                    assert(tail[end - from] == v@[end as int]);
                }
                lemma_date_run_is(tail, end - from);
                assert(date@ =~= tail.take(end - from));
            }
            (Some(i), parse_date(&date))
        },
    }
}

/// A run of characters as a string.
fn text(v: &Vec<char>) -> (r: String)
    ensures
        r@ == v@,
{
    let r = string_of(v.as_slice(), 0, v.len());
    proof {
        assert(v@.subrange(0, v@.len() as int) =~= v@);
    }
    r
}

/// The open items of a backlog; done items, headings and prose are not
/// items, and an item without a date stays one.
pub fn parse_backlog(backlog: &str) -> (r: Vec<BacklogItem>)
    ensures
        item_texts(r@) == items_of(lines(backlog@), lines(backlog@).len() as int),
{
    let v = chars_of(backlog);
    let all = split_lines(&v);
    let prefix = chars_of("- [ ] ");
    let mut out: Vec<BacklogItem> = Vec::new();
    let ghost ls = lines(backlog@);
    let mut i: usize = 0;
    proof {
        assert(views(all@).len() == all@.len());
        assert(item_texts(out@) =~= items_of(ls, 0));
    }
    while i < all.len()
        invariant
            i <= all@.len(),
            ls == views(all@),
            prefix@ == "- [ ] "@,
            item_texts(out@) == items_of(ls, i as int),
        decreases all@.len() - i,
    {
        let t = trimmed(&all[i]);
        proof {
            assert(ls[i as int] == all@[i as int]@);
        }
        if stands(&t, &prefix, 0) {
            let rest = cut(&t, prefix.len(), t.len());
            proof {
                assert(prefix@.is_prefix_of(t@));
                assert(rest@ =~= t@.skip(prefix@.len() as int));
            }
            let (at, day) = find_added(&rest);
            let shown: Vec<char> = match (at, day) {
                (Some(k), Some(_)) => {
                    let front = cut(&rest, 0, k);
                    proof {
                        assert(front@ =~= rest@.take(k as int));
                    }
                    trimmed_end(&front)
                },
                _ => trimmed(&rest),
            };
            let item = BacklogItem { text: text(&shown), added_days: day };
            let ghost before = item_texts(out@);
            out.push(item);
            proof {
                assert(item_texts(out@) =~= before.push((item.text@, item.added_days)));
                assert(item_of(ls[i as int]) == Some((shown@, day)));
            }
        } else {
            proof {
                assert(!prefix@.is_prefix_of(t@));
            }
        }
        i = i + 1;
    }
    out
}

} // verus!
