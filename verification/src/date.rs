//! Calendar dates held as plain year/month/day values, an order-preserving
//! integer embedding, and the work enumerator for an inclusive date range
//! walked with a fixed stride.

use vstd::prelude::*;

use crate::text::{push_dec2, push_dec4, spec_dec2, spec_dec4};

verus! {

/// A Gregorian calendar date, held as plain values.
#[derive(Clone, Copy, PartialEq, Eq, Structural, Debug)]
pub struct Date {
    pub year: u32,
    pub month: u32,
    pub day: u32,
}

pub open spec fn spec_leap_year(y: int) -> bool {
    (y % 4 == 0 && y % 100 != 0) || y % 400 == 0
}

pub open spec fn spec_days_in_month(y: int, m: int) -> int {
    if m == 2 {
        if spec_leap_year(y) {
            29
        } else {
            28
        }
    } else if m == 4 || m == 6 || m == 9 || m == 11 {
        30
    } else {
        31
    }
}

impl Date {
    pub open spec fn valid(self) -> bool {
        &&& 1 <= self.year <= 9999
        &&& 1 <= self.month <= 12
        &&& 1 <= self.day <= spec_days_in_month(self.year as int, self.month as int)
    }

    /// Order-preserving embedding of dates into the integers: later dates
    /// map to strictly larger numbers.
    pub open spec fn ord(self) -> int {
        self.year as int * 372 + (self.month as int - 1) * 31 + (self.day as int - 1)
    }
}

pub open spec fn date_le(a: Date, b: Date) -> bool {
    a.ord() <= b.ord()
}

pub open spec fn date_lt(a: Date, b: Date) -> bool {
    a.ord() < b.ord()
}

pub fn days_in_month(y: u32, m: u32) -> (r: u32)
    requires
        1 <= m <= 12,
    ensures
        r == spec_days_in_month(y as int, m as int),
{
    if m == 2 {
        if (y % 4 == 0 && y % 100 != 0) || y % 400 == 0 {
            29
        } else {
            28
        }
    } else if m == 4 || m == 6 || m == 9 || m == 11 {
        30
    } else {
        31
    }
}

fn ord_value(d: &Date) -> (r: u32)
    requires
        d.valid(),
    ensures
        r == d.ord(),
{
    d.year * 372 + (d.month - 1) * 31 + (d.day - 1)
}

pub fn date_le_exec(a: &Date, b: &Date) -> (r: bool)
    requires
        a.valid(),
        b.valid(),
    ensures
        r == date_le(*a, *b),
{
    ord_value(a) <= ord_value(b)
}

pub fn date_lt_exec(a: &Date, b: &Date) -> (r: bool)
    requires
        a.valid(),
        b.valid(),
    ensures
        r == date_lt(*a, *b),
{
    ord_value(a) < ord_value(b)
}

pub open spec fn spec_next_day(d: Date) -> Date {
    if d.day < spec_days_in_month(d.year as int, d.month as int) {
        Date { year: d.year, month: d.month, day: (d.day + 1) as u32 }
    } else if d.month < 12 {
        Date { year: d.year, month: (d.month + 1) as u32, day: 1 }
    } else {
        Date { year: (d.year + 1) as u32, month: 1, day: 1 }
    }
}

/// The calendar's last representable day; `spec_next_day` is never taken past it.
pub open spec fn spec_is_last_date(d: Date) -> bool {
    d.year == 9999 && d.month == 12 && d.day == 31
}

proof fn lemma_next_day_valid(d: Date)
    requires
        d.valid(),
        !spec_is_last_date(d),
    ensures
        spec_next_day(d).valid(),
        d.ord() < spec_next_day(d).ord(),
{
}

/// `spec_next_day` is the immediate successor among valid dates: nothing
/// valid lies strictly between a date and its next day.
proof fn lemma_next_day_successor(d: Date, e: Date)
    requires
        d.valid(),
        e.valid(),
        date_lt(d, e),
    ensures
        date_le(spec_next_day(d), e),
{
    if e.year == d.year {
        if e.month == d.month {
            assert(e.day > d.day);
        }
    }
}

/// Advances `d` by `k` single days, but gives up as soon as the walk would
/// step past `end`: the result is `Some` exactly when `d` plus `k` days
/// still lies within the range.
pub open spec fn spec_hop(d: Date, k: nat, end: Date) -> Option<Date>
    decreases k,
{
    if k == 0 {
        Some(d)
    } else if !date_lt(d, end) {
        None
    } else {
        spec_hop(spec_next_day(d), (k - 1) as nat, end)
    }
}

proof fn lemma_hop_advances(d: Date, k: nat, end: Date)
    requires
        d.valid(),
        end.valid(),
        k >= 1,
    ensures
        spec_hop(d, k, end) matches Some(n) ==> n.valid() && d.ord() < n.ord() && date_le(
            n,
            end,
        ),
    decreases k,
{
    if date_lt(d, end) {
        assert(end.ord() <= 9999 * 372 + 11 * 31 + 30);
        assert(!spec_is_last_date(d));
        lemma_next_day_valid(d);
        lemma_next_day_successor(d, end);
        if k > 1 {
            lemma_hop_advances(spec_next_day(d), (k - 1) as nat, end);
        }
    }
}

pub fn next_day(d: &Date) -> (r: Date)
    requires
        d.valid(),
        !spec_is_last_date(*d),
    ensures
        r == spec_next_day(*d),
        r.valid(),
{
    proof {
        lemma_next_day_valid(*d);
    }
    let dim = days_in_month(d.year, d.month);
    if d.day < dim {
        Date { year: d.year, month: d.month, day: d.day + 1 }
    } else if d.month < 12 {
        Date { year: d.year, month: d.month + 1, day: 1 }
    } else {
        Date { year: d.year + 1, month: 1, day: 1 }
    }
}

pub fn hop(d: &Date, stride: u64, end: &Date) -> (r: Option<Date>)
    requires
        d.valid(),
        end.valid(),
        stride >= 1,
    ensures
        r == spec_hop(*d, stride as nat, *end),
        r matches Some(n) ==> n.valid() && d.ord() < n.ord() && date_le(n, *end),
{
    proof {
        lemma_hop_advances(*d, stride as nat, *end);
    }
    let mut cur: Date = *d;
    let mut i: u64 = 0;
    while i < stride
        invariant
            cur.valid(),
            end.valid(),
            i <= stride,
            spec_hop(*d, stride as nat, *end) == spec_hop(cur, (stride - i) as nat, *end),
        decreases stride - i,
    {
        if !date_lt_exec(&cur, end) {
            return None;
        }
        proof {
            assert(end.ord() <= 9999 * 372 + 11 * 31 + 30);
            assert(!spec_is_last_date(cur));
        }
        cur = next_day(&cur);
        i = i + 1;
    }
    Some(cur)
}

/// The enumerated work sequence for the inclusive range `[d, end]` walked
/// with `stride` days between consecutive units: it starts at `d`, never
/// passes `end`, and stops once the next step would.
pub open spec fn spec_date_seq(d: Date, end: Date, stride: u64) -> Seq<Date>
    decreases end.ord() - d.ord(),
        when d.valid() && end.valid() && stride >= 1
        via date_seq_decreases
{
    if !date_le(d, end) {
        Seq::empty()
    } else {
        match spec_hop(d, stride as nat, end) {
            Some(n) => seq![d] + spec_date_seq(n, end, stride),
            None => seq![d],
        }
    }
}

#[via_fn]
proof fn date_seq_decreases(d: Date, end: Date, stride: u64) {
    if date_le(d, end) {
        lemma_hop_advances(d, stride as nat, end);
    }
}

/// Work Enumerator for the date-range variant: expands the request range
/// into the ordered sequence of date work items.
pub fn enumerate_dates(start: &Date, end: &Date, stride: u64) -> (r: Vec<Date>)
    requires
        start.valid(),
        end.valid(),
        stride >= 1,
    ensures
        r@ == spec_date_seq(*start, *end, stride),
        r@.len() > 0 <==> date_le(*start, *end),
        r@.len() > 0 ==> r@[0] == *start,
        forall|i: int|
            0 <= i < r@.len() ==> (#[trigger] r@[i]).valid() && date_le(*start, r@[i]) && date_le(
                r@[i],
                *end,
            ),
        forall|i: int| 0 <= i && i + 1 < r@.len() ==> date_lt(#[trigger] r@[i], r@[i + 1]),
{
    let mut out: Vec<Date> = Vec::new();
    if !date_le_exec(start, end) {
        return out;
    }
    let mut cur: Date = *start;
    let mut done = false;
    while !done
        invariant
            cur.valid(),
            end.valid(),
            start.valid(),
            stride >= 1,
            !done ==> date_le(cur, *end),
            !done ==> date_le(*start, cur),
            spec_date_seq(*start, *end, stride) == out@ + (if done {
                Seq::<Date>::empty()
            } else {
                spec_date_seq(cur, *end, stride)
            }),
            out@.len() > 0 ==> out@[0] == *start,
            !done && out@.len() == 0 ==> cur == *start,
            forall|j: int|
                0 <= j < out@.len() ==> (#[trigger] out@[j]).valid() && date_le(*start, out@[j])
                    && date_le(out@[j], *end),
            forall|j: int| 0 <= j && j + 1 < out@.len() ==> date_lt(#[trigger] out@[j], out@[j + 1]),
            !done && out@.len() > 0 ==> date_lt(out@.last(), cur),
        decreases (if done {
            0int
        } else {
            end.ord() - cur.ord() + 1
        }),
    {
        let ghost out_pre = out@;
        out.push(cur);
        proof {
            assert forall|j: int|
                0 <= j < out@.len() implies (#[trigger] out@[j]).valid() && date_le(
                *start,
                out@[j],
            ) && date_le(out@[j], *end) by {
                if j == out_pre.len() {
                    assert(out@[j] == cur);
                } else {
                    assert(out@[j] == out_pre[j]);
                }
            }
            assert forall|j: int|
                0 <= j && j + 1 < out@.len() implies date_lt(#[trigger] out@[j], out@[j + 1]) by {
                if j + 1 == out_pre.len() {
                    assert(out@[j] == out_pre[j]);
                    assert(out@[j + 1] == cur);
                    assert(date_lt(out_pre.last(), cur));
                } else {
                    assert(out@[j] == out_pre[j]);
                    assert(out@[j + 1] == out_pre[j + 1]);
                }
            }
        }
        match hop(&cur, stride, end) {
            Some(n) => {
                proof {
                    assert(spec_date_seq(cur, *end, stride) == seq![cur] + spec_date_seq(
                        n,
                        *end,
                        stride,
                    ));
                    assert(out_pre + (seq![cur] + spec_date_seq(n, *end, stride)) =~= out@
                        + spec_date_seq(n, *end, stride));
                }
                cur = n;
            },
            None => {
                proof {
                    assert(spec_date_seq(cur, *end, stride) == seq![cur]);
                    assert(out_pre + seq![cur] =~= out@);
                }
                done = true;
            },
        }
    }
    out
}

/// The canonical ten-character key of a date: zero-padded
/// year, month and day joined by dashes.
pub open spec fn spec_date_string(d: Date) -> Seq<char> {
    spec_dec4(d.year as int) + seq!['-'] + spec_dec2(d.month as int) + seq!['-'] + spec_dec2(
        d.day as int,
    )
}

pub fn date_string(d: &Date) -> (r: String)
    ensures
        r@ == spec_date_string(*d),
{
    let mut s = String::new();
    push_dec4(&mut s, d.year);
    proof {
        reveal_strlit("-");
    }
    s.append("-");
    push_dec2(&mut s, d.month);
    s.append("-");
    push_dec2(&mut s, d.day);
    proof {
        assert(("-")@ =~= seq!['-']);
        assert(s@ =~= spec_date_string(*d));
    }
    s
}

} // verus!
