//! Date calculator: calendar-day and workday distances between dates, and the date a
//! number of calendar days or workdays away. Workdays follow `holidays::work_state`
//! (weekends and statutory holidays are off, make-up workdays are worked).

use crate::date::{
    advance, lemma_advance, lemma_retreat, max_day_number, min_day_number, retreat, Date,
    iso_date_text,
};
use crate::holidays::{is_workday, is_workday_of};
use vstd::prelude::*;

verus! {

/// Distances between two dates.
#[derive(Debug, Clone)]
pub struct DateDiff {
    pub start: String,
    pub end: String,
    /// Calendar days from start to end (negative when end comes first).
    pub calendar_days: i64,
    /// Workdays in `[start, end)`; negative of the reverse count when end comes first.
    pub workdays: i64,
}

/// Workdays among the `len` days starting at `d`.
pub open spec fn workdays_in(d: Date, len: nat) -> int
    decreases len,
{
    if len == 0 {
        0
    } else {
        workdays_in(d, (len - 1) as nat) + (if is_workday_of(advance(d, (len - 1) as nat)) {
            1int
        } else {
            0
        })
    }
}

/// Workdays in `[s, e)`, negated when `e` comes before `s`.
pub open spec fn workdays_between(s: Date, e: Date) -> int {
    if s.dn() <= e.dn() {
        workdays_in(s, (e.dn() - s.dn()) as nat)
    } else {
        -workdays_in(e, (s.dn() - e.dn()) as nat)
    }
}

/// Workdays among the `k` days after `s` (not counting `s`).
pub open spec fn workdays_after(s: Date, k: nat) -> int
    decreases k,
{
    if k == 0 {
        0
    } else {
        workdays_after(s, (k - 1) as nat) + (if is_workday_of(advance(s, k)) {
            1int
        } else {
            0
        })
    }
}

/// Workdays among the `k` days before `s` (not counting `s`).
pub open spec fn workdays_before(s: Date, k: nat) -> int
    decreases k,
{
    if k == 0 {
        0
    } else {
        workdays_before(s, (k - 1) as nat) + (if is_workday_of(retreat(s, k)) {
            1int
        } else {
            0
        })
    }
}

proof fn lemma_workdays_in_bounds(d: Date, len: nat)
    ensures
        0 <= workdays_in(d, len) <= len,
    decreases len,
{
    if len > 0 {
        lemma_workdays_in_bounds(d, (len - 1) as nat);
    }
}

proof fn lemma_workdays_after_mono(s: Date, a: nat, b: nat)
    requires
        a <= b,
    ensures
        workdays_after(s, a) <= workdays_after(s, b),
    decreases b,
{
    if a < b {
        lemma_workdays_after_mono(s, a, (b - 1) as nat);
    }
}

proof fn lemma_workdays_before_mono(s: Date, a: nat, b: nat)
    requires
        a <= b,
    ensures
        workdays_before(s, a) <= workdays_before(s, b),
    decreases b,
{
    if a < b {
        lemma_workdays_before_mono(s, a, (b - 1) as nat);
    }
}

/// Workdays in `[start, end)` when `start <= end`.
fn count_forward(start: &Date, end: &Date) -> (n: i64)
    requires
        start.wf(),
        end.wf(),
        start.dn() <= end.dn(),
    ensures
        n == workdays_in(*start, (end.dn() - start.dn()) as nat),
{
    let mut count: i64 = 0;
    let mut d = *start;
    let ghost mut k: nat = 0;
    proof {
        crate::date::lemma_dn_range(*end);
    }
    while d.is_before(end)
        invariant
            start.wf(),
            end.wf(),
            d.wf(),
            d == advance(*start, k),
            d.dn() == start.dn() + k,
            d.dn() <= end.dn(),
            end.dn() <= max_day_number(),
            count == workdays_in(*start, k),
            0 <= count <= k,
        decreases end.dn() - d.dn(),
    {
        if is_workday(&d) {
            count = count + 1;
        }
        d = d.succ_opt().unwrap();
        proof {
            k = k + 1;
        }
    }
    count
}

/// Whole calendar days and workdays from `start` to `end`.
pub fn diff(start: Date, end: Date) -> (r: DateDiff)
    requires
        start.wf(),
        end.wf(),
    ensures
        r.start@ == iso_date_text(start),
        r.end@ == iso_date_text(end),
        r.calendar_days == end.dn() - start.dn(),
        r.workdays == workdays_between(start, end),
{
    let calendar_days = end.days_since(&start);
    let workdays = count_workdays_between(&start, &end);
    DateDiff {
        start: start.to_iso_string(),
        end: end.to_iso_string(),
        calendar_days,
        workdays,
    }
}

/// Workdays in `[start, end)`; the negative of the reverse count when `start > end`.
pub fn count_workdays_between(start: &Date, end: &Date) -> (n: i64)
    requires
        start.wf(),
        end.wf(),
    ensures
        n == workdays_between(*start, *end),
{
    if start.same_day(end) {
        return 0;
    }
    if end.is_before(start) {
        let c = count_forward(end, start);
        proof {
            lemma_workdays_in_bounds(*end, (start.dn() - end.dn()) as nat);
        }
        return -c;
    }
    count_forward(start, end)
}

/// `n` calendar days from `start` (earlier for negative `n`).
pub fn add_calendar_days(start: Date, n: i64) -> (r: Date)
    requires
        start.wf(),
        min_day_number() <= start.dn() + n <= max_day_number(),
    ensures
        r.wf(),
        r.dn() == start.dn() + n,
{
    start.add_days(n).unwrap()
}

/// There are `n` workdays after `start` (before it, for negative `n`) within the supported
/// range of dates.
pub open spec fn workdays_reachable(start: Date, n: int) -> bool {
    &&& n > 0 ==> workdays_after(start, (max_day_number() - start.dn()) as nat) >= n
    &&& n < 0 ==> workdays_before(start, (start.dn() - min_day_number()) as nat) >= -n
}

/// The day `n` workdays away from `start`, as `add_workdays` finds it.
pub open spec fn is_workday_shift(start: Date, n: int, r: Date) -> bool {
    &&& r.wf()
    &&& n == 0 ==> r == start
    &&& n > 0 ==> exists|k: nat|
        k >= 1 && r == advance(start, k) && r.dn() == start.dn() + k && #[trigger] workdays_after(start, k)
            == n && is_workday_of(r)
    &&& n < 0 ==> exists|k: nat|
        k >= 1 && r == retreat(start, k) && r.dn() == start.dn() - k && #[trigger] workdays_before(start, k)
            == -n && is_workday_of(r)
}

/// The `n`-th workday after `start` (not counting `start`), or for negative `n` the
/// `|n|`-th workday before it; `start` itself for zero. None when the supported range of
/// dates ends first.
pub fn checked_add_workdays(start: Date, n: i64) -> (r: Option<Date>)
    requires
        start.wf(),
    ensures
        r is Some <==> workdays_reachable(start, n as int),
        r matches Some(d) ==> is_workday_shift(start, n as int, d),
{
    if n == 0 {
        return Some(start);
    }
    proof {
        crate::date::lemma_dn_range(start);
    }
    if n > 0 {
        let mut remaining: i64 = n;
        let mut d = start;
        let ghost mut k: nat = 0;
        while remaining > 0
            invariant
                start.wf(),
                d.wf(),
                n > 0,
                d == advance(start, k),
                d.dn() == start.dn() + k,
                remaining == n - workdays_after(start, k),
                0 <= remaining <= n,
                k >= 1 || remaining == n,
                remaining == 0 ==> is_workday_of(d),
            decreases max_day_number() - d.dn(),
        {
            d = match d.succ_opt() {
                Some(x) => x,
                None => {
                    proof {
                        crate::date::lemma_dn_range(d);
                        assert(k == max_day_number() - start.dn());
                    }
                    return None;
                },
            };
            proof {
                k = k + 1;
            }
            if is_workday(&d) {
                remaining = remaining - 1;
            }
        }
        proof {
            crate::date::lemma_dn_range(d);
            lemma_workdays_after_mono(start, k, (max_day_number() - start.dn()) as nat);
        }
        Some(d)
    } else {
        let mut remaining: i64 = if n == i64::MIN {
            proof {
                lemma_workdays_before_bound(start, (start.dn() - min_day_number()) as nat);
            }
            return None;
        } else {
            -n
        };
        let mut d = start;
        let ghost mut k: nat = 0;
        while remaining > 0
            invariant
                start.wf(),
                d.wf(),
                n < 0,
                d == retreat(start, k),
                d.dn() == start.dn() - k,
                remaining == -n - workdays_before(start, k),
                0 <= remaining,
                k >= 1 || remaining == -n,
                remaining == 0 ==> is_workday_of(d),
            decreases d.dn() - min_day_number(),
        {
            d = match d.pred_opt() {
                Some(x) => x,
                None => {
                    proof {
                        crate::date::lemma_dn_range(d);
                        assert(k == start.dn() - min_day_number());
                    }
                    return None;
                },
            };
            proof {
                k = k + 1;
            }
            if is_workday(&d) {
                remaining = remaining - 1;
            }
        }
        proof {
            crate::date::lemma_dn_range(d);
            lemma_workdays_before_mono(start, k, (start.dn() - min_day_number()) as nat);
        }
        Some(d)
    }
}

/// The `n`-th workday after `start` (not counting `start`), or for negative `n` the
/// `|n|`-th workday before it; `start` itself for zero.
pub fn add_workdays(start: Date, n: i64) -> (r: Date)
    requires
        start.wf(),
        workdays_reachable(start, n as int),
    ensures
        is_workday_shift(start, n as int, r),
{
    match checked_add_workdays(start, n) {
        Some(d) => d,
        None => start,
    }
}

proof fn lemma_workdays_before_bound(s: Date, k: nat)
    ensures
        workdays_before(s, k) <= k,
    decreases k,
{
    if k > 0 {
        lemma_workdays_before_bound(s, (k - 1) as nat);
    }
}

// ------------------------------------------------------------------
// How the calculator's answers relate
// ------------------------------------------------------------------

/// Counting workdays backwards gives the negative of counting them forwards.
pub proof fn lemma_workdays_between_antisymmetric(s: Date, e: Date)
    ensures
        workdays_between(s, e) == -workdays_between(e, s),
{
    if s.dn() == e.dn() {
        assert(workdays_in(s, 0) == 0);
        assert(workdays_in(e, 0) == 0);
    }
}

/// Shifting a day by the calendar-day distance to another day gives that other day.
pub proof fn lemma_shift_by_distance(start: Date, end: Date, r: Date)
    requires
        start.wf(),
        end.wf(),
        r.wf(),
        r.dn() == start.dn() + (end.dn() - start.dn()),
    ensures
        r == end,
{
    crate::date::lemma_dn_injective(r, end);
}

/// The days `[s, s + k]` hold the workdays of `s` and of the `k` days after it.
proof fn lemma_workdays_in_after(s: Date, k: nat)
    ensures
        workdays_in(s, k + 1) == (if is_workday_of(s) {
            1int
        } else {
            0
        }) + workdays_after(s, k),
    decreases k,
{
    assert(workdays_in(s, k + 1) == workdays_in(s, k) + (if is_workday_of(advance(s, k)) {
        1int
    } else {
        0
    }));
    if k > 0 {
        lemma_workdays_in_after(s, (k - 1) as nat);
        assert(workdays_after(s, k) == workdays_after(s, (k - 1) as nat) + (if is_workday_of(advance(s, k)) {
            1int
        } else {
            0
        }));
    } else {
        assert(advance(s, 0) == s);
        assert(workdays_in(s, 0) == 0);
        assert(workdays_after(s, 0) == 0);
    }
}

/// Counting the workdays from a workday up to the day `n` workdays after it gives `n`: the
/// calculator's workday distance undoes its workday shift.
pub proof fn lemma_workday_shift_then_count(start: Date, n: int, r: Date)
    requires
        start.wf(),
        n > 0,
        is_workday_of(start),
        is_workday_shift(start, n, r),
    ensures
        workdays_between(start, r) == n,
{
    let k = choose|k: nat|
        k >= 1 && r == advance(start, k) && r.dn() == start.dn() + k && #[trigger] workdays_after(start, k)
            == n && is_workday_of(r);
    lemma_workdays_in_after(start, (k - 1) as nat);
    assert(workdays_after(start, k) == workdays_after(start, (k - 1) as nat) + 1);
    assert(workdays_in(start, k) == 1 + workdays_after(start, (k - 1) as nat));
}

/// The first `len` days from `k` days before `s` hold the workdays among the `k` days
/// before `s` that are more than `k - len` days before it.
proof fn lemma_workdays_in_before(s: Date, k: nat, len: nat)
    requires
        s.wf(),
        len <= k,
        s.dn() - k >= min_day_number(),
    ensures
        workdays_in(retreat(s, k), len) == workdays_before(s, k) - workdays_before(s, (k - len) as nat),
    decreases len,
{
    if len > 0 {
        let m = (len - 1) as nat;
        lemma_workdays_in_before(s, k, m);
        crate::date::lemma_retreat(s, k);
        crate::date::lemma_retreat(s, (k - m) as nat);
        crate::date::lemma_dn_range(s);
        crate::date::lemma_advance(retreat(s, k), m);
        crate::date::lemma_dn_injective(advance(retreat(s, k), m), retreat(s, (k - m) as nat));
        assert(workdays_before(s, (k - m) as nat) == workdays_before(s, (k - len) as nat) + (if is_workday_of(retreat(s, (k - m) as nat)) {
            1int
        } else {
            0
        }));
    }
}

/// Counting the workdays from a day back to the day `|n|` workdays before it gives `n`
/// (a negative count): the calculator's workday distance undoes its backward shift.
pub proof fn lemma_backward_shift_then_count(start: Date, n: int, r: Date)
    requires
        start.wf(),
        n < 0,
        is_workday_shift(start, n, r),
    ensures
        workdays_between(start, r) == n,
{
    let k = choose|k: nat|
        k >= 1 && r == retreat(start, k) && r.dn() == start.dn() - k && #[trigger] workdays_before(start, k)
            == -n && is_workday_of(r);
    crate::date::lemma_dn_range(r);
    lemma_workdays_in_before(start, k, k);
    assert(workdays_before(start, 0) == 0);
}

} // verus!
