//! Proleptic Gregorian calendar dates.
//!
//! A `Date` holds a year, month and day, valid over the range that `chrono::NaiveDate`
//! supports. Each date has a day number (0001-01-01 is day 1), through which ordering,
//! differences, weekdays and day arithmetic are stated.

use crate::text::{
    all_digits, append_all, decimal, decimal_u64, digits_value, is_digit, string_from_chars,
    two_digits, two_digits_exec,
};
use chrono::{Datelike, Timelike};
use vstd::prelude::*;

verus! {

pub const MIN_YEAR: i32 = -262143;

pub const MAX_YEAR: i32 = 262142;

pub open spec fn is_leap_year(y: int) -> bool {
    (y % 4 == 0 && y % 100 != 0) || y % 400 == 0
}

pub open spec fn year_length(y: int) -> int {
    if is_leap_year(y) {
        366
    } else {
        365
    }
}

pub open spec fn days_in_month(y: int, m: int) -> int {
    if m == 2 {
        if is_leap_year(y) {
            29
        } else {
            28
        }
    } else if m == 4 || m == 6 || m == 9 || m == 11 {
        30
    } else {
        31
    }
}

/// Days of the year `y` that precede the first day of month `m`.
pub open spec fn days_before_month(y: int, m: int) -> int {
    let l = if is_leap_year(y) {
        1int
    } else {
        0int
    };
    if m <= 1 {
        0
    } else if m == 2 {
        31
    } else if m == 3 {
        59 + l
    } else if m == 4 {
        90 + l
    } else if m == 5 {
        120 + l
    } else if m == 6 {
        151 + l
    } else if m == 7 {
        181 + l
    } else if m == 8 {
        212 + l
    } else if m == 9 {
        243 + l
    } else if m == 10 {
        273 + l
    } else if m == 11 {
        304 + l
    } else {
        334 + l
    }
}

/// Days from 0001-01-01 up to (not including) the first day of year `y`.
pub open spec fn days_before_year(y: int) -> int {
    let p = y - 1;
    365 * p + p / 4 - p / 100 + p / 400
}

pub open spec fn valid_ymd(y: int, m: int, d: int) -> bool {
    &&& MIN_YEAR <= y <= MAX_YEAR
    &&& 1 <= m <= 12
    &&& 1 <= d <= days_in_month(y, m)
}

/// The day number of a year, month and day (0001-01-01 is day 1).
pub open spec fn ymd_number(y: int, m: int, d: int) -> int {
    days_before_year(y) + days_before_month(y, m) + d
}

pub open spec fn min_day_number() -> int {
    ymd_number(MIN_YEAR as int, 1, 1)
}

pub open spec fn max_day_number() -> int {
    ymd_number(MAX_YEAR as int, 12, 31)
}

/// A calendar date (`chrono::NaiveDate`).
#[derive(Clone, Copy, Debug, PartialEq, Eq, Structural)]
pub struct Date {
    pub year: i32,
    pub month: u32,
    pub day: u32,
}

impl Date {
    pub open spec fn wf(self) -> bool {
        valid_ymd(self.year as int, self.month as int, self.day as int)
    }

    /// Day number; 0001-01-01 is day 1.
    pub open spec fn dn(self) -> int {
        ymd_number(self.year as int, self.month as int, self.day as int)
    }

    /// Day of the week counted from Monday (0 = Monday .. 6 = Sunday).
    pub open spec fn weekday(self) -> int {
        (self.dn() - 1) % 7
    }

    /// Day of the week counted from Sunday (0 = Sunday .. 6 = Saturday).
    pub open spec fn weekday_from_sun(self) -> int {
        self.dn() % 7
    }
}

/// The following calendar day, by the rules of month and year lengths.
pub open spec fn next_date(d: Date) -> Date {
    if (d.day as int) < days_in_month(d.year as int, d.month as int) {
        Date { year: d.year, month: d.month, day: (d.day + 1) as u32 }
    } else if d.month < 12 {
        Date { year: d.year, month: (d.month + 1) as u32, day: 1 }
    } else {
        Date { year: (d.year + 1) as i32, month: 1, day: 1 }
    }
}

/// The preceding calendar day.
pub open spec fn prev_date(d: Date) -> Date {
    if d.day > 1 {
        Date { year: d.year, month: d.month, day: (d.day - 1) as u32 }
    } else if d.month > 1 {
        Date {
            year: d.year,
            month: (d.month - 1) as u32,
            day: days_in_month(d.year as int, d.month - 1) as u32,
        }
    } else {
        Date { year: (d.year - 1) as i32, month: 12, day: 31 }
    }
}

/// `k` days after `d`, stepping one day at a time.
pub open spec fn advance(d: Date, k: nat) -> Date
    decreases k,
{
    if k == 0 {
        d
    } else {
        next_date(advance(d, (k - 1) as nat))
    }
}

/// `k` days before `d`, stepping one day at a time.
pub open spec fn retreat(d: Date, k: nat) -> Date
    decreases k,
{
    if k == 0 {
        d
    } else {
        prev_date(retreat(d, (k - 1) as nat))
    }
}

// ------------------------------------------------------------------
// Facts about day numbers
// ------------------------------------------------------------------

pub proof fn lemma_days_before_year_step(y: int)
    ensures
        days_before_year(y + 1) == days_before_year(y) + year_length(y),
{
    let p = y - 1;
    assert((p + 1) / 4 == p / 4 + (if y % 4 == 0 {
        1int
    } else {
        0
    }));
    assert((p + 1) / 100 == p / 100 + (if y % 100 == 0 {
        1int
    } else {
        0
    }));
    assert((p + 1) / 400 == p / 400 + (if y % 400 == 0 {
        1int
    } else {
        0
    }));
}

pub proof fn lemma_days_before_year_mono(y1: int, y2: int)
    requires
        y1 <= y2,
    ensures
        days_before_year(y2) - days_before_year(y1) >= 365 * (y2 - y1),
    decreases y2 - y1,
{
    if y1 < y2 {
        lemma_days_before_year_mono(y1, y2 - 1);
        lemma_days_before_year_step(y2 - 1);
    }
}

pub proof fn lemma_days_before_year_cycle(j: int)
    ensures
        days_before_year(1 + 400 * j) == 146097 * j,
    decreases (if j < 0 {
        -j
    } else {
        j
    }),
{
    if j > 0 {
        lemma_days_before_year_cycle(j - 1);
        let q = 400 * (j - 1);
        assert((q + 400) / 4 == q / 4 + 100);
        assert((q + 400) / 100 == q / 100 + 4);
        assert((q + 400) / 400 == q / 400 + 1);
    } else if j < 0 {
        lemma_days_before_year_cycle(j + 1);
        let q = 400 * j;
        assert((q + 400) / 4 == q / 4 + 100);
        assert((q + 400) / 100 == q / 100 + 4);
        assert((q + 400) / 400 == q / 400 + 1);
    }
}

pub proof fn lemma_month_step(y: int, m: int)
    requires
        1 <= m <= 12,
    ensures
        m < 12 ==> days_before_month(y, m + 1) == days_before_month(y, m) + days_in_month(y, m),
        m == 12 ==> days_before_month(y, 12) + days_in_month(y, 12) == year_length(y),
        days_before_month(y, m) + days_in_month(y, m) <= year_length(y),
        days_in_month(y, m) >= 28,
{
}

proof fn lemma_month_mono(y: int, m1: int, m2: int)
    requires
        1 <= m1 < m2 <= 12,
    ensures
        days_before_month(y, m1) + days_in_month(y, m1) <= days_before_month(y, m2),
{
}

/// Earlier in (year, month, day) order means a smaller day number.
pub proof fn lemma_dn_lex(a: Date, b: Date)
    requires
        a.wf(),
        b.wf(),
        a.year < b.year || (a.year == b.year && a.month < b.month) || (a.year == b.year
            && a.month == b.month && a.day < b.day),
    ensures
        a.dn() < b.dn(),
{
    let (ya, ma, da) = (a.year as int, a.month as int, a.day as int);
    let (yb, mb, db) = (b.year as int, b.month as int, b.day as int);
    lemma_month_step(ya, ma);
    if ya < yb {
        lemma_days_before_year_step(ya);
        lemma_days_before_year_mono(ya + 1, yb);
    } else if ma < mb {
        lemma_month_mono(ya, ma, mb);
    }
}

/// Distinct valid dates have distinct day numbers.
pub proof fn lemma_dn_injective(a: Date, b: Date)
    requires
        a.wf(),
        b.wf(),
        a.dn() == b.dn(),
    ensures
        a == b,
{
    if a.year < b.year || (a.year == b.year && a.month < b.month) || (a.year == b.year
        && a.month == b.month && a.day < b.day) {
        lemma_dn_lex(a, b);
    } else if b.year < a.year || (a.year == b.year && b.month < a.month) || (a.year == b.year
        && a.month == b.month && b.day < a.day) {
        lemma_dn_lex(b, a);
    }
}

/// The day number of a valid date lies within the supported range.
pub proof fn lemma_dn_range(a: Date)
    requires
        a.wf(),
    ensures
        min_day_number() <= a.dn() <= max_day_number(),
{
    let first = Date { year: MIN_YEAR, month: 1, day: 1 };
    let last = Date { year: MAX_YEAR, month: 12, day: 31 };
    if a != first {
        lemma_dn_lex(first, a);
    }
    if a != last {
        lemma_dn_lex(a, last);
    }
}

proof fn lemma_year_of_day_number(n: int, y: int, r: int)
    requires
        n == days_before_year(y) + 1 + r,
        0 <= r < year_length(y),
        min_day_number() <= n <= max_day_number(),
    ensures
        MIN_YEAR <= y <= MAX_YEAR,
{
    lemma_days_before_year_step(MAX_YEAR as int);
    lemma_days_before_year_step(y);
    if y > MAX_YEAR {
        lemma_days_before_year_mono(MAX_YEAR + 1, y);
    }
    if y < MIN_YEAR {
        lemma_days_before_year_mono(y + 1, MIN_YEAR as int);
    }
}

/// Stepping forward from a valid date before the last one stays valid and adds a day.
pub proof fn lemma_next_date(d: Date)
    requires
        d.wf(),
        d.dn() < max_day_number(),
    ensures
        next_date(d).wf(),
        next_date(d).dn() == d.dn() + 1,
{
    lemma_dn_range(d);
    lemma_month_step(d.year as int, d.month as int);
    if !((d.day as int) < days_in_month(d.year as int, d.month as int)) && d.month == 12 {
        lemma_days_before_year_step(d.year as int);
        if d.year >= MAX_YEAR {
            assert(d == Date { year: MAX_YEAR, month: 12, day: 31 });
        }
    }
}

/// Stepping back from a valid date after the first one stays valid and removes a day.
pub proof fn lemma_prev_date(d: Date)
    requires
        d.wf(),
        d.dn() > min_day_number(),
    ensures
        prev_date(d).wf(),
        prev_date(d).dn() == d.dn() - 1,
{
    lemma_dn_range(d);
    if d.day <= 1 && d.month > 1 {
        lemma_month_step(d.year as int, d.month - 1);
    }
    if d.day <= 1 && d.month <= 1 {
        lemma_days_before_year_step(d.year - 1);
        lemma_month_step(d.year - 1, 12);
        if d.year <= MIN_YEAR {
            assert(d == Date { year: MIN_YEAR, month: 1, day: 1 });
        }
    }
}

/// Stepping `k` days forward moves the day number by `k`, while in range.
pub proof fn lemma_advance(d: Date, k: nat)
    requires
        d.wf(),
        d.dn() + k <= max_day_number(),
    ensures
        advance(d, k).wf(),
        advance(d, k).dn() == d.dn() + k,
    decreases k,
{
    if k > 0 {
        lemma_advance(d, (k - 1) as nat);
        lemma_next_date(advance(d, (k - 1) as nat));
    }
}

/// Stepping `k` days back moves the day number by `-k`, while in range.
pub proof fn lemma_retreat(d: Date, k: nat)
    requires
        d.wf(),
        d.dn() - k >= min_day_number(),
    ensures
        retreat(d, k).wf(),
        retreat(d, k).dn() == d.dn() - k,
    decreases k,
{
    if k > 0 {
        lemma_retreat(d, (k - 1) as nat);
        lemma_prev_date(retreat(d, (k - 1) as nat));
    }
}

// ------------------------------------------------------------------
// Construction and arithmetic
// ------------------------------------------------------------------

#[verifier::spinoff_prover]
pub fn is_leap(y: i32) -> (b: bool)
    ensures
        b == is_leap_year(y as int),
{
    // a multiple of 400 added keeps every remainder that matters and makes the year positive
    let s: i64 = y as i64 + 4_000_000_000;
    assert(s % 4 == (y as int) % 4) by (nonlinear_arith)
        requires
            s == y + 4_000_000_000,
    ;
    assert(s % 100 == (y as int) % 100) by (nonlinear_arith)
        requires
            s == y + 4_000_000_000,
    ;
    assert(s % 400 == (y as int) % 400) by (nonlinear_arith)
        requires
            s == y + 4_000_000_000,
    ;
    (s % 4 == 0 && s % 100 != 0) || s % 400 == 0
}

pub fn month_length(y: i32, m: u32) -> (n: u32)
    ensures
        n == days_in_month(y as int, m as int),
{
    if m == 2 {
        if is_leap(y) {
            29
        } else {
            28
        }
    } else if m == 4 || m == 6 || m == 9 || m == 11 {
        30
    } else {
        31
    }
}

impl Date {
    /// `NaiveDate::from_ymd_opt`: the date, when it exists.
    pub fn from_ymd_opt(year: i32, month: u32, day: u32) -> (r: Option<Date>)
        ensures
            r is Some <==> valid_ymd(year as int, month as int, day as int),
            r matches Some(d) ==> d == (Date { year, month, day }),
    {
        if MIN_YEAR <= year && year <= MAX_YEAR && 1 <= month && month <= 12 && 1 <= day && day
            <= month_length(year, month) {
            Some(Date { year, month, day })
        } else {
            None
        }
    }

    pub fn day_number(&self) -> (n: i64)
        requires
            self.wf(),
        ensures
            n == self.dn(),
    {
        let p: i64 = self.year as i64 - 1;
        let q: i64 = p + 262400;
        assert(q / 4 - 65600 == p / 4);
        assert(q / 100 - 2624 == p / 100);
        assert(q / 400 - 656 == p / 400);
        let before_year: i64 = 365 * p + (q / 4 - 65600) - (q / 100 - 2624) + (q / 400 - 656);
        let l: i64 = if is_leap(self.year) {
            1
        } else {
            0
        };
        let m = self.month;
        let before_month: i64 = if m <= 1 {
            0
        } else if m == 2 {
            31
        } else if m == 3 {
            59 + l
        } else if m == 4 {
            90 + l
        } else if m == 5 {
            120 + l
        } else if m == 6 {
            151 + l
        } else if m == 7 {
            181 + l
        } else if m == 8 {
            212 + l
        } else if m == 9 {
            243 + l
        } else if m == 10 {
            273 + l
        } else if m == 11 {
            304 + l
        } else {
            334 + l
        };
        before_year + before_month + self.day as i64
    }

    /// Day of the week counted from Monday (`Weekday::num_days_from_monday`).
    pub fn weekday_from_monday(&self) -> (w: u32)
        requires
            self.wf(),
        ensures
            w == self.weekday(),
            w < 7,
    {
        let n = self.day_number();
        proof {
            lemma_dn_range(*self);
        }
        let shifted: i64 = n - 1 + 7 * 14_000_000;
        assert((shifted % 7) == (n - 1) % 7);
        (shifted % 7) as u32
    }

    /// Day of the week counted from Sunday (`Weekday::num_days_from_sunday`).
    #[verifier::spinoff_prover]
    pub fn weekday_from_sunday(&self) -> (w: u32)
        requires
            self.wf(),
        ensures
            w == self.weekday_from_sun(),
            w < 7,
    {
        let m = self.weekday_from_monday();
        if m == 6 {
            0
        } else {
            m + 1
        }
    }

    /// The date with the given day number, when it is in range.
    pub fn from_day_number(n: i64) -> (r: Option<Date>)
        ensures
            r is Some <==> min_day_number() <= n <= max_day_number(),
            r matches Some(d) ==> d.wf() && d.dn() == n,
    {
        proof {
            lemma_days_before_year_step(MAX_YEAR as int);
        }
        if n < -96_000_000 || n > 96_000_000 {
            proof {
                let first = Date { year: MIN_YEAR, month: 1, day: 1 };
                let last = Date { year: MAX_YEAR, month: 12, day: 31 };
                assert(first.dn() > -96_000_000);
                assert(last.dn() < 96_000_000);
            }
            return None;
        }
        let first = Date { year: MIN_YEAR, month: 1, day: 1 };
        let last = Date { year: MAX_YEAR, month: 12, day: 31 };
        let lo = first.day_number();
        let hi = last.day_number();
        if n < lo || n > hi {
            return None;
        }
        let k: i64 = n - 1 + 146097 * 656;
        let c: i64 = k / 146097;
        let mut r: i64 = k % 146097;
        let mut y: i64 = 1 + 400 * (c - 656);
        proof {
            lemma_days_before_year_cycle(c - 656);
        }
        let mut len_y: i64 = if is_leap(y as i32) {
            366
        } else {
            365
        };
        while r >= len_y
            invariant
                len_y == year_length(y as int),
                n == days_before_year(y as int) + 1 + r,
                0 <= r,
                -300000 <= y <= MAX_YEAR,
                min_day_number() <= n <= max_day_number(),
            decreases r,
        {
            proof {
                lemma_days_before_year_step(y as int);
                lemma_days_before_year_step(MAX_YEAR as int);
                if y + 1 > MAX_YEAR {
                    lemma_days_before_year_mono(MAX_YEAR + 1, y + 1);
                }
            }
            r = r - len_y;
            y = y + 1;
            len_y = if is_leap(y as i32) {
                366
            } else {
                365
            };
        }
        proof {
            lemma_year_of_day_number(n as int, y as int, r as int);
        }
        let yy = y as i32;
        let mut m: u32 = 1;
        let mut len_m: i64 = month_length(yy, m) as i64;
        while r >= len_m
            invariant
                len_m == days_in_month(yy as int, m as int),
                MIN_YEAR <= yy <= MAX_YEAR,
                1 <= m <= 12,
                n == days_before_year(yy as int) + days_before_month(yy as int, m as int) + 1 + r,
                0 <= r < year_length(yy as int) - days_before_month(yy as int, m as int),
            decreases 12 - m,
        {
            proof {
                lemma_month_step(yy as int, m as int);
            }
            r = r - len_m;
            m = m + 1;
            len_m = month_length(yy, m) as i64;
        }
        proof {
            lemma_month_step(yy as int, m as int);
        }
        Some(Date { year: yy, month: m, day: (r + 1) as u32 })
    }

    /// `NaiveDate::succ_opt`.
    pub fn succ_opt(&self) -> (r: Option<Date>)
        requires
            self.wf(),
        ensures
            r is Some <==> self.dn() < max_day_number(),
            r matches Some(d) ==> d.wf() && d.dn() == self.dn() + 1 && d == next_date(*self),
    {
        proof {
            lemma_dn_range(*self);
            lemma_month_step(self.year as int, self.month as int);
        }
        if self.day < month_length(self.year, self.month) {
            Some(Date { year: self.year, month: self.month, day: self.day + 1 })
        } else if self.month < 12 {
            Some(Date { year: self.year, month: self.month + 1, day: 1 })
        } else if self.year < MAX_YEAR {
            proof {
                lemma_days_before_year_step(self.year as int);
                lemma_dn_lex(*self, Date { year: MAX_YEAR, month: 12, day: 31 });
            }
            Some(Date { year: self.year + 1, month: 1, day: 1 })
        } else {
            None
        }
    }

    /// `NaiveDate::pred_opt`.
    pub fn pred_opt(&self) -> (r: Option<Date>)
        requires
            self.wf(),
        ensures
            r is Some <==> self.dn() > min_day_number(),
            r matches Some(d) ==> d.wf() && d.dn() == self.dn() - 1 && d == prev_date(*self),
    {
        proof {
            lemma_dn_range(*self);
        }
        if self.day > 1 {
            Some(Date { year: self.year, month: self.month, day: self.day - 1 })
        } else if self.month > 1 {
            proof {
                lemma_month_step(self.year as int, (self.month - 1) as int);
            }
            Some(
                Date {
                    year: self.year,
                    month: self.month - 1,
                    day: month_length(self.year, self.month - 1),
                },
            )
        } else if self.year > MIN_YEAR {
            proof {
                lemma_days_before_year_step(self.year - 1);
                lemma_month_step((self.year - 1) as int, 12);
                lemma_dn_lex(Date { year: MIN_YEAR, month: 1, day: 1 }, *self);
            }
            Some(Date { year: self.year - 1, month: 12, day: 31 })
        } else {
            None
        }
    }

    /// `NaiveDate::checked_add_signed(Duration::days(n))`: the date `n` days later.
    pub fn add_days(&self, n: i64) -> (r: Option<Date>)
        requires
            self.wf(),
        ensures
            r is Some <==> min_day_number() <= self.dn() + n <= max_day_number(),
            r matches Some(d) ==> d.wf() && d.dn() == self.dn() + n,
    {
        let base = self.day_number();
        proof {
            lemma_dn_range(*self);
        }
        if n > 200_000_000 || n < -200_000_000 {
            return None;
        }
        Date::from_day_number(base + n)
    }

    /// Whole days from `other` to `self` (`(self - other).num_days()`).
    pub fn days_since(&self, other: &Date) -> (n: i64)
        requires
            self.wf(),
            other.wf(),
        ensures
            n == self.dn() - other.dn(),
    {
        proof {
            lemma_dn_range(*self);
            lemma_dn_range(*other);
        }
        self.day_number() - other.day_number()
    }

    /// `self < other` in calendar order.
    pub fn is_before(&self, other: &Date) -> (b: bool)
        requires
            self.wf(),
            other.wf(),
        ensures
            b == (self.dn() < other.dn()),
    {
        self.day_number() < other.day_number()
    }

    /// Same calendar day.
    pub fn same_day(&self, other: &Date) -> (b: bool)
        requires
            self.wf(),
            other.wf(),
        ensures
            b == (self.dn() == other.dn()),
            b == (*self == *other),
    {
        proof {
            if self.dn() == other.dn() {
                lemma_dn_injective(*self, *other);
            }
        }
        self.year == other.year && self.month == other.month && self.day == other.day
    }
}

// ------------------------------------------------------------------
// ISO text (`Display` for `NaiveDate`, which writes `%Y-%m-%d`)
// ------------------------------------------------------------------

/// Four digits, zero padded (`{:04}`), or all digits for larger numbers.
pub open spec fn pad4(n: nat) -> Seq<char> {
    if n < 10 {
        seq!['0', '0', '0'] + decimal(n)
    } else if n < 100 {
        seq!['0', '0'] + decimal(n)
    } else if n < 1000 {
        seq!['0'] + decimal(n)
    } else {
        decimal(n)
    }
}

/// The year as `NaiveDate` writes it: four digits within 0..=9999, otherwise signed.
pub open spec fn year_text(y: int) -> Seq<char> {
    if 0 <= y <= 9999 {
        pad4(y as nat)
    } else if y < 0 {
        seq!['-'] + pad4((-y) as nat)
    } else {
        seq!['+'] + pad4(y as nat)
    }
}

/// `YYYY-MM-DD`.
pub open spec fn iso_date_text(d: Date) -> Seq<char> {
    year_text(d.year as int) + seq!['-'] + two_digits(d.month as int) + seq!['-'] + two_digits(
        d.day as int,
    )
}

fn pad4_exec(n: u64) -> (r: Vec<char>)
    ensures
        r@ == pad4(n as nat),
{
    let d = decimal_u64(n);
    let mut v: Vec<char> = Vec::new();
    if n < 10 {
        v.push('0');
        v.push('0');
        v.push('0');
    } else if n < 100 {
        v.push('0');
        v.push('0');
    } else if n < 1000 {
        v.push('0');
    }
    let ghost pre = v@;
    append_all(&mut v, &d);
    proof {
        if n < 10 {
            assert(pre =~= seq!['0', '0', '0']);
        } else if n < 100 {
            assert(pre =~= seq!['0', '0']);
        } else if n < 1000 {
            assert(pre =~= seq!['0']);
        } else {
            assert(pre =~= Seq::<char>::empty());
            assert(v@ =~= d@);
        }
    }
    v
}

impl Date {
    /// The date as `YYYY-MM-DD` characters.
    pub fn iso_chars(&self) -> (r: Vec<char>)
        requires
            self.wf(),
        ensures
            r@ == iso_date_text(*self),
    {
        let y = self.year;
        let mut out: Vec<char> = if 0 <= y && y <= 9999 {
            pad4_exec(y as u64)
        } else if y < 0 {
            let mut v = Vec::new();
            v.push('-');
            let p = pad4_exec((-(y as i64)) as u64);
            append_all(&mut v, &p);
            assert(v@ =~= seq!['-'] + p@);
            v
        } else {
            let mut v = Vec::new();
            v.push('+');
            let p = pad4_exec(y as u64);
            append_all(&mut v, &p);
            assert(v@ =~= seq!['+'] + p@);
            v
        };
        out.push('-');
        let mm = two_digits_exec(self.month as u64);
        append_all(&mut out, &mm);
        out.push('-');
        let dd = two_digits_exec(self.day as u64);
        append_all(&mut out, &dd);
        out
    }

    /// The date as a `YYYY-MM-DD` string (`NaiveDate::to_string`).
    pub fn to_iso_string(&self) -> (s: String)
        requires
            self.wf(),
        ensures
            s@ == iso_date_text(*self),
    {
        let v = self.iso_chars();
        string_from_chars(&v)
    }
}

/// The number written by the digits `t[i..j]`.
pub open spec fn field(t: Seq<char>, i: int, j: int) -> int {
    digits_value(t.subrange(i, j))
}

/// The date written as `DDDD-DD-DD`: four digits of year, two of month, two of day. `None`
/// when the text has another shape or the numbers name no calendar day.
pub open spec fn dashed_date(t: Seq<char>) -> Option<Date> {
    if t.len() == 10 && t[4] == '-' && t[7] == '-' && all_digits(t.subrange(0, 4))
        && all_digits(t.subrange(5, 7)) && all_digits(t.subrange(8, 10)) && valid_ymd(
        field(t, 0, 4),
        field(t, 5, 7),
        field(t, 8, 10),
    ) {
        Some(
            Date {
                year: field(t, 0, 4) as i32,
                month: field(t, 5, 7) as u32,
                day: field(t, 8, 10) as u32,
            },
        )
    } else {
        None
    }
}

/// The shape `DDDD-DD-DD`, whatever the numbers.
pub open spec fn dashed_shape(t: Seq<char>) -> bool {
    t.len() == 10 && t[4] == '-' && t[7] == '-' && all_digits(t.subrange(0, 4)) && all_digits(
        t.subrange(5, 7),
    ) && all_digits(t.subrange(8, 10))
}

/// What `NaiveDate::parse_from_str(text, "%Y-%m-%d")` gives for a text.
pub uninterp spec fn chrono_parse_iso_date(text: Seq<char>) -> Option<Date>;

/// Calls `chrono::NaiveDate::parse_from_str(text, "%Y-%m-%d")`. The contract claims that the
/// result is the named parse of the text, that a parsed date is a valid calendar date, that
/// the `YYYY-MM-DD` text of a valid date parses back to that date (chrono documents
/// `%Y-%m-%d` as the format its `Display` writes and its parser reads), and that a text of
/// exactly four, two and two digits separated by dashes gives the day those numbers name, or
/// nothing when there is no such day (chrono's scanner reads at most four digits for an
/// unsigned `%Y` and two for `%m` and `%d`, then builds the date with `from_ymd_opt`).
#[verifier::external_body]
pub fn parse_iso_date(text: &str) -> (r: Option<Date>)
    ensures
        r == chrono_parse_iso_date(text@),
        r matches Some(d) ==> d.wf(),
        forall|d: Date| d.wf() && text@ == iso_date_text(d) ==> r == Some(d),
        dashed_shape(text@) ==> r == dashed_date(text@),
{
    match chrono::NaiveDate::parse_from_str(text, "%Y-%m-%d") {
        Ok(d) => Some(Date { year: d.year(), month: d.month(), day: d.day() }),
        Err(_) => None,
    }
}

// ------------------------------------------------------------------
// Times of day and date-times
// ------------------------------------------------------------------

/// A date with a time of day (`chrono::NaiveDateTime` without fractions of a second).
#[derive(Clone, Copy, Debug, PartialEq, Eq, Structural)]
pub struct DateTime {
    pub date: Date,
    pub hour: u32,
    pub minute: u32,
    pub second: u32,
}

impl DateTime {
    pub open spec fn wf(self) -> bool {
        self.date.wf() && self.hour < 24 && self.minute < 60 && self.second < 60
    }

    /// Seconds since the start of day number 0.
    pub open spec fn seconds(self) -> int {
        self.date.dn() * 86400 + self.hour * 3600 + self.minute * 60 + self.second
    }
}

/// `%H:%M`: the hour and minute, two digits each.
pub open spec fn hm_text(h: int, m: int) -> Seq<char> {
    two_digits(h) + seq![':'] + two_digits(m)
}

/// The shape `DD:DD`.
pub open spec fn hm_shape(t: Seq<char>) -> bool {
    t.len() == 5 && t[2] == ':' && is_digit(t[0]) && is_digit(t[1]) && is_digit(t[3]) && is_digit(
        t[4],
    )
}

/// What `NaiveTime::parse_from_str(text, "%H:%M")` gives, as hour and minute.
pub uninterp spec fn chrono_parse_hm(text: Seq<char>) -> Option<(u32, u32)>;

/// Calls `chrono::NaiveTime::parse_from_str(text, "%H:%M")` and returns the hour and minute.
/// The contract claims that the result is the named parse of the text, that a parsed time has
/// an hour below 24 and a minute below 60, and that a text of two digits, a colon and two
/// digits parses exactly when the hour is below 24 and the minute below 60 (chrono's scanner
/// reads up to two digits for `%H` and `%M`; a missing second defaults to zero).
#[verifier::external_body]
pub fn parse_hm(text: &str) -> (r: Option<(u32, u32)>)
    ensures
        r == chrono_parse_hm(text@),
        r matches Some((h, m)) ==> h < 24 && m < 60,
        hm_shape(text@) ==> r == (if field(text@, 0, 2) < 24 && field(text@, 3, 5) < 60 {
            Some((field(text@, 0, 2) as u32, field(text@, 3, 5) as u32))
        } else {
            None
        }),
{
    match chrono::NaiveTime::parse_from_str(text, "%H:%M") {
        Ok(t) => Some((t.hour(), t.minute())),
        Err(_) => None,
    }
}

/// The shape of fourteen digits `YYYYMMDDHHMMSS`, with a valid date, an hour below 24, a
/// minute below 60 and a second of at most 60 (a leap second).
pub open spec fn compact_datetime_valid(t: Seq<char>) -> bool {
    t.len() == 14 && all_digits(t) && valid_ymd(field(t, 0, 4), field(t, 4, 6), field(t, 6, 8))
        && field(t, 8, 10) < 24 && field(t, 10, 12) < 60 && field(t, 12, 14) <= 60
}

/// What `NaiveDateTime::parse_from_str(text, "%Y%m%d%H%M%S")` gives.
pub uninterp spec fn chrono_parse_compact_datetime(text: Seq<char>) -> Option<DateTime>;

/// Calls `chrono::NaiveDateTime::parse_from_str(text, "%Y%m%d%H%M%S")`. The contract claims
/// that the result is the named parse of the text, that a parsed value is a valid date-time,
/// and that fourteen digits parse exactly when they name a valid date, hour, minute and
/// second (chrono accepts a second of 60 as a leap second, which it reports as second 59).
#[verifier::external_body]
pub fn parse_compact_datetime(text: &str) -> (r: Option<DateTime>)
    ensures
        r == chrono_parse_compact_datetime(text@),
        r matches Some(dt) ==> dt.wf(),
        text@.len() == 14 && all_digits(text@) ==> (r is Some <==> compact_datetime_valid(
            text@,
        )),
        text@.len() == 14 && all_digits(text@) ==> (r matches Some(dt) ==> dt.date == (Date {
            year: field(text@, 0, 4) as i32,
            month: field(text@, 4, 6) as u32,
            day: field(text@, 6, 8) as u32,
        }) && dt.hour == field(text@, 8, 10) && dt.minute == field(text@, 10, 12)),
{
    match chrono::NaiveDateTime::parse_from_str(text, "%Y%m%d%H%M%S") {
        Ok(t) => Some(
            DateTime {
                date: Date { year: t.year(), month: t.month(), day: t.day() },
                hour: t.hour(),
                minute: t.minute(),
                second: t.second(),
            },
        ),
        Err(_) => None,
    }
}

/// Calls `DateTime::with_timezone(&chrono::Local)` on a UTC date-time and returns the local
/// wall-clock date-time (`naive_local`). The local offset depends on the machine's time zone,
/// so the contract claims only that the result is a valid date-time.
#[verifier::external_body]
pub fn utc_to_local(utc: DateTime) -> (r: DateTime)
    requires
        utc.wf(),
        0 <= utc.date.year <= 9999,
    ensures
        r.wf(),
{
    let naive = chrono::NaiveDate::from_ymd_opt(utc.date.year, utc.date.month, utc.date.day)
        .and_then(|d| d.and_hms_opt(utc.hour, utc.minute, utc.second))
        .unwrap_or_default();
    let local = naive.and_utc().with_timezone(&chrono::Local).naive_local();
    DateTime {
        date: Date { year: local.year(), month: local.month(), day: local.day() },
        hour: local.hour(),
        minute: local.minute(),
        second: local.second(),
    }
}

/// Calls `chrono::Utc::now()` and returns the current UTC date-time. The contract claims only
/// that the result is a valid date-time.
#[verifier::external_body]
pub fn utc_now() -> (r: DateTime)
    ensures
        r.wf(),
{
    let now = chrono::Utc::now().naive_utc();
    DateTime {
        date: Date { year: now.year(), month: now.month(), day: now.day() },
        hour: now.hour(),
        minute: now.minute(),
        second: now.second(),
    }
}

/// Every valid date-time lies within a hundred million days of day 0, so its count of
/// seconds fits easily in an `i64`.
pub proof fn lemma_seconds_range(t: DateTime)
    requires
        t.wf(),
    ensures
        -100_000_000 * 86400 <= t.seconds() <= 100_000_000 * 86400,
        -100_000_000 <= t.date.dn() <= 100_000_000,
{
    lemma_dn_range(t.date);
    assert(min_day_number() >= -100_000_000);
    assert(max_day_number() <= 100_000_000);
    let d = t.date.dn();
    assert(-100_000_000 * 86400 <= d * 86400 <= 100_000_000 * 86400) by (nonlinear_arith)
        requires
            -100_000_000 <= d <= 100_000_000,
    ;
}

impl DateTime {
    /// The count of seconds of `seconds()`.
    pub fn seconds_exec(&self) -> (n: i64)
        requires
            self.wf(),
        ensures
            n == self.seconds(),
    {
        proof {
            lemma_seconds_range(*self);
        }
        let d = self.date.day_number();
        d * 86400 + (self.hour as i64) * 3600 + (self.minute as i64) * 60 + (self.second as i64)
    }
}

/// The year as `%Y` writes it.
pub fn year_chars(y: i32) -> (r: Vec<char>)
    ensures
        r@ == year_text(y as int),
{
    if 0 <= y && y <= 9999 {
        pad4_exec(y as u64)
    } else if y < 0 {
        let mut v = Vec::new();
        v.push('-');
        let p = pad4_exec((-(y as i64)) as u64);
        append_all(&mut v, &p);
        assert(v@ =~= seq!['-'] + p@);
        v
    } else {
        let mut v = Vec::new();
        v.push('+');
        let p = pad4_exec(y as u64);
        append_all(&mut v, &p);
        assert(v@ =~= seq!['+'] + p@);
        v
    }
}

/// `%Y%m%d`.
pub open spec fn compact_date_text(d: Date) -> Seq<char> {
    year_text(d.year as int) + two_digits(d.month as int) + two_digits(d.day as int)
}

impl Date {
    /// The date as `%Y%m%d` characters.
    pub fn compact_chars(&self) -> (r: Vec<char>)
        requires
            self.wf(),
        ensures
            r@ == compact_date_text(*self),
    {
        let mut out = year_chars(self.year);
        let mm = two_digits_exec(self.month as u64);
        append_all(&mut out, &mm);
        let dd = two_digits_exec(self.day as u64);
        append_all(&mut out, &dd);
        out
    }
}

} // verus!
