//! Statutory holidays and make-up workdays (published each year by the State Council and
//! entered by hand; the table holds 2026), weekends, and the labels of the year view.

use crate::date::{prev_date, min_day_number, Date};
use crate::lunar::{festival_label, festival_label_of};
use crate::text::{chars_of, eq_str, string_from_chars};
use vstd::prelude::*;

verus! {

/// Whether a day is worked.
#[derive(Debug, Clone, Copy, PartialEq, Eq, Structural)]
pub enum WorkState {
    Workday,
    Weekend,
    Holiday,
    MakeupWorkday,
}

/// The 2026 holiday table, by month and day.
pub open spec fn holiday_2026(m: int, d: int) -> Option<Seq<char>> {
    if m == 1 && 1 <= d <= 3 {
        Some("元旦"@)
    } else if m == 2 && 15 <= d <= 23 {
        Some("春节"@)
    } else if m == 4 && 4 <= d <= 6 {
        Some("清明节"@)
    } else if m == 5 && 1 <= d <= 5 {
        Some("劳动节"@)
    } else if m == 6 && 19 <= d <= 21 {
        Some("端午节"@)
    } else if m == 9 && 25 <= d <= 27 {
        Some("中秋节"@)
    } else if m == 10 && 1 <= d <= 7 {
        Some("国庆节"@)
    } else {
        None
    }
}

/// The holiday a date belongs to, if any.
pub open spec fn holiday_of(date: Date) -> Option<Seq<char>> {
    if date.year == 2026 {
        holiday_2026(date.month as int, date.day as int)
    } else {
        None
    }
}

/// Weekend days worked in exchange for holidays.
pub open spec fn is_makeup_of(date: Date) -> bool {
    date.year == 2026 && {
        let (m, d) = (date.month, date.day);
        (m == 1 && d == 4) || (m == 2 && d == 14) || (m == 2 && d == 28) || (m == 5 && d == 9)
            || (m == 9 && d == 20) || (m == 10 && d == 10)
    }
}

pub open spec fn is_weekend_of(date: Date) -> bool {
    date.weekday() >= 5
}

pub open spec fn work_state_of(date: Date) -> WorkState {
    if is_makeup_of(date) {
        WorkState::MakeupWorkday
    } else if holiday_of(date) is Some {
        WorkState::Holiday
    } else if is_weekend_of(date) {
        WorkState::Weekend
    } else {
        WorkState::Workday
    }
}

/// A worked day: an ordinary workday or a make-up workday.
pub open spec fn is_workday_of(date: Date) -> bool {
    work_state_of(date) == WorkState::Workday || work_state_of(date) == WorkState::MakeupWorkday
}

/// The published 2026 arrangement, one entry per day off: (month, day, holiday).
pub open spec fn published_holidays_2026() -> Seq<(u32, u32, Seq<char>)> {
    seq![
        (1u32, 1u32, "元旦"@),
        (1u32, 2u32, "元旦"@),
        (1u32, 3u32, "元旦"@),
        (2u32, 15u32, "春节"@),
        (2u32, 16u32, "春节"@),
        (2u32, 17u32, "春节"@),
        (2u32, 18u32, "春节"@),
        (2u32, 19u32, "春节"@),
        (2u32, 20u32, "春节"@),
        (2u32, 21u32, "春节"@),
        (2u32, 22u32, "春节"@),
        (2u32, 23u32, "春节"@),
        (4u32, 4u32, "清明节"@),
        (4u32, 5u32, "清明节"@),
        (4u32, 6u32, "清明节"@),
        (5u32, 1u32, "劳动节"@),
        (5u32, 2u32, "劳动节"@),
        (5u32, 3u32, "劳动节"@),
        (5u32, 4u32, "劳动节"@),
        (5u32, 5u32, "劳动节"@),
        (6u32, 19u32, "端午节"@),
        (6u32, 20u32, "端午节"@),
        (6u32, 21u32, "端午节"@),
        (9u32, 25u32, "中秋节"@),
        (9u32, 26u32, "中秋节"@),
        (9u32, 27u32, "中秋节"@),
        (10u32, 1u32, "国庆节"@),
        (10u32, 2u32, "国庆节"@),
        (10u32, 3u32, "国庆节"@),
        (10u32, 4u32, "国庆节"@),
        (10u32, 5u32, "国庆节"@),
        (10u32, 6u32, "国庆节"@),
        (10u32, 7u32, "国庆节"@),
    ]
}

/// The holidays agree with the published 2026 arrangement: every listed day is the listed
/// holiday, and a day is a holiday only if it is listed (and in 2026).
pub proof fn lemma_holidays_published(date: Date)
    ensures
        forall|k: int| 0 <= k < published_holidays_2026().len() ==> holiday_of(
            Date { year: 2026, month: (#[trigger] published_holidays_2026()[k]).0, day: published_holidays_2026()[k].1 },
        ) == Some(published_holidays_2026()[k].2),
        holiday_of(date) is Some ==> date.year == 2026 && exists|k: int|
            0 <= k < published_holidays_2026().len() && (#[trigger] published_holidays_2026()[k]).0 == date.month
                && published_holidays_2026()[k].1 == date.day && holiday_of(date) == Some(published_holidays_2026()[k].2),
{
    let t = published_holidays_2026();
    assert(t.len() == 33);
    if holiday_of(date) is Some {
        let (m, d) = (date.month as int, date.day as int);
        let k: int = if m == 1 {
            d - 1
        } else if m == 2 {
            3 + d - 15
        } else if m == 4 {
            12 + d - 4
        } else if m == 5 {
            15 + d - 1
        } else if m == 6 {
            20 + d - 19
        } else if m == 9 {
            23 + d - 25
        } else {
            26 + d - 1
        };
        assert(t[k].0 == date.month && t[k].1 == date.day && holiday_of(date) == Some(t[k].2));
    }
}

/// The published 2026 make-up workdays: (month, day).
pub open spec fn published_makeup_days_2026() -> Seq<(u32, u32)> {
    seq![(1u32, 4u32), (2u32, 14u32), (2u32, 28u32), (5u32, 9u32), (9u32, 20u32), (10u32, 10u32)]
}

/// The make-up workdays agree with the published 2026 arrangement: a date is one exactly
/// when it is in 2026 and listed, and such a day is worked.
pub proof fn lemma_makeup_days_published(date: Date)
    ensures
        is_makeup_of(date) <==> date.year == 2026 && exists|k: int|
            0 <= k < published_makeup_days_2026().len() && (#[trigger] published_makeup_days_2026()[k]).0 == date.month
                && published_makeup_days_2026()[k].1 == date.day,
        is_makeup_of(date) ==> work_state_of(date) == WorkState::MakeupWorkday && is_workday_of(date),
{
    let t = published_makeup_days_2026();
    if is_makeup_of(date) {
        let k: int = if date.month == 1 {
            0
        } else if date.month == 2 && date.day == 14 {
            1
        } else if date.month == 2 {
            2
        } else if date.month == 5 {
            3
        } else if date.month == 9 {
            4
        } else {
            5
        };
        assert(t[k].0 == date.month && t[k].1 == date.day);
    }
}

/// The holiday name of a date, if it is a statutory holiday.
pub fn holiday_name(date: &Date) -> (r: Option<&'static str>)
    ensures
        r is Some <==> holiday_of(*date) is Some,
        r matches Some(n) ==> holiday_of(*date) == Some(n@),
{
    if date.year != 2026 {
        return None;
    }
    let (m, d) = (date.month, date.day);
    if m == 1 && 1 <= d && d <= 3 {
        Some("元旦")
    } else if m == 2 && 15 <= d && d <= 23 {
        Some("春节")
    } else if m == 4 && 4 <= d && d <= 6 {
        Some("清明节")
    } else if m == 5 && 1 <= d && d <= 5 {
        Some("劳动节")
    } else if m == 6 && 19 <= d && d <= 21 {
        Some("端午节")
    } else if m == 9 && 25 <= d && d <= 27 {
        Some("中秋节")
    } else if m == 10 && 1 <= d && d <= 7 {
        Some("国庆节")
    } else {
        None
    }
}

/// Whether a date is a weekend day worked in exchange for a holiday.
pub fn is_makeup_workday(date: &Date) -> (b: bool)
    ensures
        b == is_makeup_of(*date),
{
    let (m, d) = (date.month, date.day);
    date.year == 2026 && ((m == 1 && d == 4) || (m == 2 && d == 14) || (m == 2 && d == 28) || (m
        == 5 && d == 9) || (m == 9 && d == 20) || (m == 10 && d == 10))
}

pub fn is_weekend(date: &Date) -> (b: bool)
    requires
        date.wf(),
    ensures
        b == is_weekend_of(*date),
{
    date.weekday_from_monday() >= 5
}

pub fn work_state(date: &Date) -> (w: WorkState)
    requires
        date.wf(),
    ensures
        w == work_state_of(*date),
{
    if is_makeup_workday(date) {
        WorkState::MakeupWorkday
    } else if holiday_name(date).is_some() {
        WorkState::Holiday
    } else if is_weekend(date) {
        WorkState::Weekend
    } else {
        WorkState::Workday
    }
}

pub fn is_workday(date: &Date) -> (b: bool)
    requires
        date.wf(),
    ensures
        b == is_workday_of(*date),
{
    match work_state(date) {
        WorkState::Workday => true,
        WorkState::MakeupWorkday => true,
        _ => false,
    }
}

// ------------------------------------------------------------------
// Solar terms
// ------------------------------------------------------------------

/// Day of the month of a solar term in year `y` (2001–2099) by the common formula
/// `floor(yy * 0.2422 + C) - floor((yy - 1) / 4)`, with `yy = y % 100` and the constant
/// `C` given in ten-thousandths.
pub open spec fn term_day(y: int, c4: int) -> int {
    let yy = y % 100;
    (yy * 2422 + c4) / 10000 - (yy - 1) / 4
}

/// The two solar terms of a month: their constants and names.
pub open spec fn month_terms(m: int) -> (int, Seq<char>, int, Seq<char>) {
    if m == 1 {
        (54055, "小寒"@, 201200, "大寒"@)
    } else if m == 2 {
        (38700, "立春"@, 187300, "雨水"@)
    } else if m == 3 {
        (56300, "惊蛰"@, 206460, "春分"@)
    } else if m == 4 {
        (48100, "清明"@, 201000, "谷雨"@)
    } else if m == 5 {
        (55200, "立夏"@, 210400, "小满"@)
    } else if m == 6 {
        (56780, "芒种"@, 213700, "夏至"@)
    } else if m == 7 {
        (71080, "小暑"@, 228300, "大暑"@)
    } else if m == 8 {
        (75000, "立秋"@, 231300, "处暑"@)
    } else if m == 9 {
        (76460, "白露"@, 230420, "秋分"@)
    } else if m == 10 {
        (83180, "寒露"@, 234380, "霜降"@)
    } else if m == 11 {
        (74380, "立冬"@, 223600, "小雪"@)
    } else {
        (71800, "大雪"@, 219400, "冬至"@)
    }
}

/// The solar term falling on a date in 2001–2099.
pub open spec fn solar_term_of(date: Date) -> Option<Seq<char>> {
    if !(2001 <= date.year <= 2099) {
        None
    } else {
        let (c1, n1, c2, n2) = month_terms(date.month as int);
        if term_day(date.year as int, c1) == date.day {
            Some(n1)
        } else if term_day(date.year as int, c2) == date.day {
            Some(n2)
        } else {
            None
        }
    }
}

fn term_day_exec(y: i32, c4: i64) -> (d: i64)
    requires
        2001 <= y <= 2099,
        0 <= c4 <= 300000,
    ensures
        d == term_day(y as int, c4 as int),
{
    let yy: i64 = (y % 100) as i64;
    (yy * 2422 + c4) / 10000 - (yy - 1) / 4
}

fn solar_term_name(date: &Date) -> (r: Option<&'static str>)
    requires
        date.wf(),
    ensures
        r is Some <==> solar_term_of(*date) is Some,
        r matches Some(n) ==> solar_term_of(*date) == Some(n@),
{
    if date.year < 2001 || date.year > 2099 {
        return None;
    }
    let m = date.month;
    let (c1, n1, c2, n2): (i64, &'static str, i64, &'static str) = if m == 1 {
        (54055, "小寒", 201200, "大寒")
    } else if m == 2 {
        (38700, "立春", 187300, "雨水")
    } else if m == 3 {
        (56300, "惊蛰", 206460, "春分")
    } else if m == 4 {
        (48100, "清明", 201000, "谷雨")
    } else if m == 5 {
        (55200, "立夏", 210400, "小满")
    } else if m == 6 {
        (56780, "芒种", 213700, "夏至")
    } else if m == 7 {
        (71080, "小暑", 228300, "大暑")
    } else if m == 8 {
        (75000, "立秋", 231300, "处暑")
    } else if m == 9 {
        (76460, "白露", 230420, "秋分")
    } else if m == 10 {
        (83180, "寒露", 234380, "霜降")
    } else if m == 11 {
        (74380, "立冬", 223600, "小雪")
    } else {
        (71800, "大雪", 219400, "冬至")
    };
    if term_day_exec(date.year, c1) == date.day as i64 {
        Some(n1)
    } else if term_day_exec(date.year, c2) == date.day as i64 {
        Some(n2)
    } else {
        None
    }
}

// ------------------------------------------------------------------
// Year-view labels
// ------------------------------------------------------------------

/// The short label of a holiday's first day.
pub open spec fn holiday_short(name: Seq<char>) -> Seq<char> {
    if name == "清明节"@ {
        "清明"@
    } else if name == "劳动节"@ {
        "劳动"@
    } else if name == "端午节"@ {
        "端午"@
    } else if name == "中秋节"@ {
        "中秋"@
    } else if name == "国庆节"@ {
        "国庆"@
    } else {
        name
    }
}

/// The holiday of the preceding day, if any.
pub open spec fn previous_holiday_of(date: Date) -> Option<Seq<char>> {
    if date.dn() > min_day_number() {
        holiday_of(prev_date(date))
    } else {
        None
    }
}

/// The year-view label of a date: a traditional festival, else a solar term, else the
/// short name on the first day of a statutory holiday (the festivals whose holidays
/// surround the real day are left to the festival and solar-term labels).
pub open spec fn notable_label_of(date: Date) -> Option<Seq<char>> {
    if festival_label_of(date) is Some {
        festival_label_of(date)
    } else if solar_term_of(date) is Some {
        solar_term_of(date)
    } else {
        match holiday_of(date) {
            Some(name) => {
                if name == "春节"@ || name == "清明节"@ || name == "端午节"@ || name == "中秋节"@ {
                    None
                } else if previous_holiday_of(date) == Some(name) {
                    None
                } else {
                    Some(holiday_short(name))
                }
            },
            None => None,
        }
    }
}

fn holiday_short_chars(name: &Vec<char>) -> (r: Vec<char>)
    ensures
        r@ == holiday_short(name@),
{
    if eq_str(name, "清明节") {
        chars_of("清明")
    } else if eq_str(name, "劳动节") {
        chars_of("劳动")
    } else if eq_str(name, "端午节") {
        chars_of("端午")
    } else if eq_str(name, "中秋节") {
        chars_of("中秋")
    } else if eq_str(name, "国庆节") {
        chars_of("国庆")
    } else {
        name.clone()
    }
}

/// The label of a date in the year view.
pub fn notable_day_label(date: &Date) -> (r: Option<String>)
    requires
        date.wf(),
    ensures
        r is Some <==> notable_label_of(*date) is Some,
        r matches Some(s) ==> notable_label_of(*date) == Some(s@),
{
    if let Some(name) = festival_label(date) {
        return Some(name.to_string());
    }
    if let Some(name) = solar_term_name(date) {
        return Some(name.to_string());
    }
    if let Some(name) = holiday_name(date) {
        let n = chars_of(name);
        if eq_str(&n, "春节") || eq_str(&n, "清明节") || eq_str(&n, "端午节") || eq_str(
            &n,
            "中秋节",
        ) {
            return None;
        }
        let previous_same = match date.pred_opt() {
            Some(prev) => match holiday_name(&prev) {
                Some(p) => {
                    let pv = chars_of(p);
                    crate::text::seq_eq(&pv, &n)
                },
                None => false,
            },
            None => false,
        };
        if !previous_same {
            let short = holiday_short_chars(&n);
            return Some(string_from_chars(&short));
        }
    }
    None
}


/// The marks of one day: its holiday name, then `调休上班` when it is a make-up workday.
pub open spec fn day_marks(d: Date) -> Seq<(Date, Seq<char>)> {
    (match holiday_of(d) {
        Some(n) => seq![(d, n)],
        None => seq![],
    }) + if is_makeup_of(d) {
        seq![(d, "调休上班"@)]
    } else {
        seq![]
    }
}

/// The marks of the `count` days from day number `first` on.
pub open spec fn marks_from(first: int, count: nat) -> Seq<(Date, Seq<char>)>
    decreases count,
{
    if count == 0 {
        seq![]
    } else {
        marks_from(first, (count - 1) as nat) + day_marks(crate::db::date_of_dn(first + count - 1))
    }
}

pub open spec fn mark_views(v: Seq<(Date, String)>) -> Seq<(Date, Seq<char>)> {
    v.map_values(|m: (Date, String)| (m.0, m.1@))
}

/// The holidays and make-up workdays from `start` to `end` (both included), day by day.
pub fn holidays_in_range(start: &Date, end: &Date) -> (r: Vec<(Date, String)>)
    requires
        start.wf(),
        end.wf(),
    ensures
        mark_views(r@) == (if end.dn() < start.dn() {
            seq![]
        } else {
            marks_from(start.dn(), (end.dn() - start.dn() + 1) as nat)
        }),
{
    let mut out: Vec<(Date, String)> = Vec::new();
    if end.is_before(start) {
        assert(mark_views(out@) =~= Seq::<(Date, Seq<char>)>::empty());
        return out;
    }
    let mut d = *start;
    proof {
        crate::date::lemma_dn_range(*end);
    }
    loop
        invariant_except_break
            mark_views(out@) == marks_from(start.dn(), (d.dn() - start.dn()) as nat),
        invariant
            start.wf(),
            end.wf(),
            d.wf(),
            start.dn() <= d.dn() <= end.dn(),
            end.dn() <= crate::date::max_day_number(),
        ensures
            mark_views(out@) == marks_from(start.dn(), (end.dn() - start.dn() + 1) as nat),
        decreases end.dn() - d.dn(),
    {
        proof {
            crate::db::lemma_date_of_dn(d);
        }
        let ghost before = mark_views(out@);
        let ghost k = (d.dn() - start.dn() + 1) as nat;
        assert(marks_from(start.dn(), k) == before + day_marks(d));
        match holiday_name(&d) {
            Some(name) => {
                out.push((d, name.to_string()));
            },
            None => {},
        }
        if is_makeup_workday(&d) {
            out.push((d, "调休上班".to_string()));
        }
        assert(mark_views(out@) =~= before + day_marks(d));
        if d.same_day(end) {
            break;
        }
        assert(d.dn() < end.dn()) by {
            if d.dn() == end.dn() {
                crate::date::lemma_dn_injective(d, *end);
            }
        }
        d = match d.succ_opt() {
            Some(n) => n,
            None => {
                assert(false);
                break;
            },
        };
    }
    out
}

} // verus!
