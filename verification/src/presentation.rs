//! What the calendar views show: reminder and category texts, due dates of todos, month
//! and week arithmetic of the navigation, course weeks, and time inputs.

use crate::date::{
    advance, days_in_month, hm_text, iso_date_text, max_day_number, min_day_number, next_date,
    parse_hm, parse_iso_date, prev_date, retreat, valid_ymd, Date, MAX_YEAR, MIN_YEAR,
};
use crate::db::{Event, EventOccurrence};
use crate::recurrence::{describe_text, parse_rule, RepeatRule};
use crate::text::{
    append_all, append_str, chars_of, decimal, decimal_i64, decimal_int, decimal_u64, join,
    join_chars, parse_i64, parse_i64_spec, split, split_chars, string_from_chars, trim,
    trim_chars, trim_str, two_digits, views,
};
use vstd::prelude::*;

verus! {

// ------------------------------------------------------------------
// Reminder and category texts
// ------------------------------------------------------------------

/// One reminder offset in words: at the start, or so many days, hours or minutes before.
pub open spec fn offset_words(m: int) -> Seq<char> {
    if m == 0 {
        "准时"@
    } else if m % 1440 == 0 {
        "提前"@ + decimal_int(m / 1440) + "天"@
    } else if m % 60 == 0 {
        "提前"@ + decimal_int(m / 60) + "小时"@
    } else {
        "提前"@ + decimal_int(m) + "分钟"@
    }
}

pub open spec fn offsets_words(ms: Seq<i64>) -> Seq<Seq<char>> {
    Seq::new(ms.len(), |i: int| offset_words(ms[i] as int))
}

/// The reminders of an event in words, e.g. `0,30,1440` as `提醒：准时/提前30分钟/提前1天`;
/// empty when no offset reads.
pub open spec fn offset_label_text(offsets: Seq<char>) -> Seq<char> {
    let ws = offsets_words(crate::reminders::offsets_of(split(offsets, ',')));
    if ws.len() == 0 {
        seq![]
    } else {
        "提醒："@ + join(ws, "/"@)
    }
}

fn offset_words_chars(m: i64) -> (r: Vec<char>)
    ensures
        r@ == offset_words(m as int),
{
    if m == 0 {
        chars_of("准时")
    } else if m % 1440 == 0 {
        let mut v = chars_of("提前");
        let d = decimal_i64(m / 1440);
        append_all(&mut v, &d);
        append_str(&mut v, "天");
        v
    } else if m % 60 == 0 {
        let mut v = chars_of("提前");
        let d = decimal_i64(m / 60);
        append_all(&mut v, &d);
        append_str(&mut v, "小时");
        v
    } else {
        let mut v = chars_of("提前");
        let d = decimal_i64(m);
        append_all(&mut v, &d);
        append_str(&mut v, "分钟");
        v
    }
}

fn offset_label_chars(offsets: &str) -> (r: Vec<char>)
    ensures
        r@ == offset_label_text(offsets@),
{
    let ms = crate::reminders::reminder_offsets(offsets);
    let mut ws: Vec<Vec<char>> = Vec::new();
    let mut i: usize = 0;
    while i < ms.len()
        invariant
            i <= ms.len(),
            views(ws@) == offsets_words(ms@).take(i as int),
        decreases ms.len() - i,
    {
        let w = offset_words_chars(ms[i]);
        let ghost before = views(ws@);
        ws.push(w);
        assert(views(ws@) =~= before.push(w@));
        assert(offsets_words(ms@).take(i + 1) =~= offsets_words(ms@).take(i as int).push(w@));
        i = i + 1;
    }
    assert(offsets_words(ms@).take(ms.len() as int) =~= offsets_words(ms@));
    if ws.len() == 0 {
        Vec::new()
    } else {
        let mut v = chars_of("提醒：");
        let sep = chars_of("/");
        let j = join_chars(&ws, &sep);
        append_all(&mut v, &j);
        v
    }
}

pub fn format_offset_label(offsets: &str) -> (r: String)
    ensures
        r@ == offset_label_text(offsets@),
{
    let v = offset_label_chars(offsets);
    string_from_chars(&v)
}

/// The count of days from today to a day, in words.
pub open spec fn countdown_words(days: int) -> Seq<char> {
    if days > 0 {
        "还有"@ + decimal_int(days) + "天"@
    } else if days == 0 {
        "就是今天"@
    } else {
        "已过"@ + decimal_int(-days) + "天"@
    }
}

/// The badge of an event occurrence: the ordinal birthday or the anniversary year once the
/// occurrence is in a later year than the stored date, the days left for a countdown, and
/// nothing for an ordinary event.
pub open spec fn category_badge_text(category: Seq<char>, base: Option<Date>, occurrence: Date, today: Date) -> Seq<char> {
    if category == "birthday"@ {
        match base {
            Some(b) => if occurrence.year > b.year {
                "第"@ + decimal_int(occurrence.year - b.year + 1) + "个生日"@
            } else {
                "生日"@
            },
            None => "生日"@,
        }
    } else if category == "anniversary"@ {
        match base {
            Some(b) => if occurrence.year > b.year {
                decimal_int(occurrence.year - b.year) + "周年"@
            } else {
                "纪念日"@
            },
            None => "纪念日"@,
        }
    } else if category == "countdown"@ {
        countdown_words(occurrence.dn() - today.dn())
    } else {
        seq![]
    }
}

fn countdown_words_chars(days: i64) -> (r: Vec<char>)
    requires
        days > i64::MIN,
    ensures
        r@ == countdown_words(days as int),
{
    if days > 0 {
        let mut v = chars_of("还有");
        let d = decimal_i64(days);
        append_all(&mut v, &d);
        append_str(&mut v, "天");
        v
    } else if days == 0 {
        chars_of("就是今天")
    } else {
        let mut v = chars_of("已过");
        let d = decimal_i64(-days);
        append_all(&mut v, &d);
        append_str(&mut v, "天");
        v
    }
}

fn category_badge_chars(event: &Event, occurrence: &Date, today: &Date) -> (r: Vec<char>)
    requires
        occurrence.wf(),
        today.wf(),
    ensures
        r@ == category_badge_text(
            event.category@,
            crate::date::chrono_parse_iso_date(event.date@),
            *occurrence,
            *today,
        ),
{
    let base = parse_iso_date(event.date.as_str());
    let c = chars_of(event.category.as_str());
    if crate::text::eq_str(&c, "birthday") {
        match base {
            Some(b) => if occurrence.year > b.year {
                let mut v = chars_of("第");
                let d = decimal_i64(occurrence.year as i64 - b.year as i64 + 1);
                append_all(&mut v, &d);
                append_str(&mut v, "个生日");
                v
            } else {
                chars_of("生日")
            },
            None => chars_of("生日"),
        }
    } else if crate::text::eq_str(&c, "anniversary") {
        match base {
            Some(b) => if occurrence.year > b.year {
                let mut v = decimal_i64(occurrence.year as i64 - b.year as i64);
                append_str(&mut v, "周年");
                v
            } else {
                chars_of("纪念日")
            },
            None => chars_of("纪念日"),
        }
    } else if crate::text::eq_str(&c, "countdown") {
        proof {
            crate::date::lemma_dn_range(*occurrence);
            crate::date::lemma_dn_range(*today);
        }
        countdown_words_chars(occurrence.days_since(today))
    } else {
        Vec::new()
    }
}

/// The badge of an event on one of its days (a countdown counts from `today`).
pub fn category_badge(event: &Event, occurrence: &Date, today: &Date) -> (r: String)
    requires
        occurrence.wf(),
        today.wf(),
    ensures
        r@ == category_badge_text(
            event.category@,
            crate::date::chrono_parse_iso_date(event.date@),
            *occurrence,
            *today,
        ),
{
    let v = category_badge_chars(event, occurrence, today);
    string_from_chars(&v)
}

/// The first supported day (`NaiveDate::MIN`).
pub open spec fn first_day() -> Date {
    Date { year: MIN_YEAR, month: 1, day: 1 }
}

/// The line under an occurrence's title: its badge, how it repeats and its reminders, the
/// non-empty ones separated by two spaces. An occurrence day that does not read counts as
/// the first supported day.
pub open spec fn event_meta_spec(occ_date: Seq<char>, event: Event, today: Date) -> Seq<char> {
    let d = match crate::date::chrono_parse_iso_date(occ_date) {
        Some(x) => x,
        None => first_day(),
    };
    let parts = seq![
        category_badge_text(event.category@, crate::date::chrono_parse_iso_date(event.date@), d, today),
        describe_text(parse_rule(event.repeat_rule@)),
        offset_label_text(event.reminder_offsets@),
    ];
    join(keep_nonempty(parts), "  "@)
}

/// The non-empty texts, in order.
pub open spec fn keep_nonempty(ps: Seq<Seq<char>>) -> Seq<Seq<char>>
    decreases ps.len(),
{
    if ps.len() == 0 {
        seq![]
    } else if ps.last().len() > 0 {
        keep_nonempty(ps.drop_last()).push(ps.last())
    } else {
        keep_nonempty(ps.drop_last())
    }
}

pub fn event_meta_text(occ: &EventOccurrence, today: &Date) -> (r: String)
    requires
        today.wf(),
    ensures
        r@ == event_meta_spec(occ.occurrence_date@, occ.event, *today),
{
    let d = match parse_iso_date(occ.occurrence_date.as_str()) {
        Some(x) => x,
        None => Date { year: MIN_YEAR, month: 1, day: 1 },
    };
    let badge = category_badge_chars(&occ.event, &d, today);
    let rule = RepeatRule::parse(occ.event.repeat_rule.as_str());
    let rep = crate::recurrence::describe_chars(&rule);
    let rem = offset_label_chars(occ.event.reminder_offsets.as_str());
    let ghost parts = seq![badge@, rep@, rem@];
    let mut kept: Vec<Vec<char>> = Vec::new();
    assert(views(kept@) =~= keep_nonempty(parts.take(0)));
    let ghost k0 = views(kept@);
    if badge.len() > 0 {
        kept.push(badge);
    }
    proof {
        assert(parts.take(1).drop_last() =~= parts.take(0));
        assert(views(kept@) =~= keep_nonempty(parts.take(1)));
    }
    let ghost k1 = views(kept@);
    if rep.len() > 0 {
        kept.push(rep);
    }
    proof {
        assert(parts.take(2).drop_last() =~= parts.take(1));
        assert(views(kept@) =~= keep_nonempty(parts.take(2)));
    }
    if rem.len() > 0 {
        kept.push(rem);
    }
    proof {
        assert(parts.take(3).drop_last() =~= parts.take(2));
        assert(parts.take(3) =~= parts);
        assert(views(kept@) =~= keep_nonempty(parts));
    }
    let sep = chars_of("  ");
    let j = join_chars(&kept, &sep);
    string_from_chars(&j)
}

// ------------------------------------------------------------------
// Todos
// ------------------------------------------------------------------

/// A todo is urgent when it is due by tomorrow (overdue ones included); one without a
/// readable due date is not.
pub open spec fn is_urgent_spec(due: Option<Seq<char>>, today: Date) -> bool {
    match due {
        Some(t) => match crate::date::chrono_parse_iso_date(t) {
            Some(d) => d.dn() <= today.dn() + 1,
            None => false,
        },
        None => false,
    }
}

pub open spec fn opt_str_view(o: Option<&str>) -> Option<Seq<char>> {
    match o {
        Some(s) => Some(s@),
        None => None,
    }
}

pub fn todo_is_urgent(due_date: Option<&str>, today: &Date) -> (b: bool)
    requires
        today.wf(),
        today.dn() < max_day_number(),
    ensures
        b == is_urgent_spec(opt_str_view(due_date), *today),
{
    match due_date {
        Some(t) => match parse_iso_date(t) {
            Some(d) => {
                proof {
                    crate::date::lemma_dn_range(d);
                    crate::date::lemma_dn_range(*today);
                }
                d.day_number() <= today.day_number() + 1
            },
            None => false,
        },
        None => false,
    }
}

/// The due date of a todo in words: overdue, due today, or due on a day.
pub open spec fn due_text_spec(due: Option<Seq<char>>, today: Date) -> Seq<char> {
    match due {
        Some(t) => match crate::date::chrono_parse_iso_date(t) {
            Some(d) => if d.dn() < today.dn() {
                "已逾期 "@ + iso_date_text(d)
            } else if d.dn() == today.dn() {
                "今天到期"@
            } else {
                iso_date_text(d) + " 到期"@
            },
            None => seq![],
        },
        None => seq![],
    }
}

pub fn todo_due_text(due_date: Option<&str>, today: &Date) -> (r: String)
    requires
        today.wf(),
    ensures
        r@ == due_text_spec(opt_str_view(due_date), *today),
{
    match due_date {
        Some(t) => match parse_iso_date(t) {
            Some(d) => {
                if d.is_before(today) {
                    let mut v = chars_of("已逾期 ");
                    let iso = d.iso_chars();
                    append_all(&mut v, &iso);
                    string_from_chars(&v)
                } else if d.same_day(today) {
                    "今天到期".to_string()
                } else {
                    let mut v = d.iso_chars();
                    append_str(&mut v, " 到期");
                    string_from_chars(&v)
                }
            },
            None => String::new(),
        },
        None => String::new(),
    }
}

// ------------------------------------------------------------------
// Month, week and course-week arithmetic
// ------------------------------------------------------------------

/// The last day of a month: the day before the first of the next month, when both exist.
pub open spec fn month_end_spec(year: int, month: int) -> Option<Date> {
    let (ny, nm) = if month == 12 {
        (year + 1, 1int)
    } else {
        (year, month + 1)
    };
    if valid_ymd(ny, nm, 1) {
        let first = Date { year: ny as i32, month: nm as u32, day: 1 };
        if first.dn() > min_day_number() {
            Some(prev_date(first))
        } else {
            None
        }
    } else {
        None
    }
}

pub fn month_end(year: i32, month: u32) -> (r: Option<Date>)
    requires
        month == 12 ==> year < i32::MAX,
        month != 12 ==> month < u32::MAX,
    ensures
        r == month_end_spec(year as int, month as int),
{
    let (ny, nm) = if month == 12 {
        (year + 1, 1u32)
    } else {
        (year, month + 1)
    };
    match Date::from_ymd_opt(ny, nm, 1) {
        Some(first) => first.pred_opt(),
        None => None,
    }
}

/// The first day of the week that holds `anchor`: Monday, or Sunday when weeks start on
/// Sunday.
pub fn week_start_of(anchor: &Date, week_starts_sunday: bool) -> (r: Date)
    requires
        anchor.wf(),
        anchor.dn() - 6 >= min_day_number(),
    ensures
        r.wf(),
        r.dn() == anchor.dn() - (if week_starts_sunday {
            anchor.weekday_from_sun()
        } else {
            anchor.weekday()
        }),
{
    let leading: i64 = if week_starts_sunday {
        anchor.weekday_from_sunday() as i64
    } else {
        anchor.weekday_from_monday() as i64
    };
    match anchor.add_days(-leading) {
        Some(d) => d,
        None => *anchor,
    }
}

/// The course week (1..=30) that holds a day of a term starting at `term_start`; days before
/// the term are in week 1.
pub open spec fn course_week_spec(term_start: Date, date: Date) -> int {
    if date.dn() < term_start.dn() {
        1
    } else {
        let w = (date.dn() - term_start.dn()) / 7 + 1;
        if w < 1 {
            1
        } else if w > 30 {
            30
        } else {
            w
        }
    }
}

pub fn course_week_for_date(term_start: &Date, date: &Date) -> (r: i32)
    requires
        term_start.wf(),
        date.wf(),
    ensures
        r == course_week_spec(*term_start, *date),
{
    if date.is_before(term_start) {
        1
    } else {
        let days = date.days_since(term_start);
        let w = days / 7 + 1;
        if w < 1 {
            1
        } else if w > 30 {
            30
        } else {
            w as i32
        }
    }
}

/// The first and last day of a course week (held to 1..=30) of a term.
pub fn course_week_range(term_start: &Date, week: i32) -> (r: (Date, Date))
    requires
        term_start.wf(),
        term_start.dn() + 209 <= max_day_number(),
    ensures
        ({
            let w = if week < 1 {
                1int
            } else if week > 30 {
                30int
            } else {
                week as int
            };
            &&& r.0.wf() && r.1.wf()
            &&& r.0.dn() == term_start.dn() + (w - 1) * 7
            &&& r.1.dn() == r.0.dn() + 6
        }),
{
    let w: i64 = if week < 1 {
        1
    } else if week > 30 {
        30
    } else {
        week as i64
    };
    proof {
        crate::date::lemma_dn_range(*term_start);
    }
    let start = match term_start.add_days((w - 1) * 7) {
        Some(d) => d,
        None => *term_start,
    };
    let end = match start.add_days(6) {
        Some(d) => d,
        None => start,
    };
    (start, end)
}

/// The month after (for a positive or zero step) or before (negative) a month.
pub open spec fn shift_month_spec(year: int, month: int, delta: int) -> (int, int) {
    if delta < 0 {
        if month == 1 {
            (year - 1, 12)
        } else {
            (year, month - 1)
        }
    } else if month == 12 {
        (year + 1, 1)
    } else {
        (year, month + 1)
    }
}

/// Moves the month view one month; the selected day becomes the first.
pub fn shift_month(year: i32, month: u32, delta: i32) -> (r: (i32, u32))
    requires
        1 <= month <= 12,
        i32::MIN < year < i32::MAX,
    ensures
        (r.0 as int, r.1 as int) == shift_month_spec(year as int, month as int, delta as int),
{
    if delta < 0 {
        if month == 1 {
            (year - 1, 12)
        } else {
            (year, month - 1)
        }
    } else if month == 12 {
        (year + 1, 1)
    } else {
        (year, month + 1)
    }
}

/// Moves the selected date by years; a day the new month lacks (29 February) becomes the
/// month's last day.
pub fn shift_year(year: i32, month: u32, day: u32, delta: i32) -> (r: (i32, u32))
    requires
        1 <= month <= 12,
        1 <= day,
        MIN_YEAR <= year + delta <= MAX_YEAR,
    ensures
        r.0 == year + delta,
        r.1 == (if day as int <= days_in_month(year + delta, month as int) {
            day as int
        } else {
            days_in_month(year + delta, month as int)
        }),
{
    let y = year + delta;
    let mut d = day;
    while Date::from_ymd_opt(y, month, d).is_none()
        invariant
            1 <= month <= 12,
            MIN_YEAR <= y <= MAX_YEAR,
            1 <= d <= day,
            day as int > days_in_month(y as int, month as int) ==> d >= days_in_month(y as int, month as int),
            day as int <= days_in_month(y as int, month as int) ==> d == day,
        decreases d,
    {
        d = if d > 0 { d - 1 } else { 0 };
    }
    (y, d)
}

// ------------------------------------------------------------------
// Inputs and timers
// ------------------------------------------------------------------

pub open spec fn widget_time_spec(value: Seq<char>) -> Result<Seq<char>, Seq<char>> {
    let v = trim(value);
    match crate::date::chrono_parse_hm(v) {
        Some((h, m)) => Ok(hm_text(h as int, m as int)),
        None => Err("时间格式错误："@ + v + "（应为 HH:MM）"@),
    }
}

/// Reads an `HH:MM` time typed into a widget and writes it back in two-digit form.
pub fn parse_widget_time(value: &str) -> (r: Result<String, String>)
    ensures
        crate::db::result_string_view(r) == widget_time_spec(value@),
{
    let v = trim_str(value);
    let text = string_from_chars(&v);
    match parse_hm(text.as_str()) {
        Some((h, m)) => {
            let t = crate::ics::hm_chars(h, m);
            Ok(string_from_chars(&t))
        },
        None => {
            let mut e = chars_of("时间格式错误：");
            append_all(&mut e, &v);
            append_str(&mut e, "（应为 HH:MM）");
            Err(string_from_chars(&e))
        },
    }
}

pub open spec fn ui_date_spec(value: Seq<char>, today: Date) -> Result<Date, Seq<char>> {
    let v = trim(value);
    if v == "今天"@ {
        Ok(today)
    } else if v == "明天"@ {
        Ok(next_date(today))
    } else {
        match crate::date::chrono_parse_iso_date(v) {
            Some(d) => Ok(d),
            None => Err("日期格式错误："@ + v + "（应为 YYYY-MM-DD）"@),
        }
    }
}

/// Reads a date typed into a form: `今天`, `明天` or `YYYY-MM-DD`.
pub fn parse_ui_date(value: &str, today: &Date) -> (r: Result<Date, String>)
    requires
        today.wf(),
        today.dn() < max_day_number(),
    ensures
        match (r, ui_date_spec(value@, *today)) {
            (Ok(a), Ok(b)) => a == b,
            (Err(a), Err(b)) => a@ == b,
            _ => false,
        },
{
    let v = trim_str(value);
    if crate::text::eq_str(&v, "今天") {
        Ok(*today)
    } else if crate::text::eq_str(&v, "明天") {
        match today.succ_opt() {
            Some(d) => Ok(d),
            None => Ok(*today),
        }
    } else {
        let text = string_from_chars(&v);
        match parse_iso_date(text.as_str()) {
            Some(d) => Ok(d),
            None => {
                let mut e = chars_of("日期格式错误：");
                append_all(&mut e, &v);
                append_str(&mut e, "（应为 YYYY-MM-DD）");
                Err(string_from_chars(&e))
            },
        }
    }
}

/// At least two digits (`{:02}`).
fn pad2(n: u64) -> (r: Vec<char>)
    ensures
        r@ == two_digits(n as int),
{
    let d = decimal_u64(n);
    if n < 10 {
        let mut v = Vec::new();
        v.push('0');
        append_all(&mut v, &d);
        v
    } else {
        d
    }
}

/// `HH:MM:SS` of a count of seconds (hours may pass 99).
pub open spec fn duration_text(s: int) -> Seq<char> {
    two_digits(s / 3600) + ":"@ + two_digits((s / 60) % 60) + ":"@ + two_digits(s % 60)
}

pub fn format_duration(seconds: u64) -> (r: String)
    ensures
        r@ == duration_text(seconds as int),
{
    let mut v = pad2(seconds / 3600);
    append_str(&mut v, ":");
    let m = pad2((seconds / 60) % 60);
    append_all(&mut v, &m);
    append_str(&mut v, ":");
    let s = pad2(seconds % 60);
    append_all(&mut v, &s);
    string_from_chars(&v)
}

// ------------------------------------------------------------------
// Records and shifts
// ------------------------------------------------------------------

/// The category and the line shown for a long-term record: a countdown counts the days from
/// today (or says its date is wrong), the others say how they repeat.
pub open spec fn record_texts_spec(event: Event, today: Date) -> (Seq<char>, Seq<char>) {
    let c = event.category@;
    let category = if c == "birthday"@ {
        "生日"@
    } else if c == "anniversary"@ {
        "纪念日"@
    } else if c == "countdown"@ {
        "倒数日"@
    } else {
        "记录"@
    };
    let meta = if c == "countdown"@ {
        match crate::date::chrono_parse_iso_date(event.date@) {
            Some(d) => {
                let days = d.dn() - today.dn();
                if days > 0 {
                    "还有 "@ + decimal_int(days) + " 天"@
                } else if days == 0 {
                    "就是今天"@
                } else {
                    "已过 "@ + decimal_int(-days) + " 天"@
                }
            },
            None => "日期格式错误"@,
        }
    } else {
        describe_text(parse_rule(event.repeat_rule@))
    };
    (category, meta)
}

pub fn record_texts(event: &Event, today: &Date) -> (r: (String, String))
    requires
        today.wf(),
    ensures
        (r.0@, r.1@) == record_texts_spec(*event, *today),
{
    let c = chars_of(event.category.as_str());
    let is_countdown = crate::text::eq_str(&c, "countdown");
    let category = if crate::text::eq_str(&c, "birthday") {
        "生日"
    } else if crate::text::eq_str(&c, "anniversary") {
        "纪念日"
    } else if is_countdown {
        "倒数日"
    } else {
        "记录"
    };
    let meta = if is_countdown {
        match parse_iso_date(event.date.as_str()) {
            Some(d) => {
                proof {
                    crate::date::lemma_dn_range(d);
                    crate::date::lemma_dn_range(*today);
                }
                let days = d.days_since(today);
                if days > 0 {
                    let mut v = chars_of("还有 ");
                    let n = decimal_i64(days);
                    append_all(&mut v, &n);
                    append_str(&mut v, " 天");
                    string_from_chars(&v)
                } else if days == 0 {
                    "就是今天".to_string()
                } else {
                    let mut v = chars_of("已过 ");
                    let n = decimal_i64(-days);
                    append_all(&mut v, &n);
                    append_str(&mut v, " 天");
                    string_from_chars(&v)
                }
            },
            None => "日期格式错误".to_string(),
        }
    } else {
        crate::recurrence::describe(&RepeatRule::parse(event.repeat_rule.as_str()))
    };
    (category.to_string(), meta)
}

/// The hours of a shift (`start-end`), or `休息` for a shift without both.
pub fn shift_time_text(start: Option<&str>, end: Option<&str>) -> (r: String)
    ensures
        r@ == (match (start, end) {
            (Some(s), Some(e)) => s@ + "-"@ + e@,
            _ => "休息"@,
        }),
{
    match (start, end) {
        (Some(s), Some(e)) => {
            let mut v = chars_of(s);
            append_str(&mut v, "-");
            append_str(&mut v, e);
            string_from_chars(&v)
        },
        _ => "休息".to_string(),
    }
}

} // verus!
