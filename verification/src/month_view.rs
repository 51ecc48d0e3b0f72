//! The month grid of the calendar: six weeks of days around a month, each with its marks
//! (today, weekend, holiday, make-up workday), its lunar and festival texts, its ISO week
//! and the first events of the day.

use crate::date::{is_leap_year, iso_date_text, max_day_number, min_day_number, ymd_number, Date};
use crate::db::{date_of_dn, insert_sorted, occ_view, occ_views, sort_occurrences, Event, EventOccurrence};
use std::collections::{HashMap, HashSet};
use vstd::prelude::*;

verus! {

broadcast use vstd::std_specs::hash::group_hash_axioms;

// ------------------------------------------------------------------
// ISO weeks
// ------------------------------------------------------------------

/// The weekday of the first of January of year `y` (0 = Monday).
pub open spec fn jan1_weekday(y: int) -> int {
    (ymd_number(y, 1, 1) - 1) % 7
}

/// An ISO year has 53 weeks when it starts on a Thursday, or on a Wednesday in a leap year.
pub open spec fn iso_weeks_in_year(y: int) -> int {
    if jan1_weekday(y) == 3 || (is_leap_year(y) && jan1_weekday(y) == 2) {
        53
    } else {
        52
    }
}

/// The ISO 8601 week of a day: weeks start on Monday and week 1 holds the year's first
/// Thursday; days before it belong to the last week of the year before, and days after
/// the year's last week to week 1 of the next (`IsoWeek::week`).
pub open spec fn iso_week_spec(d: Date) -> int {
    let ordinal = d.dn() - ymd_number(d.year as int, 1, 1) + 1;
    let w = (ordinal - (d.weekday() + 1) + 10) / 7;
    if w < 1 {
        iso_weeks_in_year(d.year - 1)
    } else if w > iso_weeks_in_year(d.year as int) {
        1
    } else {
        w
    }
}

fn weeks_in_year(y: i32, jan1: i64) -> (n: i64)
    requires
        jan1 == ymd_number(y as int, 1, 1),
        -200_000_000 <= jan1 <= 200_000_000,
    ensures
        n == iso_weeks_in_year(y as int),
{
    let shifted: i64 = jan1 - 1 + 7 * 30_000_000;
    let wd: i64 = shifted % 7;
    proof {
        vstd::arithmetic::div_mod::lemma_mod_multiples_vanish(30_000_000, jan1 - 1, 7);
    }
    if wd == 3 || (crate::date::is_leap(y) && wd == 2) {
        53
    } else {
        52
    }
}

/// The ISO week number of a day.
pub fn iso_week_number(d: &Date) -> (w: u32)
    requires
        d.wf(),
    ensures
        w == iso_week_spec(*d),
{
    let jan1 = Date { year: d.year, month: 1, day: 1 };
    assert(jan1.wf());
    let j = jan1.day_number();
    let n = d.day_number();
    proof {
        crate::date::lemma_dn_range(*d);
        crate::date::lemma_dn_range(jan1);
    }
    let ordinal = n - j + 1;
    let wd = d.weekday_from_monday() as i64 + 1;
    proof {
        if !(d.month == 1 && d.day == 1) {
            crate::date::lemma_dn_lex(jan1, *d);
        }
    }
    let w: i64 = (ordinal - wd + 10) / 7;
    let this_year = weeks_in_year(d.year, j);
    if w < 1 {
        let prev_year: i32 = d.year - 1;
        let len: i64 = if crate::date::is_leap(prev_year) {
            366
        } else {
            365
        };
        let prev_jan1 = j - len;
        proof {
            crate::date::lemma_days_before_year_step(prev_year as int);
        }
        weeks_in_year(prev_year, prev_jan1) as u32
    } else if w > this_year {
        1
    } else {
        w as u32
    }
}

// ------------------------------------------------------------------
// The month grid
// ------------------------------------------------------------------

/// An event shown in a day cell: its id, title and the color of its calendar.
#[derive(Debug, Clone)]
pub struct EventTag {
    pub id: i64,
    pub title: String,
    pub color: String,
}

/// One day of the month grid.
#[derive(Debug, Clone)]
pub struct CalendarDay {
    pub date: String,
    pub day: u32,
    pub in_current_month: bool,
    pub is_today: bool,
    pub is_weekend: bool,
    pub is_holiday: bool,
    pub is_makeup_workday: bool,
    pub lunar_text: String,
    pub special_text: String,
    pub has_events: bool,
    pub week_number: u32,
    /// The first two events of the day by time (untimed first).
    pub event_tags: Vec<EventTag>,
    /// How many events of the day are not shown as tags.
    pub extra_count: usize,
}

/// The color of an event whose calendar has none.
pub open spec fn default_tag_color() -> Seq<char> {
    "#2e6be6"@
}

/// The first day of the grid: the first of the month moved back to the start of its week
/// (Sunday or Monday); `None` when the month, or that day, or the grid's last day (41 days
/// later), is not a supported date.
pub open spec fn grid_start(year: int, month: int, week_starts_sunday: bool) -> Option<int> {
    if !crate::date::valid_ymd(year, month, 1) {
        None
    } else {
        let n = ymd_number(year, month, 1);
        let leading = if week_starts_sunday {
            n % 7
        } else {
            (n - 1) % 7
        };
        let s = n - leading;
        if min_day_number() <= s && s + 41 <= max_day_number() {
            Some(s)
        } else {
            None
        }
    }
}

/// The occurrences whose calendar is shown, in order.
pub open spec fn shown(occs: Seq<(Event, Seq<char>)>, ids: Set<i64>) -> Seq<(Event, Seq<char>)>
    decreases occs.len(),
{
    if occs.len() == 0 {
        seq![]
    } else {
        let r = shown(occs.drop_last(), ids);
        if ids.contains(occs.last().0.calendar_id) {
            r.push(occs.last())
        } else {
            r
        }
    }
}

/// The occurrences on the day with this text, in order.
pub open spec fn on_day(occs: Seq<(Event, Seq<char>)>, day: Seq<char>) -> Seq<(Event, Seq<char>)>
    decreases occs.len(),
{
    if occs.len() == 0 {
        seq![]
    } else {
        let r = on_day(occs.drop_last(), day);
        if occs.last().1 == day {
            r.push(occs.last())
        } else {
            r
        }
    }
}

/// The color of a calendar, or the default one.
pub open spec fn tag_color(colors: Map<i64, String>, calendar_id: i64) -> Seq<char> {
    if colors.contains_key(calendar_id) {
        colors[calendar_id]@
    } else {
        default_tag_color()
    }
}

pub open spec fn tag_view(t: EventTag) -> (i64, Seq<char>, Seq<char>) {
    (t.id, t.title@, t.color@)
}

pub open spec fn tag_views(v: Seq<EventTag>) -> Seq<(i64, Seq<char>, Seq<char>)> {
    Seq::new(v.len(), |i: int| tag_view(v[i]))
}

/// The tags of a day: the first two of its occurrences by time.
pub open spec fn day_tags(sorted: Seq<(Event, Seq<char>)>, colors: Map<i64, String>) -> Seq<(i64, Seq<char>, Seq<char>)> {
    let n = if sorted.len() < 2 {
        sorted.len() as int
    } else {
        2
    };
    Seq::new(n as nat, |i: int| (sorted[i].0.id, sorted[i].0.title@, tag_color(colors, sorted[i].0.calendar_id)))
}

/// What the cell of day `d` shows, given the occurrences of the shown calendars.
pub open spec fn cell_shows(
    c: CalendarDay,
    d: Date,
    year: int,
    month: int,
    today: Date,
    occs: Seq<(Event, Seq<char>)>,
    colors: Map<i64, String>,
) -> bool {
    let day_occs = sort_occurrences(on_day(occs, iso_date_text(d)));
    &&& c.date@ == iso_date_text(d)
    &&& c.day == d.day
    &&& c.in_current_month == (d.month == month && d.year == year)
    &&& c.is_today == (d == today)
    &&& c.is_weekend == crate::holidays::is_weekend_of(d)
    &&& c.is_holiday == crate::holidays::holiday_of(d) is Some
    &&& c.is_makeup_workday == crate::holidays::is_makeup_of(d)
    &&& c.lunar_text@ == crate::lunar::short_label_text(d)
    &&& c.special_text@ == (match crate::holidays::notable_label_of(d) {
        Some(t) => t,
        None => seq![],
    })
    &&& c.has_events == (day_occs.len() > 0)
    &&& c.week_number == iso_week_spec(d)
    &&& tag_views(c.event_tags@) == day_tags(day_occs, colors)
    &&& c.extra_count == (if day_occs.len() > 2 {
        day_occs.len() - 2
    } else {
        0
    })
}

/// Every day of a 42-day grid from day number `s` shows what `cell_shows` says.
#[verifier::opaque]
pub open spec fn month_shows(
    r: Seq<CalendarDay>,
    s: int,
    year: int,
    month: int,
    today: Date,
    occs: Seq<(Event, Seq<char>)>,
    colors: Map<i64, String>,
) -> bool {
    &&& r.len() == 42
    &&& forall|k: int| 0 <= k < 42 ==> cell_shows(#[trigger] r[k], date_of_dn(s + k), year, month, today, occs, colors)
}

fn shown_occurrences(occs: &Vec<EventOccurrence>, ids: &HashSet<i64>) -> (r: Vec<EventOccurrence>)
    ensures
        occ_views(r@) == shown(occ_views(occs@), ids@),
{
    let ghost all = occ_views(occs@);
    let mut out: Vec<EventOccurrence> = Vec::new();
    let mut i: usize = 0;
    assert(all.take(0) =~= Seq::<(Event, Seq<char>)>::empty());
    assert(occ_views(out@) =~= Seq::<(Event, Seq<char>)>::empty());
    while i < occs.len()
        invariant
            i <= occs.len(),
            all == occ_views(occs@),
            occ_views(out@) == shown(all.take(i as int), ids@),
        decreases occs.len() - i,
    {
        assert(all.take(i + 1).drop_last() =~= all.take(i as int));
        assert(all.take(i + 1).last() == occ_view(occs@[i as int]));
        if ids.contains(&occs[i].event.calendar_id) {
            let ghost before = occ_views(out@);
            out.push(EventOccurrence { event: occs[i].event.copied(), occurrence_date: occs[i].occurrence_date.clone() });
            assert(occ_views(out@) =~= before.push(occ_view(occs@[i as int])));
        }
        i = i + 1;
    }
    assert(all.take(occs.len() as int) =~= all);
    out
}

/// The occurrences on one day, sorted by time.
fn day_sorted(occs: &Vec<EventOccurrence>, day: &Vec<char>) -> (r: Vec<EventOccurrence>)
    ensures
        occ_views(r@) == sort_occurrences(on_day(occ_views(occs@), day@)),
{
    let ghost all = occ_views(occs@);
    let mut out: Vec<EventOccurrence> = Vec::new();
    let mut i: usize = 0;
    assert(all.take(0) =~= Seq::<(Event, Seq<char>)>::empty());
    assert(occ_views(out@) =~= Seq::<(Event, Seq<char>)>::empty());
    while i < occs.len()
        invariant
            i <= occs.len(),
            all == occ_views(occs@),
            occ_views(out@) == sort_occurrences(on_day(all.take(i as int), day@)),
        decreases occs.len() - i,
    {
        let ghost t = all.take(i + 1);
        assert(t.drop_last() =~= all.take(i as int));
        assert(t.last() == occ_view(occs@[i as int]));
        let text = crate::text::chars_of(occs[i].occurrence_date.as_str());
        if crate::text::seq_eq(&text, day) {
            let item = EventOccurrence { event: occs[i].event.copied(), occurrence_date: occs[i].occurrence_date.clone() };
            proof {
                let o = on_day(all.take(i as int), day@);
                assert(on_day(t, day@) == o.push(occ_view(item)));
                assert(on_day(t, day@).drop_last() =~= o);
            }
            crate::db::insert_occurrence(&mut out, item);
        }
        i = i + 1;
    }
    assert(all.take(occs.len() as int) =~= all);
    out
}

fn tag_color_exec(colors: &HashMap<i64, String>, calendar_id: i64) -> (r: String)
    ensures
        r@ == tag_color(colors@, calendar_id),
{
    match colors.get(&calendar_id) {
        Some(c) => c.clone(),
        None => "#2e6be6".to_string(),
    }
}

fn day_cell(d: &Date, year: i32, month: u32, today: &Date, occs: &Vec<EventOccurrence>, colors: &HashMap<i64, String>) -> (c: CalendarDay)
    requires
        d.wf(),
    ensures
        cell_shows(c, *d, year as int, month as int, *today, occ_views(occs@), colors@),
{
    let text = d.iso_chars();
    let sorted = day_sorted(occs, &text);
    let ghost sv = occ_views(sorted@);
    let mut tags: Vec<EventTag> = Vec::new();
    let mut i: usize = 0;
    let n: usize = if sorted.len() < 2 {
        sorted.len()
    } else {
        2
    };
    while i < n
        invariant
            i <= n,
            n <= sorted.len(),
            n == (if sorted.len() < 2 {
                sorted.len()
            } else {
                2
            }),
            sv == occ_views(sorted@),
            tag_views(tags@) == day_tags(sv, colors@).take(i as int),
        decreases n - i,
    {
        let ev = &sorted[i].event;
        assert(sv[i as int] == occ_view(sorted@[i as int]));
        let tag = EventTag { id: ev.id, title: ev.title.clone(), color: tag_color_exec(colors, ev.calendar_id) };
        let ghost before = tag_views(tags@);
        tags.push(tag);
        assert(tag_views(tags@) =~= before.push(tag_view(tag)));
        assert(day_tags(sv, colors@).take(i + 1) =~= day_tags(sv, colors@).take(i as int).push(
            day_tags(sv, colors@)[i as int],
        ));
        i = i + 1;
    }
    assert(day_tags(sv, colors@).take(n as int) =~= day_tags(sv, colors@));
    let special = match crate::holidays::notable_day_label(d) {
        Some(s) => s,
        None => String::new(),
    };
    CalendarDay {
        date: crate::text::string_from_chars(&text),
        day: d.day,
        in_current_month: d.month == month && d.year == year,
        is_today: *d == *today,
        is_weekend: crate::holidays::is_weekend(d),
        is_holiday: crate::holidays::holiday_name(d).is_some(),
        is_makeup_workday: crate::holidays::is_makeup_workday(d),
        lunar_text: crate::lunar::short_label(d),
        special_text: special,
        has_events: sorted.len() > 0,
        week_number: iso_week_number(d),
        event_tags: tags,
        extra_count: if sorted.len() > 2 {
            sorted.len() - 2
        } else {
            0
        },
    }
}

/// The 42 days of the grid of a month (six weeks from `grid_start`), each with what it
/// shows (`cell_shows`) given the occurrences of the calendars in `visible_ids`; no days
/// when the grid leaves the supported dates.
pub fn month_days(
    year: i32,
    month: u32,
    week_starts_sunday: bool,
    occurrences: &Vec<EventOccurrence>,
    visible_ids: &HashSet<i64>,
    colors: &HashMap<i64, String>,
    today: &Date,
) -> (r: Vec<CalendarDay>)
    ensures
        match grid_start(year as int, month as int, week_starts_sunday) {
            None => r@.len() == 0,
            Some(s) => r@.len() == 42 && month_shows(
                r@,
                s,
                year as int,
                month as int,
                *today,
                shown(occ_views(occurrences@), visible_ids@),
                colors@,
            ),
        },
{
    let first = match Date::from_ymd_opt(year, month, 1) {
        Some(d) => d,
        None => return Vec::new(),
    };
    let leading: i64 = if week_starts_sunday {
        first.weekday_from_sunday() as i64
    } else {
        first.weekday_from_monday() as i64
    };
    let start = match first.add_days(-leading) {
        Some(d) => d,
        None => return Vec::new(),
    };
    if start.add_days(41).is_none() {
        return Vec::new();
    }
    let ghost s = start.dn();
    assert(grid_start(year as int, month as int, week_starts_sunday) == Some(s));
    let occs = shown_occurrences(occurrences, visible_ids);
    let mut days: Vec<CalendarDay> = Vec::new();
    let mut k: i64 = 0;
    while k < 42
        invariant
            0 <= k <= 42,
            start.wf(),
            s == start.dn(),
            s + 41 <= max_day_number(),
            min_day_number() <= s,
            days@.len() == k,
            occ_views(occs@) == shown(occ_views(occurrences@), visible_ids@),
            forall|j: int|
                0 <= j < k ==> cell_shows(
                    #[trigger] days@[j],
                    date_of_dn(s + j),
                    year as int,
                    month as int,
                    *today,
                    occ_views(occs@),
                    colors@,
                ),
        decreases 42 - k,
    {
        let d = match start.add_days(k) {
            Some(d) => d,
            None => return days,
        };
        proof {
            crate::db::lemma_date_of_dn(d);
        }
        let cell = day_cell(&d, year, month, today, &occs, colors);
        days.push(cell);
        k = k + 1;
    }
    proof {
        reveal(month_shows);
    }
    days
}

/// The month grid with the occurrences read from the database; a failed read shows the
/// days without events.
pub fn build_month_days(
    conn: &rusqlite::Connection,
    year: i32,
    month: u32,
    week_starts_sunday: bool,
    visible_ids: &HashSet<i64>,
    colors: &HashMap<i64, String>,
    today: &Date,
) -> (r: Vec<CalendarDay>)
    ensures
        match grid_start(year as int, month as int, week_starts_sunday) {
            None => r@.len() == 0,
            Some(s) => r@.len() == 42 && exists|occs: Seq<(Event, Seq<char>)>|
                #[trigger] month_shows(r@, s, year as int, month as int, *today, shown(occs, visible_ids@), colors@),
        },
{
    let first = match Date::from_ymd_opt(year, month, 1) {
        Some(d) => d,
        None => return Vec::new(),
    };
    let leading: i64 = if week_starts_sunday {
        first.weekday_from_sunday() as i64
    } else {
        first.weekday_from_monday() as i64
    };
    let start = match first.add_days(-leading) {
        Some(d) => d,
        None => return Vec::new(),
    };
    let end = match start.add_days(41) {
        Some(d) => d,
        None => return Vec::new(),
    };
    let occurrences = match crate::db::list_event_occurrences(conn, &start, &end) {
        Ok(v) => v,
        Err(_) => Vec::new(),
    };
    assert(grid_start(year as int, month as int, week_starts_sunday) == Some(start.dn()));
    let r = month_days(year, month, week_starts_sunday, &occurrences, visible_ids, colors, today);
    r
}

// ------------------------------------------------------------------
// Hidden calendars
// ------------------------------------------------------------------

/// Every occurrence belongs to a shown calendar.
pub open spec fn all_shown(occs: Seq<(Event, Seq<char>)>, ids: Set<i64>) -> bool {
    forall|i: int| 0 <= i < occs.len() ==> ids.contains((#[trigger] occs[i]).0.calendar_id)
}

proof fn lemma_shown_all(occs: Seq<(Event, Seq<char>)>, ids: Set<i64>)
    ensures
        all_shown(shown(occs, ids), ids),
    decreases occs.len(),
{
    if occs.len() > 0 {
        lemma_shown_all(occs.drop_last(), ids);
    }
}

proof fn lemma_on_day_keeps(occs: Seq<(Event, Seq<char>)>, ids: Set<i64>, day: Seq<char>)
    requires
        all_shown(occs, ids),
    ensures
        all_shown(on_day(occs, day), ids),
    decreases occs.len(),
{
    if occs.len() > 0 {
        assert(all_shown(occs.drop_last(), ids)) by {
            assert forall|i: int| 0 <= i < occs.drop_last().len() implies ids.contains(
                (#[trigger] occs.drop_last()[i]).0.calendar_id,
            ) by {
                assert(occs.drop_last()[i] == occs[i]);
            }
        }
        lemma_on_day_keeps(occs.drop_last(), ids, day);
        assert(ids.contains(occs[occs.len() - 1].0.calendar_id));
    }
}

proof fn lemma_insert_keeps(s: Seq<(Event, Seq<char>)>, x: (Event, Seq<char>), ids: Set<i64>)
    requires
        all_shown(s, ids),
        ids.contains(x.0.calendar_id),
    ensures
        all_shown(insert_sorted(s, x), ids),
    decreases s.len(),
{
    if s.len() > 0 {
        assert(all_shown(s.drop_last(), ids)) by {
            assert forall|i: int| 0 <= i < s.drop_last().len() implies ids.contains(
                (#[trigger] s.drop_last()[i]).0.calendar_id,
            ) by {
                assert(s.drop_last()[i] == s[i]);
            }
        }
        lemma_insert_keeps(s.drop_last(), x, ids);
        assert(ids.contains(s[s.len() - 1].0.calendar_id));
    }
}

proof fn lemma_sort_keeps(s: Seq<(Event, Seq<char>)>, ids: Set<i64>)
    requires
        all_shown(s, ids),
    ensures
        all_shown(sort_occurrences(s), ids),
    decreases s.len(),
{
    if s.len() > 0 {
        assert(all_shown(s.drop_last(), ids)) by {
            assert forall|i: int| 0 <= i < s.drop_last().len() implies ids.contains(
                (#[trigger] s.drop_last()[i]).0.calendar_id,
            ) by {
                assert(s.drop_last()[i] == s[i]);
            }
        }
        lemma_sort_keeps(s.drop_last(), ids);
        assert(ids.contains(s[s.len() - 1].0.calendar_id));
        lemma_insert_keeps(sort_occurrences(s.drop_last()), s.last(), ids);
    }
}

/// A hidden calendar's events appear on no day of the grid: every occurrence a day lists
/// (the ones its tags and its count come from) belongs to a calendar that is shown.
pub proof fn lemma_hidden_calendars_show_nothing(occs: Seq<(Event, Seq<char>)>, ids: Set<i64>, day: Seq<char>)
    ensures
        all_shown(sort_occurrences(on_day(shown(occs, ids), day)), ids),
{
    lemma_shown_all(occs, ids);
    lemma_on_day_keeps(shown(occs, ids), ids, day);
    lemma_sort_keeps(on_day(shown(occs, ids), day), ids);
}

} // verus!
