//! The stored records of the calendar (events, todos, notes, habits, courses, shifts,
//! calendars and subscriptions) and the rules that apply to them before and after storage:
//! validation, labels, the expansion of repeating events into occurrences, and how courses
//! may share a timetable.

use crate::date::{iso_date_text, parse_iso_date, Date};
use chrono::Datelike;
use crate::text::{
    append_str, chars_of, contains, decimal_int, eq_str, join, starts_with, string_from_chars,
    strip_prefix_str, trim, trim_str,
};
use vstd::prelude::*;

verus! {

// ------------------------------------------------------------------
// Records
// ------------------------------------------------------------------

/// A calendar that groups events (work, personal, family, ...), with its color.
#[derive(Debug, Clone)]
pub struct Calendar {
    pub id: i64,
    pub name: String,
    pub color: String,
    pub visible: bool,
    pub sort_order: i64,
    pub created_at: String,
}

/// A subscription to an ICS address or a CalDAV account, mirrored into a calendar.
#[derive(Debug, Clone)]
pub struct Subscription {
    pub id: i64,
    pub name: String,
    pub url: String,
    pub calendar_id: i64,
    pub enabled: bool,
    pub last_sync: Option<String>,
    pub last_error: Option<String>,
    pub source_type: String,
    pub username: String,
    pub secret: String,
    pub created_at: String,
}

/// What deleting a subscription removed.
#[derive(Debug, Clone)]
pub struct DeleteSubscriptionResult {
    pub deleted_connection: bool,
    pub deleted_events: usize,
    pub deleted_calendar: bool,
    pub calendar_name: String,
}

/// A kind of shift in a roster.
#[derive(Debug, Clone)]
pub struct ShiftType {
    pub id: i64,
    pub name: String,
    pub start_time: Option<String>,
    pub end_time: Option<String>,
    pub color: String,
    pub is_rest: bool,
    pub duration_minutes: i64,
    pub created_at: String,
}

/// A shift on a day.
#[derive(Debug, Clone)]
pub struct ShiftAssignment {
    pub id: i64,
    pub shift_type_id: i64,
    pub shift_date: String,
    pub shift_name: String,
    pub start_time: Option<String>,
    pub end_time: Option<String>,
    pub color: String,
    pub is_rest: bool,
    pub duration_minutes: i64,
}

/// A stored event: its first day, repeat rule and reminder settings.
#[derive(Debug, Clone)]
pub struct Event {
    pub id: i64,
    pub title: String,
    pub date: String,
    pub time: Option<String>,
    pub duration_minutes: i64,
    pub note: String,
    pub repeat_rule: String,
    pub reminder_offsets: String,
    pub category: String,
    pub calendar_id: i64,
    pub created_at: String,
    pub updated_at: String,
    pub source_kind: String,
}

/// One occurrence of an event: the stored event and the day it falls on.
#[derive(Debug, Clone)]
pub struct EventOccurrence {
    pub event: Event,
    pub occurrence_date: String,
}

#[derive(Debug, Clone)]
pub struct Todo {
    pub id: i64,
    pub title: String,
    pub done: bool,
    pub due_date: Option<String>,
    pub priority: i64,
    pub important: bool,
    pub status: String,
    pub created_at: String,
    pub updated_at: String,
}

#[derive(Debug, Clone)]
pub struct Note {
    pub id: i64,
    pub title: String,
    pub content: String,
    pub created_at: String,
    pub updated_at: String,
}

/// One result of a search across events, todos, notes and courses.
#[derive(Debug, Clone)]
pub struct SearchHit {
    pub id: i64,
    pub kind: String,
    pub title: String,
    pub meta: String,
    pub date: String,
}

/// A habit with its current streak of consecutive days.
#[derive(Debug, Clone)]
pub struct Habit {
    pub id: i64,
    pub title: String,
    pub archived: bool,
    pub created_at: String,
    /// Consecutive days checked off up to today (from yesterday when today is not yet).
    pub streak: i64,
    /// Whether today is checked off.
    pub done_today: bool,
}

pub(crate) fn copy_string(s: &String) -> (r: String)
    ensures
        r == *s,
{
    s.clone()
}

fn copy_opt_string(s: &Option<String>) -> (r: Option<String>)
    ensures
        r == *s,
{
    match s {
        Some(x) => Some(x.clone()),
        None => None,
    }
}

impl Event {
    /// A copy of the event (`clone`, with its result stated).
    pub fn copied(&self) -> (r: Event)
        ensures
            r == *self,
    {
        Event {
            id: self.id,
            title: copy_string(&self.title),
            date: copy_string(&self.date),
            time: copy_opt_string(&self.time),
            duration_minutes: self.duration_minutes,
            note: copy_string(&self.note),
            repeat_rule: copy_string(&self.repeat_rule),
            reminder_offsets: copy_string(&self.reminder_offsets),
            category: copy_string(&self.category),
            calendar_id: self.calendar_id,
            created_at: copy_string(&self.created_at),
            updated_at: copy_string(&self.updated_at),
            source_kind: copy_string(&self.source_kind),
        }
    }
}

// ------------------------------------------------------------------
// Labels and settings
// ------------------------------------------------------------------

/// The source kind of an event that does not say: a local event.
pub fn default_event_source_kind() -> (r: String)
    ensures
        r@ == "local"@,
{
    "local".to_string()
}

pub open spec fn category_label_of(category: Seq<char>) -> Seq<char> {
    if category == "birthday"@ {
        "生日"@
    } else if category == "anniversary"@ {
        "纪念日"@
    } else if category == "countdown"@ {
        "倒数日"@
    } else {
        "日程"@
    }
}

/// The label of an event category.
pub fn category_label(category: &str) -> (r: &'static str)
    ensures
        r@ == category_label_of(category@),
{
    let c = chars_of(category);
    if eq_str(&c, "birthday") {
        "生日"
    } else if eq_str(&c, "anniversary") {
        "纪念日"
    } else if eq_str(&c, "countdown") {
        "倒数日"
    } else {
        "日程"
    }
}

pub open spec fn status_label_of(status: Seq<char>) -> Seq<char> {
    if status == "doing"@ {
        "进行中"@
    } else if status == "done"@ {
        "已完成"@
    } else {
        "待办"@
    }
}

/// The label of a todo's board status.
pub fn status_label(status: &str) -> (r: &'static str)
    ensures
        r@ == status_label_of(status@),
{
    let s = chars_of(status);
    if eq_str(&s, "doing") {
        "进行中"
    } else if eq_str(&s, "done") {
        "已完成"
    } else {
        "待办"
    }
}

/// The setting that holds the default reminder of new events.
pub const DEFAULT_EVENT_REMINDER_KEY: &'static str = "default_event_reminder";

/// Ten minutes before.
pub const DEFAULT_EVENT_REMINDER: &'static str = "10";

/// The reminder modes the settings offer: none, at the start, 10 minutes, an hour, a day.
pub open spec fn is_reminder_mode(v: Seq<char>) -> bool {
    v == ""@ || v == "0"@ || v == "10"@ || v == "60"@ || v == "1440"@
}

pub fn reminder_mode_supported(value: &str) -> (b: bool)
    ensures
        b == is_reminder_mode(value@),
{
    let v = chars_of(value);
    eq_str(&v, "") || eq_str(&v, "0") || eq_str(&v, "10") || eq_str(&v, "60") || eq_str(&v, "1440")
}

/// The default reminder from its stored value: a supported mode stays, anything else (an
/// old or damaged value) becomes 10 minutes.
pub fn normalize_default_reminder(stored: &str) -> (r: String)
    ensures
        r@ == (if is_reminder_mode(stored@) {
            stored@
        } else {
            DEFAULT_EVENT_REMINDER@
        }),
{
    if reminder_mode_supported(stored) {
        stored.to_string()
    } else {
        DEFAULT_EVENT_REMINDER.to_string()
    }
}

/// Checks a new default reminder before it is applied to every event.
pub fn check_default_reminder(value: &str) -> (r: Result<(), String>)
    ensures
        r is Ok <==> is_reminder_mode(value@),
        r matches Err(e) ==> e@ == "不支持的默认提醒模式"@,
{
    if reminder_mode_supported(value) {
        Ok(())
    } else {
        Err("不支持的默认提醒模式".to_string())
    }
}

/// A todo's board status and done flag: `done` exactly in the `done` column; any other
/// status is refused.
pub fn todo_status_done(status: &str) -> (r: Result<bool, String>)
    ensures
        r is Ok <==> (status@ == "todo"@ || status@ == "doing"@ || status@ == "done"@),
        r matches Ok(d) ==> d == (status@ == "done"@),
        r matches Err(e) ==> e@ == "无效的待办状态："@ + status@ + "（应为 todo、doing 或 done）"@,
{
    let s = chars_of(status);
    if eq_str(&s, "todo") || eq_str(&s, "doing") || eq_str(&s, "done") {
        Ok(eq_str(&s, "done"))
    } else {
        let mut m = chars_of("无效的待办状态：");
        append_str(&mut m, status);
        append_str(&mut m, "（应为 todo、doing 或 done）");
        Err(string_from_chars(&m))
    }
}

/// The stored status of an imported todo: an unknown status becomes `todo`, and a todo
/// marked done (by flag or status) is stored as done.
pub open spec fn imported_todo_state(status: Seq<char>, done: bool) -> (bool, Seq<char>) {
    let s = if status == "todo"@ || status == "doing"@ || status == "done"@ {
        status
    } else {
        "todo"@
    };
    let d = s == "done"@ || done;
    (d, if d {
        "done"@
    } else {
        s
    })
}

pub fn import_todo_state(status: &str, done: bool) -> (r: (bool, String))
    ensures
        (r.0, r.1@) == imported_todo_state(status@, done),
{
    let s = chars_of(status);
    let known = eq_str(&s, "todo") || eq_str(&s, "doing") || eq_str(&s, "done");
    let is_done = (known && eq_str(&s, "done")) || done;
    proof {
        reveal_strlit("todo");
        reveal_strlit("done");
        assert("todo"@[0] != "done"@[0]);
        assert("todo"@ != "done"@);
    }
    if is_done {
        (true, "done".to_string())
    } else if known {
        (false, status.to_string())
    } else {
        (false, "todo".to_string())
    }
}

/// A subscription address must be an `http://` or `https://` URL and the subscription must
/// have a name; the address is kept trimmed.
pub open spec fn subscription_input(name: Seq<char>, url: Seq<char>) -> Result<Seq<char>, Seq<char>> {
    let u = trim(url);
    if !(starts_with(u, "https://"@) || starts_with(u, "http://"@)) {
        Err("订阅地址必须是 http:// 或 https:// URL"@)
    } else if trim(name).len() == 0 {
        Err("订阅名称不能为空"@)
    } else {
        Ok(u)
    }
}

pub open spec fn result_string_view(r: Result<String, String>) -> Result<Seq<char>, Seq<char>> {
    match r {
        Ok(s) => Ok(s@),
        Err(e) => Err(e@),
    }
}

pub fn check_subscription_input(name: &str, url: &str) -> (r: Result<String, String>)
    ensures
        result_string_view(r) == subscription_input(name@, url@),
{
    let u = trim_str(url);
    if !(crate::text::starts_with_str(&u, "https://") || crate::text::starts_with_str(&u, "http://")) {
        return Err("订阅地址必须是 http:// 或 https:// URL".to_string());
    }
    let n = trim_str(name);
    if n.len() == 0 {
        return Err("订阅名称不能为空".to_string());
    }
    Ok(string_from_chars(&u))
}

/// Calendars that come with the application and are never removed with a subscription.
pub open spec fn is_builtin_calendar(name: Seq<char>) -> bool {
    name == "默认"@ || name == "工作"@ || name == "个人"@ || name == "家庭"@
}

/// Whether deleting a subscription also removes its calendar: only a calendar other than
/// the default one (id 1) and the built-in ones, with no subscriptions or events left.
pub fn calendar_left_unused(calendar_id: i64, calendar_name: &str, remaining_subscriptions: i64, remaining_events: i64) -> (b: bool)
    ensures
        b == (calendar_id != 1 && !is_builtin_calendar(calendar_name@) && remaining_subscriptions
            == 0 && remaining_events == 0),
{
    let n = chars_of(calendar_name);
    let builtin = eq_str(&n, "默认") || eq_str(&n, "工作") || eq_str(&n, "个人") || eq_str(&n, "家庭");
    calendar_id != 1 && !builtin && remaining_subscriptions == 0 && remaining_events == 0
}

/// The series marker stored for a remote rule's last day `until` (inclusive): `from:` and
/// the following day, the first day no longer shown; none past the last supported day.
pub fn repeat_until_marker(until: &Date) -> (r: Option<String>)
    requires
        until.wf(),
    ensures
        r is Some <==> until.dn() < crate::date::max_day_number(),
        r matches Some(m) ==> m@ == "from:"@ + iso_date_text(crate::date::next_date(*until)),
{
    match until.succ_opt() {
        Some(next) => {
            let mut v = chars_of("from:");
            let iso = next.iso_chars();
            crate::text::append_all(&mut v, &iso);
            Some(string_from_chars(&v))
        },
        None => None,
    }
}

// ------------------------------------------------------------------
// Occurrences of stored events
// ------------------------------------------------------------------

/// The date with a day number, for day numbers of valid dates.
pub open spec fn date_of_dn(x: int) -> Date {
    choose|d: Date| d.wf() && d.dn() == x
}

pub proof fn lemma_date_of_dn(d: Date)
    requires
        d.wf(),
    ensures
        date_of_dn(d.dn()) == d,
{
    let c = date_of_dn(d.dn());
    assert(c.wf() && c.dn() == d.dn());
    crate::date::lemma_dn_injective(c, d);
}

pub open spec fn exceptions_view(v: Seq<(i64, String)>) -> Seq<(i64, Seq<char>)> {
    Seq::new(v.len(), |i: int| (v[i].0, v[i].1@))
}

/// The earliest `from:YYYY-MM-DD` marker of an event: the series ends before that day.
pub open spec fn cutoff_of(ex: Seq<(i64, Seq<char>)>, id: i64) -> Option<Date>
    decreases ex.len(),
{
    if ex.len() == 0 {
        None
    } else {
        let c = cutoff_of(ex.drop_last(), id);
        let (eid, v) = ex.last();
        if eid == id && starts_with(v, "from:"@) {
            match crate::date::chrono_parse_iso_date(v.subrange("from:"@.len() as int, v.len() as int)) {
                Some(d) => match c {
                    Some(cd) => if d.dn() < cd.dn() {
                        Some(d)
                    } else {
                        Some(cd)
                    },
                    None => Some(d),
                },
                None => c,
            }
        } else {
            c
        }
    }
}

/// An exact exception skips the occurrence on that day.
pub open spec fn exact_excluded(ex: Seq<(i64, Seq<char>)>, id: i64, text: Seq<char>) -> bool {
    exists|k: int|
        0 <= k < ex.len() && (#[trigger] ex[k]).0 == id && !starts_with(ex[k].1, "from:"@)
            && ex[k].1 == text
}

pub open spec fn excluded(ex: Seq<(i64, Seq<char>)>, id: i64, day: int) -> bool {
    ||| (cutoff_of(ex, id) matches Some(c) && day >= c.dn())
    ||| exact_excluded(ex, id, iso_date_text(date_of_dn(day)))
}

/// The `YYYY-MM-DD` texts of the days of `days` that the exceptions leave, in order.
pub open spec fn kept_days(days: Seq<int>, id: i64, ex: Seq<(i64, Seq<char>)>) -> Seq<Seq<char>>
    decreases days.len(),
{
    if days.len() == 0 {
        seq![]
    } else {
        let r = kept_days(days.drop_last(), id, ex);
        if excluded(ex, id, days.last()) {
            r
        } else {
            r.push(iso_date_text(date_of_dn(days.last())))
        }
    }
}

/// The occurrence days of one stored event within `[s, e]`: none when its date does not
/// read, otherwise the days its repeat rule gives, less the exceptions.
pub open spec fn event_days(ev: Event, ex: Seq<(i64, Seq<char>)>, s: Date, e: Date) -> Seq<Seq<char>> {
    match crate::date::chrono_parse_iso_date(ev.date@) {
        None => seq![],
        Some(base) => kept_days(
            crate::recurrence::occurrence_days(crate::recurrence::parse_rule(ev.repeat_rule@), base, s, e),
            ev.id,
            ex,
        ),
    }
}

/// An occurrence as the event and the text of its day.
pub open spec fn occ_view(o: EventOccurrence) -> (Event, Seq<char>) {
    (o.event, o.occurrence_date@)
}

pub open spec fn occ_views(v: Seq<EventOccurrence>) -> Seq<(Event, Seq<char>)> {
    Seq::new(v.len(), |i: int| occ_view(v[i]))
}

/// The occurrences of the first `n` events, event by event.
pub open spec fn unsorted_occurrences(events: Seq<Event>, ex: Seq<(i64, Seq<char>)>, s: Date, e: Date, n: int) -> Seq<(Event, Seq<char>)>
    decreases n,
{
    if n <= 0 {
        seq![]
    } else {
        let ev = events[n - 1];
        unsorted_occurrences(events, ex, s, e, n - 1) + event_days(ev, ex, s, e).map_values(
            |t: Seq<char>| (ev, t),
        )
    }
}

// Ordering of occurrences: by day text, then by time (no time first), as `String` and
// `Option<String>` compare.

/// Strict lexicographic order of texts by character (the order of their UTF-8 bytes).
pub open spec fn text_lt(a: Seq<char>, b: Seq<char>) -> bool
    decreases a.len(),
{
    if a.len() == 0 {
        b.len() > 0
    } else if b.len() == 0 {
        false
    } else if a[0] != b[0] {
        a[0] < b[0]
    } else {
        text_lt(a.drop_first(), b.drop_first())
    }
}

pub open spec fn opt_text_le(a: Option<Seq<char>>, b: Option<Seq<char>>) -> bool {
    match (a, b) {
        (None, _) => true,
        (Some(_), None) => false,
        (Some(x), Some(y)) => x == y || text_lt(x, y),
    }
}

pub open spec fn time_view(ev: Event) -> Option<Seq<char>> {
    match ev.time {
        Some(t) => Some(t@),
        None => None,
    }
}

/// `(day, time)` of `a` is at most that of `b`.
pub open spec fn occ_le(a: (Event, Seq<char>), b: (Event, Seq<char>)) -> bool {
    text_lt(a.1, b.1) || (a.1 == b.1 && opt_text_le(time_view(a.0), time_view(b.0)))
}

/// Stable insertion: `x` goes after every element that is not greater.
pub open spec fn insert_sorted(s: Seq<(Event, Seq<char>)>, x: (Event, Seq<char>)) -> Seq<(Event, Seq<char>)>
    decreases s.len(),
{
    if s.len() == 0 {
        seq![x]
    } else if occ_le(s.last(), x) {
        s.push(x)
    } else {
        insert_sorted(s.drop_last(), x).push(s.last())
    }
}

/// The stable sort of a sequence of occurrences by `(day, time)`.
pub open spec fn sort_occurrences(s: Seq<(Event, Seq<char>)>) -> Seq<(Event, Seq<char>)>
    decreases s.len(),
{
    if s.len() == 0 {
        seq![]
    } else {
        insert_sorted(sort_occurrences(s.drop_last()), s.last())
    }
}

fn text_lt_exec(a: &Vec<char>, b: &Vec<char>) -> (r: bool)
    ensures
        r == text_lt(a@, b@),
{
    let mut i: usize = 0;
    assert(a@.skip(0) =~= a@);
    assert(b@.skip(0) =~= b@);
    while i < a.len() && i < b.len() && a[i] == b[i]
        invariant
            i <= a.len(),
            i <= b.len(),
            text_lt(a@.skip(i as int), b@.skip(i as int)) == text_lt(a@, b@),
        decreases a.len() - i,
    {
        assert(a@.skip(i as int).drop_first() =~= a@.skip(i + 1));
        assert(b@.skip(i as int).drop_first() =~= b@.skip(i + 1));
        i = i + 1;
    }
    assert(a@.skip(i as int).len() == a.len() - i);
    if i == a.len() {
        i < b.len()
    } else if i == b.len() {
        false
    } else {
        assert(a@.skip(i as int)[0] == a@[i as int]);
        assert(b@.skip(i as int)[0] == b@[i as int]);
        a[i] < b[i]
    }
}

fn occ_le_exec(a: &EventOccurrence, b: &EventOccurrence) -> (r: bool)
    ensures
        r == occ_le(occ_view(*a), occ_view(*b)),
{
    let ad = chars_of(a.occurrence_date.as_str());
    let bd = chars_of(b.occurrence_date.as_str());
    if text_lt_exec(&ad, &bd) {
        return true;
    }
    if !crate::text::seq_eq(&ad, &bd) {
        return false;
    }
    match (&a.event.time, &b.event.time) {
        (None, _) => true,
        (Some(_), None) => false,
        (Some(x), Some(y)) => {
            let xv = chars_of(x.as_str());
            let yv = chars_of(y.as_str());
            crate::text::seq_eq(&xv, &yv) || text_lt_exec(&xv, &yv)
        },
    }
}

proof fn lemma_insert_step(s: Seq<(Event, Seq<char>)>, x: (Event, Seq<char>), pos: int)
    requires
        0 < pos <= s.len(),
        !occ_le(s[pos - 1], x),
    ensures
        insert_sorted(s.take(pos), x) + s.skip(pos) == insert_sorted(s.take(pos - 1), x) + s.skip(
            pos - 1,
        ),
{
    let t = s.take(pos);
    assert(t.drop_last() =~= s.take(pos - 1));
    assert(t.last() == s[pos - 1]);
    assert(insert_sorted(t, x) == insert_sorted(s.take(pos - 1), x).push(s[pos - 1]));
    assert(insert_sorted(s.take(pos - 1), x).push(s[pos - 1]) + s.skip(pos) =~= insert_sorted(
        s.take(pos - 1),
        x,
    ) + s.skip(pos - 1));
}

pub(crate) fn insert_occurrence(out: &mut Vec<EventOccurrence>, x: EventOccurrence)
    ensures
        occ_views(final(out)@) == insert_sorted(occ_views(old(out)@), occ_view(x)),
{
    let ghost s = occ_views(out@);
    let mut pos: usize = out.len();
    assert(s.take(pos as int) =~= s);
    assert(s.skip(pos as int) =~= Seq::<(Event, Seq<char>)>::empty());
    assert(insert_sorted(s, occ_view(x)) =~= insert_sorted(s.take(pos as int), occ_view(x)) + s.skip(pos as int));
    while pos > 0 && !occ_le_exec(&out[pos - 1], &x)
        invariant
            pos <= out.len(),
            s == occ_views(out@),
            insert_sorted(s, occ_view(x)) == insert_sorted(s.take(pos as int), occ_view(x)) + s.skip(
                pos as int,
            ),
        decreases pos,
    {
        proof {
            assert(s[pos - 1] == occ_view(out@[pos - 1]));
            lemma_insert_step(s, occ_view(x), pos as int);
        }
        pos = pos - 1;
    }
    proof {
        if pos > 0 {
            let t = s.take(pos as int);
            assert(t.last() == s[pos - 1]);
            assert(s[pos - 1] == occ_view(out@[pos - 1]));
            assert(insert_sorted(t, occ_view(x)) == t.push(occ_view(x)));
        } else {
            assert(s.take(0) =~= Seq::<(Event, Seq<char>)>::empty());
        }
    }
    out.insert(pos, x);
    assert(occ_views(out@) =~= insert_sorted(s.take(pos as int), occ_view(x)) + s.skip(pos as int));
}

fn cutoff_exec(ex: &Vec<(i64, String)>, id: i64) -> (r: Option<Date>)
    ensures
        r == cutoff_of(exceptions_view(ex@), id),
        r matches Some(d) ==> d.wf(),
{
    let mut c: Option<Date> = None;
    let mut i: usize = 0;
    while i < ex.len()
        invariant
            i <= ex.len(),
            c == cutoff_of(exceptions_view(ex@).take(i as int), id),
            c matches Some(d) ==> d.wf(),
        decreases ex.len() - i,
    {
        proof {
            let t = exceptions_view(ex@).take(i + 1);
            assert(t.drop_last() =~= exceptions_view(ex@).take(i as int));
            assert(t.last() == (ex@[i as int].0, ex@[i as int].1@));
        }
        let v = chars_of(ex[i].1.as_str());
        if ex[i].0 == id {
            match strip_prefix_str(&v, "from:") {
                Some(rest) => {
                    let text = string_from_chars(&rest);
                    match parse_iso_date(text.as_str()) {
                        Some(d) => {
                            c = match c {
                                Some(cd) => if d.is_before(&cd) {
                                    Some(d)
                                } else {
                                    Some(cd)
                                },
                                None => Some(d),
                            };
                        },
                        None => {},
                    }
                },
                None => {},
            }
        }
        i = i + 1;
    }
    assert(exceptions_view(ex@).take(ex.len() as int) =~= exceptions_view(ex@));
    c
}

fn exact_excluded_exec(ex: &Vec<(i64, String)>, id: i64, text: &Vec<char>) -> (r: bool)
    ensures
        r == exact_excluded(exceptions_view(ex@), id, text@),
{
    let ghost xs = exceptions_view(ex@);
    let mut i: usize = 0;
    while i < ex.len()
        invariant
            i <= ex.len(),
            xs == exceptions_view(ex@),
            forall|k: int| 0 <= k < i ==> !((#[trigger] xs[k]).0 == id && !starts_with(
                xs[k].1,
                "from:"@,
            ) && xs[k].1 == text@),
        decreases ex.len() - i,
    {
        let v = chars_of(ex[i].1.as_str());
        assert(xs[i as int] == (ex@[i as int].0, ex@[i as int].1@));
        if ex[i].0 == id && !crate::text::starts_with_str(&v, "from:") && crate::text::seq_eq(&v, text) {
            return true;
        }
        i = i + 1;
    }
    false
}

/// The expansion of every stored event stays within the supported dates.
pub open spec fn expansions_in_range(events: Seq<Event>, s: Date, e: Date) -> bool {
    forall|k: int|
        0 <= k < events.len() ==> match crate::date::chrono_parse_iso_date(
            (#[trigger] events[k]).date@,
        ) {
            Some(b) => crate::recurrence::expansion_in_range(
                crate::recurrence::parse_rule(events[k].repeat_rule@),
                b,
                s,
                e,
            ),
            None => true,
        }
}

proof fn lemma_kept_step(days: Seq<int>, id: i64, ex: Seq<(i64, Seq<char>)>, j: int)
    requires
        0 <= j < days.len(),
    ensures
        kept_days(days.take(j + 1), id, ex) == (if excluded(ex, id, days[j]) {
            kept_days(days.take(j), id, ex)
        } else {
            kept_days(days.take(j), id, ex).push(iso_date_text(date_of_dn(days[j])))
        }),
{
    assert(days.take(j + 1).drop_last() =~= days.take(j));
    assert(days.take(j + 1).last() == days[j]);
}

fn push_event_occurrences(
    out: &mut Vec<EventOccurrence>,
    ev: &Event,
    ex: &Vec<(i64, String)>,
    start: &Date,
    end: &Date,
)
    requires
        start.wf(),
        end.wf(),
        match crate::date::chrono_parse_iso_date(ev.date@) {
            Some(b) => crate::recurrence::expansion_in_range(
                crate::recurrence::parse_rule(ev.repeat_rule@),
                b,
                *start,
                *end,
            ),
            None => true,
        },
    ensures
        occ_views(final(out)@) == occ_views(old(out)@) + event_days(*ev, exceptions_view(ex@), *start, *end).map_values(
            |t: Seq<char>| (*ev, t),
        ),
{
    let ghost xs = exceptions_view(ex@);
    let ghost before = occ_views(out@);
    let base = match parse_iso_date(ev.date.as_str()) {
        Some(b) => b,
        None => {
            assert(event_days(*ev, xs, *start, *end).map_values(|t: Seq<char>| (*ev, t)) =~= Seq::<(Event, Seq<char>)>::empty());
            assert(occ_views(out@) =~= before + Seq::<(Event, Seq<char>)>::empty());
            return;
        },
    };
    let rule = crate::recurrence::RepeatRule::parse(ev.repeat_rule.as_str());
    let occs = crate::recurrence::occurrences_in_range(base, rule, *start, *end);
    let ghost days = crate::recurrence::dns(occs@);
    assert(days == crate::recurrence::occurrence_days(crate::recurrence::parse_rule(ev.repeat_rule@), base, *start, *end));
    let cutoff = cutoff_exec(ex, ev.id);
    let mut j: usize = 0;
    while j < occs.len()
        invariant
            j <= occs.len(),
            days == crate::recurrence::dns(occs@),
            crate::recurrence::all_wf(occs@),
            cutoff == cutoff_of(xs, ev.id),
            cutoff matches Some(d) ==> d.wf(),
            xs == exceptions_view(ex@),
            occ_views(out@) == before + kept_days(days.take(j as int), ev.id, xs).map_values(
                |t: Seq<char>| (*ev, t),
            ),
        decreases occs.len() - j,
    {
        let occ = occs[j];
        assert(occ.wf());
        assert(days[j as int] == occ.dn());
        proof {
            lemma_date_of_dn(occ);
            lemma_kept_step(days, ev.id, xs, j as int);
        }
        let text = occ.iso_chars();
        let cut = match cutoff {
            Some(c) => !occ.is_before(&c),
            None => false,
        };
        let skip = cut || exact_excluded_exec(ex, ev.id, &text);
        let ghost prev = kept_days(days.take(j as int), ev.id, xs);
        if !skip {
            let item = EventOccurrence { event: ev.copied(), occurrence_date: string_from_chars(&text) };
            let ghost o = occ_views(out@);
            out.push(item);
            assert(occ_views(out@) =~= o.push(occ_view(item)));
            assert(prev.push(text@).map_values(|t: Seq<char>| (*ev, t)) =~= prev.map_values(
                |t: Seq<char>| (*ev, t),
            ).push((*ev, text@)));
        }
        j = j + 1;
    }
    assert(days.take(occs.len() as int) =~= days);
}

/// The occurrences within `[start, end]` of stored events: each event's days (its repeat
/// rule applied from its first day), less the days its exceptions skip (an exact
/// `YYYY-MM-DD`) or cut off (from the earliest `from:YYYY-MM-DD` on), sorted stably by day
/// and then by time, events without a time first.
pub fn expand_occurrences(
    events: &Vec<Event>,
    exceptions: &Vec<(i64, String)>,
    start: &Date,
    end: &Date,
) -> (r: Vec<EventOccurrence>)
    requires
        start.wf(),
        end.wf(),
        expansions_in_range(events@, *start, *end),
    ensures
        occ_views(r@) == sort_occurrences(
            unsorted_occurrences(events@, exceptions_view(exceptions@), *start, *end, events@.len() as int),
        ),
{
    let ghost xs = exceptions_view(exceptions@);
    let mut all: Vec<EventOccurrence> = Vec::new();
    let mut k: usize = 0;
    assert(occ_views(all@) =~= Seq::<(Event, Seq<char>)>::empty());
    while k < events.len()
        invariant
            k <= events.len(),
            expansions_in_range(events@, *start, *end),
            start.wf(),
            end.wf(),
            xs == exceptions_view(exceptions@),
            occ_views(all@) == unsorted_occurrences(events@, xs, *start, *end, k as int),
        decreases events.len() - k,
    {
        assert(events@[k as int] == events[k as int]);
        push_event_occurrences(&mut all, &events[k], exceptions, start, end);
        k = k + 1;
    }
    let ghost u = occ_views(all@);
    let mut sorted: Vec<EventOccurrence> = Vec::new();
    let mut i: usize = 0;
    assert(occ_views(sorted@) =~= Seq::<(Event, Seq<char>)>::empty());
    while i < all.len()
        invariant
            i <= all.len(),
            u == occ_views(all@),
            occ_views(sorted@) == sort_occurrences(u.take(i as int)),
        decreases all.len() - i,
    {
        proof {
            let t = u.take(i + 1);
            assert(t.drop_last() =~= u.take(i as int));
            assert(t.last() == occ_view(all@[i as int]));
        }
        let item = EventOccurrence { event: all[i].event.copied(), occurrence_date: copy_string(&all[i].occurrence_date) };
        insert_occurrence(&mut sorted, item);
        i = i + 1;
    }
    assert(u.take(all.len() as int) =~= u);
    sorted
}

/// A stored event as its columns: id, title, date, time, duration, note, repeat rule,
/// reminder offsets, category, calendar, creation and update times, source kind.
pub type EventRow = (i64, String, String, Option<String>, i64, String, String, String, String, i64, String, String, String);

/// The events that may occur within `[start, end]`: those that repeat, and the others whose
/// date text lies between the two texts. The contract claims only what the `WHERE` clause
/// asks of each row (text order of SQLite, `text_le`); which rows are stored is left unsaid.
/// Calls `rusqlite::Connection::prepare` and `rusqlite::Statement::query_map`, reading each row as a tuple (`TryFrom<&Row>`).
#[verifier::external_body]
fn range_event_rows(conn: &rusqlite::Connection, start: &str, end: &str) -> (r: Result<Vec<EventRow>, String>)
    ensures
        r matches Ok(v) ==> forall|k: int| 0 <= k < v@.len() ==> (#[trigger] v@[k]).6@ != "none"@
            || (crate::text::text_le(start@, v@[k].2@) && crate::text::text_le(v@[k].2@, end@)),
{
    let sql = "SELECT id, title, date, time, duration_minutes, note, repeat_rule, reminder_offsets, category, calendar_id, created_at, updated_at, source_kind FROM events WHERE repeat_rule != 'none' OR date BETWEEN ?1 AND ?2";
    let mut stmt = conn.prepare(sql).map_err(|e| e.to_string())?;
    let rows = stmt.query_map((start, end), |row| EventRow::try_from(row)).map_err(|e| e.to_string())?;
    rows.collect::<rusqlite::Result<Vec<EventRow>>>().map_err(|e| e.to_string())
}

/// The exceptions that may touch `[start, end]`: event id and day text, for the exact days
/// between the two texts and every `from:` marker. The contract claims only what the
/// `WHERE` clause asks of each row; which rows are stored is left unsaid.
/// Calls `rusqlite::Connection::prepare` and `rusqlite::Statement::query_map`, reading each row as a tuple (`TryFrom<&Row>`).
#[verifier::external_body]
fn range_exception_rows(conn: &rusqlite::Connection, start: &str, end: &str) -> (r: Result<Vec<(i64, String)>, String>)
    ensures
        r matches Ok(v) ==> forall|k: int| 0 <= k < v@.len() ==> exception_in_window((#[trigger] v@[k]).1@, start@, end@),
{
    let sql = "SELECT event_id, occurrence_date FROM event_exceptions WHERE occurrence_date BETWEEN ?1 AND ?2 OR occurrence_date LIKE 'from:%'";
    let mut stmt = conn.prepare(sql).map_err(|e| e.to_string())?;
    let rows = stmt.query_map((start, end), |row| <(i64, String)>::try_from(row)).map_err(|e| e.to_string())?;
    rows.collect::<rusqlite::Result<Vec<(i64, String)>>>().map_err(|e| e.to_string())
}

/// The event a row of the `events` table describes.
pub open spec fn event_of_row_spec(r: EventRow) -> Event {
    Event {
        id: r.0,
        title: r.1,
        date: r.2,
        time: r.3,
        duration_minutes: r.4,
        note: r.5,
        repeat_rule: r.6,
        reminder_offsets: r.7,
        category: r.8,
        calendar_id: r.9,
        created_at: r.10,
        updated_at: r.11,
        source_kind: r.12,
    }
}

pub(crate) fn event_of_row(r: EventRow) -> (e: Event)
    ensures
        e == event_of_row_spec(r),
{
    Event {
        id: r.0,
        title: r.1,
        date: r.2,
        time: r.3,
        duration_minutes: r.4,
        note: r.5,
        repeat_rule: r.6,
        reminder_offsets: r.7,
        category: r.8,
        calendar_id: r.9,
        created_at: r.10,
        updated_at: r.11,
        source_kind: r.12,
    }
}

/// Whether the expansion of every event over `[start, end]` stays within the supported
/// dates; an event whose date does not read has no occurrence and always fits.
pub fn expansions_fit(events: &Vec<Event>, start: &Date, end: &Date) -> (b: bool)
    requires
        start.wf(),
        end.wf(),
    ensures
        b == expansions_in_range(events@, *start, *end),
{
    let mut i: usize = 0;
    while i < events.len()
        invariant
            i <= events.len(),
            start.wf(),
            end.wf(),
            expansions_in_range(events@.take(i as int), *start, *end),
        decreases events.len() - i,
    {
        let ev = &events[i];
        match parse_iso_date(ev.date.as_str()) {
            Some(base) => {
                let rule = crate::recurrence::RepeatRule::parse(ev.repeat_rule.as_str());
                if !crate::recurrence::expansion_fits(&rule, &base, start, end) {
                    assert(!expansions_in_range(events@, *start, *end)) by {
                        assert(events@[i as int] == *ev);
                    }
                    return false;
                }
            },
            None => {},
        }
        assert(expansions_in_range(events@.take(i + 1), *start, *end)) by {
            assert forall|k: int| 0 <= k < i + 1 implies #[trigger] events@.take(i + 1)[k] == events@[k] by {}
            assert(events@.take(i + 1)[i as int] == *ev);
            assert forall|k: int| 0 <= k < i implies #[trigger] events@.take(i + 1)[k] == events@.take(i as int)[k] by {}
        }
        i = i + 1;
    }
    assert(events@.take(events.len() as int) =~= events@);
    true
}

/// A text that begins with `from:`, ASCII letters compared without regard to case (as
/// SQLite's `LIKE 'from:%'` matches).
pub open spec fn from_prefix_folded(day: Seq<char>) -> bool {
    day.len() >= 5 && forall|k: int| 0 <= k < 5 ==> ascii_fold(#[trigger] day[k]) == ascii_fold("from:"@[k])
}

/// An exception row a window needs: a day between the two texts, or a `from:` marker.
pub open spec fn exception_in_window(day: Seq<char>, start: Seq<char>, end: Seq<char>) -> bool {
    (crate::text::text_le(start, day) && crate::text::text_le(day, end)) || from_prefix_folded(day)
}

/// An event a window needs: one that repeats, or one whose day lies in the window.
pub open spec fn event_in_window(e: Event, start: Date, end: Date) -> bool {
    e.repeat_rule@ != "none"@ || (crate::text::text_le(iso_date_text(start), e.date@) && crate::text::text_le(
        e.date@,
        iso_date_text(end),
    ))
}

/// The occurrences within `[start, end]` of the stored events (see `expand_occurrences`):
/// the events that repeat or start within the range, less the exceptions stored for them,
/// sorted by day and then time. Fails when the database fails, or when some event would
/// need a day outside the supported dates.
pub fn list_event_occurrences(conn: &rusqlite::Connection, start: &Date, end: &Date) -> (r: Result<Vec<EventOccurrence>, String>)
    requires
        start.wf(),
        end.wf(),
    ensures
        r matches Ok(v) ==> exists|evs: Seq<Event>, ex: Seq<(i64, Seq<char>)>|
            occ_views(v@) == sort_occurrences(
                #[trigger] unsorted_occurrences(evs, ex, *start, *end, evs.len() as int),
            ) && (forall|k: int| 0 <= k < evs.len() ==> event_in_window(#[trigger] evs[k], *start, *end))
            && (forall|k: int| 0 <= k < ex.len() ==> exception_in_window((#[trigger] ex[k]).1, iso_date_text(*start), iso_date_text(*end))),
{
    let s_text = start.to_iso_string();
    let e_text = end.to_iso_string();
    let rows = range_event_rows(conn, s_text.as_str(), e_text.as_str())?;
    let exceptions = range_exception_rows(conn, s_text.as_str(), e_text.as_str())?;
    let mut events: Vec<Event> = Vec::new();
    let ghost all = rows@;
    for row in it: rows
        invariant
            it.seq() == all,
            events@.len() == it.index(),
            forall|k: int| 0 <= k < events@.len() ==> (#[trigger] events@[k]) == event_of_row_spec(all[k]),
    {
        events.push(event_of_row(row));
    }
    if !expansions_fit(&events, start, end) {
        return Err("日期超出支持范围".to_string());
    }
    let out = expand_occurrences(&events, &exceptions, start, end);
    Ok(out)
}

// ------------------------------------------------------------------
// Courses
// ------------------------------------------------------------------

/// A course of the weekly timetable: a weekday (1 = Monday .. 7 = Sunday), a run of
/// periods (from 1) and a range of weeks (from 1), both ends included.
#[derive(Debug, Clone)]
pub struct Course {
    pub id: i64,
    pub title: String,
    pub teacher: String,
    pub location: String,
    pub weekday: i64,
    pub start_period: i64,
    pub period_count: i64,
    pub start_week: i64,
    pub end_week: i64,
    pub color_index: i64,
    pub created_at: String,
    pub updated_at: String,
}

/// The values a course is saved with, and what is wrong with them, if anything.
pub open spec fn course_fields_error(title: Seq<char>, weekday: int, start_period: int, period_count: int, start_week: int, end_week: int) -> Option<Seq<char>> {
    if trim(title).len() == 0 {
        Some("请填写课程名称"@)
    } else if !(1 <= weekday <= 7) {
        Some("星期设置无效"@)
    } else if !(1 <= start_period <= 12) {
        Some("开始节次应为 1–12"@)
    } else if !(1 <= period_count <= 6) {
        Some("连续节数应为 1–6"@)
    } else if start_period + period_count - 1 > 12 {
        Some("课程不能超过第 12 节"@)
    } else if !(1 <= start_week <= 30) {
        Some("开始周次应为 1–30"@)
    } else if !(1 <= end_week <= 30) {
        Some("结束周次应为 1–30"@)
    } else if start_week > end_week {
        Some("结束周不能早于开始周"@)
    } else {
        None
    }
}

/// Two courses clash when they share the weekday, some week and some period.
pub open spec fn courses_clash(weekday: int, start_period: int, period_end: int, start_week: int, end_week: int, other: Course) -> bool {
    let other_end = other.start_period + other.period_count - 1;
    &&& weekday == other.weekday
    &&& start_week <= other.end_week && other.start_week <= end_week
    &&& start_period <= other_end && other.start_period <= period_end
}

/// The message for a clash with another course.
pub open spec fn clash_message(other: Course) -> Seq<char> {
    "与“"@ + other.title@ + "”（第 "@ + crate::text::decimal_int(other.start_period as int) + "–"@
        + crate::text::decimal_int(other.start_period + other.period_count - 1) + " 节，第 "@
        + crate::text::decimal_int(other.start_week as int) + "–"@ + crate::text::decimal_int(
        other.end_week as int,
    ) + " 周）冲突"@
}

/// The first of the other courses (all but the one being saved, `id`) that clashes.
pub open spec fn first_clash(courses: Seq<Course>, id: i64, weekday: int, start_period: int, period_end: int, start_week: int, end_week: int, i: int) -> Option<Course>
    decreases courses.len() - i,
{
    if i < 0 || i >= courses.len() {
        None
    } else if courses[i].id != id && courses_clash(weekday, start_period, period_end, start_week, end_week, courses[i]) {
        Some(courses[i])
    } else {
        first_clash(courses, id, weekday, start_period, period_end, start_week, end_week, i + 1)
    }
}

/// Why a course cannot be saved beside the stored `courses`, if it cannot: a field out of
/// range, or the first clash with another course.
pub open spec fn course_error(courses: Seq<Course>, id: i64, title: Seq<char>, weekday: int, start_period: int, period_count: int, start_week: int, end_week: int) -> Option<Seq<char>> {
    match course_fields_error(title, weekday, start_period, period_count, start_week, end_week) {
        Some(e) => Some(e),
        None => match first_clash(courses, id, weekday, start_period, start_period + period_count - 1, start_week, end_week, 0) {
            Some(c) => Some(clash_message(c)),
            None => None,
        },
    }
}

/// The period arithmetic of stored courses stays within `i64`.
pub open spec fn courses_in_range(courses: Seq<Course>) -> bool {
    forall|k: int|
        0 <= k < courses.len() ==> i64::MIN + 1 <= (#[trigger] courses[k]).start_period
            + courses[k].period_count <= i64::MAX
}

fn clash_message_chars(other: &Course) -> (r: Vec<char>)
    requires
        i64::MIN + 1 <= other.start_period + other.period_count <= i64::MAX,
    ensures
        r@ == clash_message(*other),
{
    let mut v = chars_of("与“");
    append_str(&mut v, other.title.as_str());
    append_str(&mut v, "”（第 ");
    let a = crate::text::decimal_i64(other.start_period);
    crate::text::append_all(&mut v, &a);
    append_str(&mut v, "–");
    let b = crate::text::decimal_i64(other.start_period + other.period_count - 1);
    crate::text::append_all(&mut v, &b);
    append_str(&mut v, " 节，第 ");
    let c = crate::text::decimal_i64(other.start_week);
    crate::text::append_all(&mut v, &c);
    append_str(&mut v, "–");
    let d = crate::text::decimal_i64(other.end_week);
    crate::text::append_all(&mut v, &d);
    append_str(&mut v, " 周）冲突");
    v
}

/// Checks a course before it is saved beside the stored courses (`id` is the course
/// itself when it is being edited, and clashes with itself do not count).
pub fn check_course(
    courses: &Vec<Course>,
    id: i64,
    title: &str,
    weekday: i64,
    start_period: i64,
    period_count: i64,
    start_week: i64,
    end_week: i64,
) -> (r: Result<(), String>)
    requires
        courses_in_range(courses@),
    ensures
        r is Ok <==> course_error(courses@, id, title@, weekday as int, start_period as int, period_count as int, start_week as int, end_week as int) is None,
        r matches Err(e) ==> course_error(courses@, id, title@, weekday as int, start_period as int, period_count as int, start_week as int, end_week as int) == Some(e@),
{
    let t = trim_str(title);
    if t.len() == 0 {
        return Err("请填写课程名称".to_string());
    }
    if !(1 <= weekday && weekday <= 7) {
        return Err("星期设置无效".to_string());
    }
    if !(1 <= start_period && start_period <= 12) {
        return Err("开始节次应为 1–12".to_string());
    }
    if !(1 <= period_count && period_count <= 6) {
        return Err("连续节数应为 1–6".to_string());
    }
    if start_period + period_count - 1 > 12 {
        return Err("课程不能超过第 12 节".to_string());
    }
    if !(1 <= start_week && start_week <= 30) {
        return Err("开始周次应为 1–30".to_string());
    }
    if !(1 <= end_week && end_week <= 30) {
        return Err("结束周次应为 1–30".to_string());
    }
    if start_week > end_week {
        return Err("结束周不能早于开始周".to_string());
    }
    let period_end = start_period + period_count - 1;
    let mut i: usize = 0;
    while i < courses.len()
        invariant
            i <= courses.len(),
            courses_in_range(courses@),
            course_fields_error(title@, weekday as int, start_period as int, period_count as int, start_week as int, end_week as int) is None,
            period_end == start_period + period_count - 1,
            first_clash(courses@, id, weekday as int, start_period as int, period_end as int, start_week as int, end_week as int, i as int)
                == first_clash(courses@, id, weekday as int, start_period as int, period_end as int, start_week as int, end_week as int, 0),
        decreases courses.len() - i,
    {
        let other = &courses[i];
        assert(courses@[i as int] == *other);
        let other_end = other.start_period + other.period_count - 1;
        if other.id != id && weekday == other.weekday && start_week <= other.end_week && other.start_week <= end_week
            && start_period <= other_end && other.start_period <= period_end {
            let m = clash_message_chars(other);
            assert(first_clash(courses@, id, weekday as int, start_period as int, period_end as int, start_week as int, end_week as int, i as int) == Some(*other));
            return Err(string_from_chars(&m));
        }
        i = i + 1;
    }
    Ok(())
}

// ------------------------------------------------------------------
// CalDAV server addresses
// ------------------------------------------------------------------

/// The text without trailing `c` characters (`trim_end_matches`).
pub open spec fn trim_end_char(s: Seq<char>, c: char) -> Seq<char>
    decreases s.len(),
{
    if s.len() > 0 && s.last() == c {
        trim_end_char(s.drop_last(), c)
    } else {
        s
    }
}

fn trim_end_char_exec(s: &Vec<char>, c: char) -> (r: Vec<char>)
    ensures
        r@ == trim_end_char(s@, c),
{
    let mut n: usize = s.len();
    assert(s@.take(n as int) =~= s@);
    while n > 0 && s[n - 1] == c
        invariant
            n <= s.len(),
            trim_end_char(s@.take(n as int), c) == trim_end_char(s@, c),
        decreases n,
    {
        assert(s@.take(n as int).drop_last() =~= s@.take(n - 1));
        n = n - 1;
    }
    assert(s@.take(n as int) =~= s@.subrange(0, n as int));
    crate::text::slice_chars(s, 0, n)
}

/// A CalDAV server address as stored: trimmed, `https://` added when no scheme is given,
/// refused unless it is an HTTPS address with a host; DingTalk's bare server address gets
/// the `/dav` path its CalDAV service lives under; trailing slashes are dropped.
pub open spec fn caldav_server_spec(value: Seq<char>) -> Result<Seq<char>, Seq<char>> {
    let v = trim(value);
    if v.len() == 0 {
        Err("CalDAV 服务器地址不能为空"@)
    } else {
        let candidate = if contains(v, "://"@) {
            v
        } else {
            "https://"@ + v
        };
        match crate::urls::url_parse_result(candidate) {
            None => Err("CalDAV 服务器地址格式无效"@),
            Some(p) => if p.scheme != "https"@ {
                Err("CalDAV 服务器必须使用 HTTPS 安全连接"@)
            } else if p.host is None {
                Err("CalDAV 服务器地址缺少域名"@)
            } else if p.host == Some("calendar.dingtalk.com"@) && p.path == "/"@ {
                match crate::urls::url_set_path_result(candidate, "/dav"@) {
                    Some(s) => Ok(trim_end_char(s, '/')),
                    None => Err("CalDAV 服务器地址格式无效"@),
                }
            } else {
                Ok(trim_end_char(p.serialized, '/'))
            },
        }
    }
}

pub fn normalize_caldav_server_url(value: &str) -> (r: Result<String, String>)
    ensures
        result_string_view(r) == caldav_server_spec(value@),
{
    let v = trim_str(value);
    if v.len() == 0 {
        return Err("CalDAV 服务器地址不能为空".to_string());
    }
    let candidate = if crate::text::contains_str(&v, "://") {
        v
    } else {
        let mut c = chars_of("https://");
        crate::text::append_all(&mut c, &v);
        c
    };
    let text = string_from_chars(&candidate);
    let parts = match crate::urls::parse_url(text.as_str()) {
        Some(p) => p,
        None => return Err("CalDAV 服务器地址格式无效".to_string()),
    };
    if !eq_str(&chars_of(parts.scheme.as_str()), "https") {
        return Err("CalDAV 服务器必须使用 HTTPS 安全连接".to_string());
    }
    let host = match &parts.host {
        Some(h) => chars_of(h.as_str()),
        None => return Err("CalDAV 服务器地址缺少域名".to_string()),
    };
    let serialized = if eq_str(&host, "calendar.dingtalk.com") && eq_str(&chars_of(parts.path.as_str()), "/") {
        match crate::urls::url_with_path(text.as_str(), "/dav") {
            Some(s) => chars_of(s.as_str()),
            None => return Err("CalDAV 服务器地址格式无效".to_string()),
        }
    } else {
        chars_of(parts.serialized.as_str())
    };
    let t = trim_end_char_exec(&serialized, '/');
    Ok(string_from_chars(&t))
}

// ------------------------------------------------------------------
// The course table in SQLite
// ------------------------------------------------------------------

#[verifier::external_type_specification]
#[verifier::external_body]
pub struct ExConnection(rusqlite::Connection);

/// A stored course row: id, title, teacher, location, weekday, start period, period count,
/// start week, end week, color index, creation and update times.
pub type CourseRow = (i64, String, String, String, i64, i64, i64, i64, i64, i64, String, String);

/// Reads course rows with `rusqlite`: all of them in timetable order (weekday, start period,
/// title, id), or those with the given id. What is stored is not known here; the contract
/// claims only that a read by id returns rows with that id, as the `WHERE` clause asks.
#[verifier::external_body]
fn query_course_rows(conn: &rusqlite::Connection, by_id: Option<i64>) -> (r: Result<Vec<CourseRow>, String>)
    ensures
        by_id matches Some(i) ==> (r matches Ok(v) ==> forall|k: int| 0 <= k < v@.len() ==> (#[trigger] v@[k]).0 == i),
{
    let sql = "SELECT id, title, teacher, location, weekday, start_period, period_count, start_week, end_week, color_index, created_at, updated_at FROM courses WHERE (?1 IS NULL OR id = ?1) ORDER BY weekday, start_period, title, id";
    let mut stmt = conn.prepare(sql).map_err(|e| e.to_string())?;
    let rows = stmt.query_map((by_id,), |row| CourseRow::try_from(row)).map_err(|e| e.to_string())?;
    rows.collect::<rusqlite::Result<Vec<CourseRow>>>().map_err(|e| e.to_string())
}

/// The courses read from the table, in the order read.
fn query_courses(conn: &rusqlite::Connection, by_id: Option<i64>) -> (r: Result<Vec<Course>, String>)
    ensures
        by_id matches Some(i) ==> (r matches Ok(v) ==> forall|k: int| 0 <= k < v@.len() ==> (#[trigger] v@[k]).id == i),
{
    let rows = query_course_rows(conn, by_id)?;
    let mut out: Vec<Course> = Vec::new();
    let mut k: usize = 0;
    while k < rows.len()
        invariant
            k <= rows.len(),
            out@.len() == k,
            forall|j: int| 0 <= j < k ==> (#[trigger] out@[j]).id == rows@[j].0,
        decreases rows.len() - k,
    {
        let row = &rows[k];
        out.push(Course {
            id: row.0,
            title: row.1.clone(),
            teacher: row.2.clone(),
            location: row.3.clone(),
            weekday: row.4,
            start_period: row.5,
            period_count: row.6,
            start_week: row.7,
            end_week: row.8,
            color_index: row.9,
            created_at: row.10.clone(),
            updated_at: row.11.clone(),
        });
        k = k + 1;
    }
    Ok(out)
}

/// What is written of a course: its trimmed texts, its place in the timetable and its color.
pub struct CourseFields {
    pub title: String,
    pub teacher: String,
    pub location: String,
    pub weekday: i64,
    pub start_period: i64,
    pub period_count: i64,
    pub start_week: i64,
    pub end_week: i64,
    pub color_index: i64,
}

/// The fields a course is stored with: title, teacher and place trimmed, the color index
/// held to 0..=7, the rest as given.
pub open spec fn course_fields_ok(
    f: CourseFields,
    title: Seq<char>,
    teacher: Seq<char>,
    location: Seq<char>,
    weekday: i64,
    start_period: i64,
    period_count: i64,
    start_week: i64,
    end_week: i64,
    color_index: i64,
) -> bool {
    &&& f.title@ == trim(title)
    &&& f.teacher@ == trim(teacher)
    &&& f.location@ == trim(location)
    &&& f.weekday == weekday
    &&& f.start_period == start_period
    &&& f.period_count == period_count
    &&& f.start_week == start_week
    &&& f.end_week == end_week
    &&& f.color_index == color_clamp(color_index as int)
}

/// The fields a course is stored with (see `course_fields_ok`).
pub fn course_fields(
    title: &str,
    teacher: &str,
    location: &str,
    weekday: i64,
    start_period: i64,
    period_count: i64,
    start_week: i64,
    end_week: i64,
    color_index: i64,
) -> (f: CourseFields)
    ensures
        course_fields_ok(f, title@, teacher@, location@, weekday, start_period, period_count, start_week, end_week, color_index),
{
    let color: i64 = if color_index < 0 {
        0
    } else if color_index > 7 {
        7
    } else {
        color_index
    };
    CourseFields {
        title: string_from_chars(&trim_str(title)),
        teacher: string_from_chars(&trim_str(teacher)),
        location: string_from_chars(&trim_str(location)),
        weekday,
        start_period,
        period_count,
        start_week,
        end_week,
        color_index: color,
    }
}

/// Updates the row of the course table with this id to the fields, with the update time
/// (`rusqlite::Connection::execute`), and returns the number of changed rows. The contract
/// claims nothing about the stored data.
#[verifier::external_body]
fn execute_course_update(conn: &rusqlite::Connection, f: &CourseFields, now: &str, id: i64) -> (r: Result<usize, String>)
{
    conn.execute(
        "UPDATE courses SET title = ?1, teacher = ?2, location = ?3, weekday = ?4, start_period = ?5, period_count = ?6, start_week = ?7, end_week = ?8, color_index = ?9, updated_at = ?10 WHERE id = ?11",
        (&f.title, &f.teacher, &f.location, f.weekday, f.start_period, f.period_count, f.start_week, f.end_week, f.color_index, now, id),
    ).map_err(|e| e.to_string())
}

/// Inserts a row with the fields into the course table, created and updated `now`
/// (`rusqlite::Connection::execute`), and returns the number of changed rows. The contract
/// claims nothing about the stored data.
#[verifier::external_body]
fn execute_course_insert(conn: &rusqlite::Connection, f: &CourseFields, now: &str) -> (r: Result<usize, String>)
{
    conn.execute(
        "INSERT INTO courses (title, teacher, location, weekday, start_period, period_count, start_week, end_week, color_index, created_at, updated_at) VALUES (?1, ?2, ?3, ?4, ?5, ?6, ?7, ?8, ?9, ?10, ?10)",
        (&f.title, &f.teacher, &f.location, f.weekday, f.start_period, f.period_count, f.start_week, f.end_week, f.color_index, now),
    ).map_err(|e| e.to_string())
}

/// Deletes rows of the course table by id with `rusqlite::Connection::execute`.
#[verifier::external_body]
fn execute_course_delete(conn: &rusqlite::Connection, id: i64) -> (r: Result<usize, String>)
{
    conn.execute("DELETE FROM courses WHERE id = ?1", (id,)).map_err(|e| e.to_string())
}

/// `rusqlite::Connection::last_insert_rowid`.
#[verifier::external_body]
pub(crate) fn last_insert_rowid(conn: &rusqlite::Connection) -> (r: i64)
{
    conn.last_insert_rowid()
}

/// The local time as `%Y-%m-%d %H:%M:%S` (`chrono::Local::now`); it depends on the clock,
/// so nothing is claimed of it.
#[verifier::external_body]
pub fn local_timestamp() -> (r: String)
{
    chrono::Local::now().format("%Y-%m-%d %H:%M:%S").to_string()
}

/// All courses, in timetable order.
pub fn list_courses(conn: &rusqlite::Connection) -> (r: Result<Vec<Course>, String>) {
    query_courses(conn, None)
}

/// The course with an id, if there is one.
pub fn get_course(conn: &rusqlite::Connection, id: i64) -> (r: Result<Option<Course>, String>)
    ensures
        r matches Ok(Some(c)) ==> c.id == id,
{
    let v = query_courses(conn, Some(id))?;
    if v.len() == 0 {
        Ok(None)
    } else {
        assert(v@[0].id == id);
        Ok(Some(v[0].clone_course()))
    }
}

impl Course {
    /// A copy of the course (`clone`, with its result stated).
    pub fn clone_course(&self) -> (r: Course)
        ensures
            r == *self,
    {
        Course {
            id: self.id,
            title: copy_string(&self.title),
            teacher: copy_string(&self.teacher),
            location: copy_string(&self.location),
            weekday: self.weekday,
            start_period: self.start_period,
            period_count: self.period_count,
            start_week: self.start_week,
            end_week: self.end_week,
            color_index: self.color_index,
            created_at: copy_string(&self.created_at),
            updated_at: copy_string(&self.updated_at),
        }
    }
}

fn period_sums_fit(courses: &Vec<Course>) -> (b: bool)
    ensures
        b == courses_in_range(courses@),
{
    let mut i: usize = 0;
    while i < courses.len()
        invariant
            i <= courses.len(),
            forall|k: int| 0 <= k < i ==> i64::MIN + 1 <= (#[trigger] courses@[k]).start_period
                + courses@[k].period_count <= i64::MAX,
        decreases courses.len() - i,
    {
        let c = &courses[i];
        assert(courses@[i as int] == *c);
        let sum: i128 = c.start_period as i128 + c.period_count as i128;
        let ok = (i64::MIN as i128) + 1 <= sum && sum <= i64::MAX as i128;
        if !ok {
            return false;
        }
        i = i + 1;
    }
    true
}

/// `value.clamp(0, 7)`.
pub open spec fn color_clamp(v: int) -> int {
    if v < 0 {
        0
    } else if v > 7 {
        7
    } else {
        v
    }
}

/// Saves a course (a new one when `id` is not positive, otherwise the course with that id),
/// refusing values out of range and clashes with the other stored courses. The title,
/// teacher and place are stored trimmed and the color index held to 0..=7. A stored course
/// whose periods overflow an `i64` is reported instead of compared.
#[verifier::loop_isolation(false)]
pub fn save_course(
    conn: &rusqlite::Connection,
    id: i64,
    title: &str,
    teacher: &str,
    location: &str,
    weekday: i64,
    start_period: i64,
    period_count: i64,
    start_week: i64,
    end_week: i64,
    color_index: i64,
) -> (r: Result<Course, String>)
    ensures
        course_fields_error(title@, weekday as int, start_period as int, period_count as int, start_week as int, end_week as int) matches Some(e) ==> r matches Err(x) && x@ == e,
        r is Ok ==> course_fields_error(title@, weekday as int, start_period as int, period_count as int, start_week as int, end_week as int) is None,
        r matches Ok(c) ==> id > 0 ==> c.id == id,
{
    let t = trim_str(title);
    if t.len() == 0 {
        return Err("请填写课程名称".to_string());
    }
    if !(1 <= weekday && weekday <= 7) {
        return Err("星期设置无效".to_string());
    }
    if !(1 <= start_period && start_period <= 12) {
        return Err("开始节次应为 1–12".to_string());
    }
    if !(1 <= period_count && period_count <= 6) {
        return Err("连续节数应为 1–6".to_string());
    }
    if start_period + period_count - 1 > 12 {
        return Err("课程不能超过第 12 节".to_string());
    }
    if !(1 <= start_week && start_week <= 30) {
        return Err("开始周次应为 1–30".to_string());
    }
    if !(1 <= end_week && end_week <= 30) {
        return Err("结束周次应为 1–30".to_string());
    }
    if start_week > end_week {
        return Err("结束周不能早于开始周".to_string());
    }
    let courses = list_courses(conn)?;
    if !period_sums_fit(&courses) {
        return Err("已保存的课程节次数据无效".to_string());
    }
    check_course(&courses, id, title, weekday, start_period, period_count, start_week, end_week)?;
    let fields = course_fields(title, teacher, location, weekday, start_period, period_count, start_week, end_week, color_index);
    let ts = local_timestamp();
    if id > 0 {
        match get_course(conn, id)? {
            Some(_) => {},
            None => return Err("课程不存在".to_string()),
        }
        execute_course_update(conn, &fields, ts.as_str(), id)?;
        match get_course(conn, id)? {
            Some(c) => Ok(c),
            None => Err("更新后的课程读取失败".to_string()),
        }
    } else {
        execute_course_insert(conn, &fields, ts.as_str())?;
        let new_id = last_insert_rowid(conn);
        match get_course(conn, new_id)? {
            Some(c) => Ok(c),
            None => Err("刚插入的课程读取失败".to_string()),
        }
    }
}

/// Deletes the course with an id and returns how many rows went.
pub fn delete_course(conn: &rusqlite::Connection, id: i64) -> (r: Result<usize, String>) {
    execute_course_delete(conn, id)
}


// ------------------------------------------------------------------
// Search
// ------------------------------------------------------------------

/// A matching event: id, title, date, time, category and note.
pub type EventHitRow = (i64, String, String, Option<String>, String, String);

/// A matching todo: id, title, due date and status.
pub type TodoHitRow = (i64, String, Option<String>, String);

/// A matching note: id, title, content and creation time.
pub type NoteHitRow = (i64, String, String, String);

/// A matching course: id, title, teacher, location, weekday, start period, start and end week.
pub type CourseHitRow = (i64, String, String, String, i64, i64, i64, i64);

/// A character with ASCII capitals made small, as SQLite's `LIKE` compares letters.
pub open spec fn ascii_fold(c: char) -> int {
    if 'A' <= c && c <= 'Z' {
        c as int + 32
    } else {
        c as int
    }
}

/// `text` holds `needle` somewhere, ASCII letters compared without regard to case.
pub open spec fn contains_folded(text: Seq<char>, needle: Seq<char>) -> bool {
    exists|i: int| #[trigger] matches_at(text, needle, i)
}

/// `needle` stands in `text` from position `i` on, ASCII letters compared without regard to
/// case.
pub open spec fn matches_at(text: Seq<char>, needle: Seq<char>, i: int) -> bool {
    0 <= i && i + needle.len() <= text.len() && forall|k: int|
        0 <= k < needle.len() ==> ascii_fold(text[i + k]) == ascii_fold(#[trigger] needle[k])
}

/// A text with neither of `LIKE`'s wildcards, `%` and `_`.
pub open spec fn plain_needle(q: Seq<char>) -> bool {
    forall|k: int| 0 <= k < q.len() ==> (#[trigger] q[k]) != '%' && q[k] != '_'
}

/// The text a `LIKE` pattern looks for when the pattern is `%` + a plain text + `%`; a
/// value matches such a pattern exactly when it holds that text (`contains_folded`).
pub open spec fn like_needle(pattern: Seq<char>) -> Option<Seq<char>> {
    if pattern.len() >= 2 && pattern[0] == '%' && pattern[pattern.len() - 1] == '%'
        && plain_needle(pattern.subrange(1, pattern.len() - 1)) {
        Some(pattern.subrange(1, pattern.len() - 1))
    } else {
        None
    }
}

/// Events whose title or note holds the pattern (SQL `LIKE`), latest first, at most `max`.
/// Calls `rusqlite::Connection::prepare` and `rusqlite::Statement::query_map`, reading each row as a tuple (`TryFrom<&Row>`).
/// The contract claims only what `WHERE title LIKE ?1 OR note LIKE ?1` asks of each row when
/// the pattern is `%`, a plain text and `%` (SQLite's `LIKE` compares ASCII letters without
/// regard to case), and that `LIMIT ?2` returns at most `max` rows; which rows are stored,
/// and what is found for other patterns, are left unsaid.
#[verifier::external_body]
fn search_event_rows(conn: &rusqlite::Connection, pattern: &str, max: i64) -> (r: Result<Vec<EventHitRow>, String>)
    ensures
        r matches Ok(v) ==> max >= 0 ==> v@.len() <= max,
        r matches Ok(v) ==> like_needle(pattern@) matches Some(q) ==> forall|k: int| 0 <= k < v@.len()
            ==> contains_folded((#[trigger] v@[k]).1@, q) || contains_folded(v@[k].5@, q),
{
    let sql = "SELECT id, title, date, time, category, note FROM events WHERE title LIKE ?1 OR note LIKE ?1 ORDER BY date DESC, id DESC LIMIT ?2";
    let mut stmt = conn.prepare(sql).map_err(|e| e.to_string())?;
    let rows = stmt.query_map((pattern, max), |row| EventHitRow::try_from(row)).map_err(|e| e.to_string())?;
    rows.collect::<rusqlite::Result<Vec<EventHitRow>>>().map_err(|e| e.to_string())
}

/// Todos whose title holds the pattern, by due date (none last), at most `max`.
/// Calls `rusqlite::Connection::prepare` and `rusqlite::Statement::query_map`, reading each row as a tuple (`TryFrom<&Row>`).
/// The contract claims what `WHERE title LIKE ?1` and `LIMIT ?2` ask, as for events.
#[verifier::external_body]
fn search_todo_rows(conn: &rusqlite::Connection, pattern: &str, max: i64) -> (r: Result<Vec<TodoHitRow>, String>)
    ensures
        r matches Ok(v) ==> max >= 0 ==> v@.len() <= max,
        r matches Ok(v) ==> like_needle(pattern@) matches Some(q) ==> forall|k: int| 0 <= k < v@.len()
            ==> contains_folded((#[trigger] v@[k]).1@, q),
{
    let sql = "SELECT id, title, due_date, status FROM todos WHERE title LIKE ?1 ORDER BY due_date IS NULL, due_date, id DESC LIMIT ?2";
    let mut stmt = conn.prepare(sql).map_err(|e| e.to_string())?;
    let rows = stmt.query_map((pattern, max), |row| TodoHitRow::try_from(row)).map_err(|e| e.to_string())?;
    rows.collect::<rusqlite::Result<Vec<TodoHitRow>>>().map_err(|e| e.to_string())
}

/// Notes whose title or content holds the pattern, latest update first, at most `max`.
/// Calls `rusqlite::Connection::prepare` and `rusqlite::Statement::query_map`, reading each row as a tuple (`TryFrom<&Row>`).
/// The contract claims what `WHERE title LIKE ?1 OR content LIKE ?1` and `LIMIT ?2` ask,
/// as for events.
#[verifier::external_body]
fn search_note_rows(conn: &rusqlite::Connection, pattern: &str, max: i64) -> (r: Result<Vec<NoteHitRow>, String>)
    ensures
        r matches Ok(v) ==> max >= 0 ==> v@.len() <= max,
        r matches Ok(v) ==> like_needle(pattern@) matches Some(q) ==> forall|k: int| 0 <= k < v@.len()
            ==> contains_folded((#[trigger] v@[k]).1@, q) || contains_folded(v@[k].2@, q),
{
    let sql = "SELECT id, title, content, created_at FROM notes WHERE title LIKE ?1 OR content LIKE ?1 ORDER BY updated_at DESC, id DESC LIMIT ?2";
    let mut stmt = conn.prepare(sql).map_err(|e| e.to_string())?;
    let rows = stmt.query_map((pattern, max), |row| NoteHitRow::try_from(row)).map_err(|e| e.to_string())?;
    rows.collect::<rusqlite::Result<Vec<NoteHitRow>>>().map_err(|e| e.to_string())
}

/// Courses whose title, teacher or location holds the pattern, in timetable order, at most `max`.
/// Calls `rusqlite::Connection::prepare` and `rusqlite::Statement::query_map`, reading each row as a tuple (`TryFrom<&Row>`).
/// The contract claims what `WHERE title LIKE ?1 OR teacher LIKE ?1 OR location LIKE ?1`
/// and `LIMIT ?2` ask, as for events.
#[verifier::external_body]
fn search_course_rows(conn: &rusqlite::Connection, pattern: &str, max: i64) -> (r: Result<Vec<CourseHitRow>, String>)
    ensures
        r matches Ok(v) ==> max >= 0 ==> v@.len() <= max,
        r matches Ok(v) ==> like_needle(pattern@) matches Some(q) ==> forall|k: int| 0 <= k < v@.len()
            ==> contains_folded((#[trigger] v@[k]).1@, q) || contains_folded(v@[k].2@, q) || contains_folded(v@[k].3@, q),
{
    let sql = "SELECT id, title, teacher, location, weekday, start_period, start_week, end_week FROM courses WHERE title LIKE ?1 OR teacher LIKE ?1 OR location LIKE ?1 ORDER BY weekday, start_period, id DESC LIMIT ?2";
    let mut stmt = conn.prepare(sql).map_err(|e| e.to_string())?;
    let rows = stmt.query_map((pattern, max), |row| CourseHitRow::try_from(row)).map_err(|e| e.to_string())?;
    rows.collect::<rusqlite::Result<Vec<CourseHitRow>>>().map_err(|e| e.to_string())
}

/// A hit as id, kind, title, details and date.
pub open spec fn hit_view(h: SearchHit) -> (i64, Seq<char>, Seq<char>, Seq<char>, Seq<char>) {
    (h.id, h.kind@, h.title@, h.meta@, h.date@)
}

pub open spec fn hit_views(v: Seq<SearchHit>) -> Seq<(i64, Seq<char>, Seq<char>, Seq<char>, Seq<char>)> {
    v.map_values(|h: SearchHit| hit_view(h))
}

/// At most the first `n` characters.
pub open spec fn first_chars(s: Seq<char>, n: int) -> Seq<char> {
    if s.len() <= n {
        s
    } else {
        s.take(n)
    }
}

/// An event hit: its category label, the date followed by the time when it has one.
pub open spec fn event_hit(r: EventHitRow) -> (i64, Seq<char>, Seq<char>, Seq<char>, Seq<char>) {
    (r.0, category_label_of(r.4@), r.1@, r.2@ + match r.3 {
        Some(t) => " "@ + t@,
        None => seq![],
    }, r.2@)
}

/// A todo hit: its status label followed by the due date when it has one.
pub open spec fn todo_hit(r: TodoHitRow) -> (i64, Seq<char>, Seq<char>, Seq<char>, Seq<char>) {
    (r.0, "待办"@, r.1@, status_label_of(r.3@) + match r.2 {
        Some(d) => " · "@ + d@,
        None => seq![],
    }, match r.2 {
        Some(d) => d@,
        None => seq![],
    })
}

/// A note hit: the first 80 characters of its content, the first 10 of its creation time.
pub open spec fn note_hit(r: NoteHitRow) -> (i64, Seq<char>, Seq<char>, Seq<char>, Seq<char>) {
    (r.0, "便签"@, r.1@, first_chars(r.2@, 80), first_chars(r.3@, 10))
}

/// The place and the teacher of a course, those that are not empty.
pub open spec fn course_details(r: CourseHitRow) -> Seq<Seq<char>> {
    (if r.3@.len() > 0 {
        seq![r.3@]
    } else {
        seq![]
    }) + (if r.2@.len() > 0 {
        seq![r.2@]
    } else {
        seq![]
    })
}

/// A course hit: `周W 第P节 · 第S–E周`, then ` · ` and the place and teacher when known.
pub open spec fn course_hit(r: CourseHitRow) -> (i64, Seq<char>, Seq<char>, Seq<char>, Seq<char>) {
    let d = course_details(r);
    (r.0, "课程"@, r.1@, "周"@ + decimal_int(r.4 as int) + " 第"@ + decimal_int(r.5 as int) + "节 · 第"@
        + decimal_int(r.6 as int) + "–"@ + decimal_int(r.7 as int) + "周"@ + if d.len() == 0 {
        seq![]
    } else {
        " · "@ + join(d, " · "@)
    }, seq![])
}

fn event_search_hit(r: &EventHitRow) -> (h: SearchHit)
    ensures
        hit_view(h) == event_hit(*r),
{
    let mut meta = chars_of(r.2.as_str());
    match &r.3 {
        Some(t) => {
            append_str(&mut meta, " ");
            append_str(&mut meta, t.as_str());
        },
        None => {},
    }
    SearchHit {
        id: r.0,
        kind: category_label(r.4.as_str()).to_string(),
        title: copy_string(&r.1),
        meta: string_from_chars(&meta),
        date: copy_string(&r.2),
    }
}

fn todo_search_hit(r: &TodoHitRow) -> (h: SearchHit)
    ensures
        hit_view(h) == todo_hit(*r),
{
    let mut meta = chars_of(status_label(r.3.as_str()));
    let date = match &r.2 {
        Some(d) => {
            append_str(&mut meta, " · ");
            append_str(&mut meta, d.as_str());
            copy_string(d)
        },
        None => String::new(),
    };
    SearchHit { id: r.0, kind: "待办".to_string(), title: copy_string(&r.1), meta: string_from_chars(&meta), date }
}

fn first_chars_of(s: &str, n: usize) -> (r: String)
    ensures
        r@ == first_chars(s@, n as int),
{
    let c = chars_of(s);
    if c.len() <= n {
        string_from_chars(&c)
    } else {
        let t = crate::text::slice_chars(&c, 0, n);
        assert(t@ =~= c@.take(n as int));
        string_from_chars(&t)
    }
}

fn note_search_hit(r: &NoteHitRow) -> (h: SearchHit)
    ensures
        hit_view(h) == note_hit(*r),
{
    SearchHit {
        id: r.0,
        kind: "便签".to_string(),
        title: copy_string(&r.1),
        meta: first_chars_of(r.2.as_str(), 80),
        date: first_chars_of(r.3.as_str(), 10),
    }
}

fn course_search_hit(r: &CourseHitRow) -> (h: SearchHit)
    ensures
        hit_view(h) == course_hit(*r),
{
    let mut meta = chars_of("周");
    crate::text::append_all(&mut meta, &crate::text::decimal_i64(r.4));
    append_str(&mut meta, " 第");
    crate::text::append_all(&mut meta, &crate::text::decimal_i64(r.5));
    append_str(&mut meta, "节 · 第");
    crate::text::append_all(&mut meta, &crate::text::decimal_i64(r.6));
    append_str(&mut meta, "–");
    crate::text::append_all(&mut meta, &crate::text::decimal_i64(r.7));
    append_str(&mut meta, "周");
    let ghost before = meta@;
    let mut details: Vec<Vec<char>> = Vec::new();
    let place = chars_of(r.3.as_str());
    if place.len() > 0 {
        details.push(place);
    }
    let teacher = chars_of(r.2.as_str());
    if teacher.len() > 0 {
        details.push(teacher);
    }
    let ghost d = course_details(*r);
    assert(crate::text::views(details@) =~= d);
    if details.len() > 0 {
        append_str(&mut meta, " · ");
        let joined = crate::text::join_chars(&details, &chars_of(" · "));
        crate::text::append_all(&mut meta, &joined);
    }
    SearchHit { id: r.0, kind: "课程".to_string(), title: copy_string(&r.1), meta: string_from_chars(&meta), date: String::new() }
}


/// Hits of each kind, in the order read: events, todos, notes, courses.
pub open spec fn all_hits(
    a: Seq<EventHitRow>,
    b: Seq<TodoHitRow>,
    c: Seq<NoteHitRow>,
    d: Seq<CourseHitRow>,
) -> Seq<(i64, Seq<char>, Seq<char>, Seq<char>, Seq<char>)> {
    a.map_values(|r: EventHitRow| event_hit(r)) + b.map_values(|r: TodoHitRow| todo_hit(r)) + c.map_values(
        |r: NoteHitRow| note_hit(r),
    ) + d.map_values(|r: CourseHitRow| course_hit(r))
}

/// At most 100 hits, and no more than asked for.
pub open spec fn search_cap(limit: usize) -> int {
    if limit < 100 {
        limit as int
    } else {
        100
    }
}


/// Every row found holds the text: an event in its title or note, a todo in its title, a
/// note in its title or content, a course in its title, teacher or place.
pub open spec fn rows_hold(
    a: Seq<EventHitRow>,
    b: Seq<TodoHitRow>,
    c: Seq<NoteHitRow>,
    d: Seq<CourseHitRow>,
    q: Seq<char>,
) -> bool {
    &&& forall|k: int| 0 <= k < a.len() ==> contains_folded((#[trigger] a[k]).1@, q) || contains_folded(a[k].5@, q)
    &&& forall|k: int| 0 <= k < b.len() ==> contains_folded((#[trigger] b[k]).1@, q)
    &&& forall|k: int| 0 <= k < c.len() ==> contains_folded((#[trigger] c[k]).1@, q) || contains_folded(c[k].2@, q)
    &&& forall|k: int| 0 <= k < d.len() ==> contains_folded((#[trigger] d[k]).1@, q) || contains_folded(d[k].2@, q)
        || contains_folded(d[k].3@, q)
}

/// The pattern of a plain text is looked for as that text.
pub proof fn lemma_search_pattern_needle(q: Seq<char>)
    requires
        plain_needle(q),
    ensures
        like_needle("%"@ + q + "%"@) == Some(q),
{
    reveal_strlit("%");
    let p = "%"@ + q + "%"@;
    assert(p.len() == q.len() + 2);
    assert(p[0] == '%');
    assert(p[p.len() - 1] == '%');
    assert(p.subrange(1, p.len() - 1) =~= q);
}

/// The `LIKE` pattern of a trimmed query: `%`, the query, `%`.
fn like_pattern(q: &Vec<char>) -> (r: String)
    ensures
        r@ == "%"@ + q@ + "%"@,
{
    let mut p = chars_of("%");
    crate::text::append_all(&mut p, q);
    append_str(&mut p, "%");
    string_from_chars(&p)
}

/// Searches events, todos, notes and courses for a text. A query that is empty once
/// trimmed finds nothing; otherwise each table is asked for at most `min(limit, 100)`
/// matches of the pattern `%query%`, the matches become hits (events, then todos, notes and
/// courses), and the first `min(limit, 100)` hits are kept.
pub fn search(conn: &rusqlite::Connection, query: &str, limit: usize) -> (r: Result<Vec<SearchHit>, String>)
    ensures
        trim(query@).len() == 0 ==> (r matches Ok(v) && v@.len() == 0),
        r matches Ok(v) ==> trim(query@).len() == 0 || exists|
            a: Seq<EventHitRow>,
            b: Seq<TodoHitRow>,
            c: Seq<NoteHitRow>,
            d: Seq<CourseHitRow>,
        | #![trigger all_hits(a, b, c, d)]
            hit_views(v@) == first_hits(all_hits(a, b, c, d), search_cap(limit))
            && (plain_needle(trim(query@)) ==> rows_hold(a, b, c, d, trim(query@))),
{
    let q = trim_str(query);
    if q.len() == 0 {
        return Ok(Vec::new());
    }
    let pattern = like_pattern(&q);
    proof {
        if plain_needle(q@) {
            lemma_search_pattern_needle(q@);
        }
    }
    let cap: usize = if limit < 100 { limit } else { 100 };
    let max = cap as i64;
    let events = search_event_rows(conn, pattern.as_str(), max)?;
    let todos = search_todo_rows(conn, pattern.as_str(), max)?;
    let notes = search_note_rows(conn, pattern.as_str(), max)?;
    let courses = search_course_rows(conn, pattern.as_str(), max)?;
    let mut hits: Vec<SearchHit> = Vec::new();
    let mut i: usize = 0;
    while i < events.len()
        invariant
            i <= events@.len(),
            hit_views(hits@) == events@.take(i as int).map_values(|r: EventHitRow| event_hit(r)),
        decreases events@.len() - i,
    {
        let h = event_search_hit(&events[i]);
        let ghost old_hits = hits@;
        hits.push(h);
        proof {
            let t = events@.take(i + 1);
            let prev = events@.take(i as int);
            assert(hit_views(old_hits).len() == i);
            assert forall|j: int| 0 <= j < hit_views(hits@).len() implies hit_views(hits@)[j] == (t.map_values(|r: EventHitRow| event_hit(r)))[j] by {
                let pl: int = 0int;
                if j < hit_views(old_hits).len() {
                    assert(hit_views(hits@)[j] == hit_view(old_hits[j]));
                    assert(hit_views(old_hits)[j] == (prev.map_values(|r: EventHitRow| event_hit(r)))[j]);
                    if j >= pl {
                        assert(t[j - pl] == prev[j - pl]);
                    }
                } else {
                    assert(j - pl == i);
                    assert(t[j - pl] == events@[i as int]);
                    assert(hit_views(hits@)[j] == hit_view(h));
                }
            }
            assert(hit_views(hits@) =~= t.map_values(|r: EventHitRow| event_hit(r)));
        }
        i = i + 1;
    }
    let ghost h1 = hit_views(hits@);
    assert(events@.take(events@.len() as int) =~= events@);
    i = 0;
    while i < todos.len()
        invariant
            i <= todos@.len(),
            hit_views(hits@) == h1 + todos@.take(i as int).map_values(|r: TodoHitRow| todo_hit(r)),
        decreases todos@.len() - i,
    {
        let h = todo_search_hit(&todos[i]);
        let ghost old_hits = hits@;
        hits.push(h);
        proof {
            let t = todos@.take(i + 1);
            let prev = todos@.take(i as int);
            assert(hit_views(old_hits).len() == h1.len() + i);
            assert forall|j: int| 0 <= j < hit_views(hits@).len() implies hit_views(hits@)[j] == (h1 + t.map_values(|r: TodoHitRow| todo_hit(r)))[j] by {
                let pl: int = h1.len() as int;
                if j < hit_views(old_hits).len() {
                    assert(hit_views(hits@)[j] == hit_view(old_hits[j]));
                    assert(hit_views(old_hits)[j] == (h1 + prev.map_values(|r: TodoHitRow| todo_hit(r)))[j]);
                    if j >= pl {
                        assert(t[j - pl] == prev[j - pl]);
                    }
                } else {
                    assert(j - pl == i);
                    assert(t[j - pl] == todos@[i as int]);
                    assert(hit_views(hits@)[j] == hit_view(h));
                }
            }
            assert(hit_views(hits@) =~= h1 + t.map_values(|r: TodoHitRow| todo_hit(r)));
        }
        i = i + 1;
    }
    let ghost h2 = hit_views(hits@);
    assert(todos@.take(todos@.len() as int) =~= todos@);
    i = 0;
    while i < notes.len()
        invariant
            i <= notes@.len(),
            hit_views(hits@) == h2 + notes@.take(i as int).map_values(|r: NoteHitRow| note_hit(r)),
        decreases notes@.len() - i,
    {
        let h = note_search_hit(&notes[i]);
        let ghost old_hits = hits@;
        hits.push(h);
        proof {
            let t = notes@.take(i + 1);
            let prev = notes@.take(i as int);
            assert(hit_views(old_hits).len() == h2.len() + i);
            assert forall|j: int| 0 <= j < hit_views(hits@).len() implies hit_views(hits@)[j] == (h2 + t.map_values(|r: NoteHitRow| note_hit(r)))[j] by {
                let pl: int = h2.len() as int;
                if j < hit_views(old_hits).len() {
                    assert(hit_views(hits@)[j] == hit_view(old_hits[j]));
                    assert(hit_views(old_hits)[j] == (h2 + prev.map_values(|r: NoteHitRow| note_hit(r)))[j]);
                    if j >= pl {
                        assert(t[j - pl] == prev[j - pl]);
                    }
                } else {
                    assert(j - pl == i);
                    assert(t[j - pl] == notes@[i as int]);
                    assert(hit_views(hits@)[j] == hit_view(h));
                }
            }
            assert(hit_views(hits@) =~= h2 + t.map_values(|r: NoteHitRow| note_hit(r)));
        }
        i = i + 1;
    }
    let ghost h3 = hit_views(hits@);
    assert(notes@.take(notes@.len() as int) =~= notes@);
    i = 0;
    while i < courses.len()
        invariant
            i <= courses@.len(),
            hit_views(hits@) == h3 + courses@.take(i as int).map_values(|r: CourseHitRow| course_hit(r)),
        decreases courses@.len() - i,
    {
        let h = course_search_hit(&courses[i]);
        let ghost old_hits = hits@;
        hits.push(h);
        proof {
            let t = courses@.take(i + 1);
            let prev = courses@.take(i as int);
            assert(hit_views(old_hits).len() == h3.len() + i);
            assert forall|j: int| 0 <= j < hit_views(hits@).len() implies hit_views(hits@)[j] == (h3 + t.map_values(|r: CourseHitRow| course_hit(r)))[j] by {
                let pl: int = h3.len() as int;
                if j < hit_views(old_hits).len() {
                    assert(hit_views(hits@)[j] == hit_view(old_hits[j]));
                    assert(hit_views(old_hits)[j] == (h3 + prev.map_values(|r: CourseHitRow| course_hit(r)))[j]);
                    if j >= pl {
                        assert(t[j - pl] == prev[j - pl]);
                    }
                } else {
                    assert(j - pl == i);
                    assert(t[j - pl] == courses@[i as int]);
                    assert(hit_views(hits@)[j] == hit_view(h));
                }
            }
            assert(hit_views(hits@) =~= h3 + t.map_values(|r: CourseHitRow| course_hit(r)));
        }
        i = i + 1;
    }
    assert(courses@.take(courses@.len() as int) =~= courses@);
    let ghost all = hit_views(hits@);
    assert(all =~= all_hits(events@, todos@, notes@, courses@));
    assert(plain_needle(q@) ==> rows_hold(events@, todos@, notes@, courses@, q@));
    hits.truncate(cap);
    assert(hit_views(hits@) =~= first_hits(all, cap as int));
    Ok(hits)
}

/// At most the first `n` hits.
pub open spec fn first_hits(
    s: Seq<(i64, Seq<char>, Seq<char>, Seq<char>, Seq<char>)>,
    n: int,
) -> Seq<(i64, Seq<char>, Seq<char>, Seq<char>, Seq<char>)> {
    if s.len() <= n {
        s
    } else {
        s.take(n)
    }
}


// ------------------------------------------------------------------
// Shift rosters
// ------------------------------------------------------------------

/// The roster from `start` to `end` (both included): the day `k` days after `start` gets the
/// shift type at position `k` of the sequence, the sequence starting over when it runs out.
pub open spec fn shift_plan_spec(start: Date, end: Date, sequence: Seq<i64>) -> Seq<(i64, Seq<char>)> {
    Seq::new(
        (end.dn() - start.dn() + 1) as nat,
        |k: int| (sequence[k % sequence.len() as int], iso_date_text(date_of_dn(start.dn() + k))),
    )
}

pub open spec fn plan_view(v: Seq<(i64, String)>) -> Seq<(i64, Seq<char>)> {
    v.map_values(|p: (i64, String)| (p.0, p.1@))
}

/// The assignments of a roster, day by day.
pub fn shift_plan(start: &Date, end: &Date, sequence: &Vec<i64>) -> (r: Vec<(i64, String)>)
    requires
        start.wf(),
        end.wf(),
        start.dn() <= end.dn(),
        sequence@.len() > 0,
    ensures
        plan_view(r@) == shift_plan_spec(*start, *end, sequence@),
{
    let mut out: Vec<(i64, String)> = Vec::new();
    let mut day = *start;
    let mut index: usize = 0;
    proof {
        crate::date::lemma_dn_range(*end);
    }
    loop
        invariant_except_break
            out@.len() == index,
            forall|k: int|
                #![trigger out@[k]]
                0 <= k < index ==> (out@[k].0, out@[k].1@) == shift_plan_spec(*start, *end, sequence@)[k],
        invariant
            start.wf(),
            end.wf(),
            day.wf(),
            sequence@.len() > 0,
            start.dn() <= day.dn() <= end.dn(),
            end.dn() <= crate::date::max_day_number(),
            index == day.dn() - start.dn(),
        ensures
            out@.len() == end.dn() - start.dn() + 1,
            forall|k: int|
                #![trigger out@[k]]
                0 <= k < out@.len() ==> (out@[k].0, out@[k].1@) == shift_plan_spec(*start, *end, sequence@)[k],
        decreases end.dn() - day.dn(),
    {
        proof {
            lemma_date_of_dn(day);
        }
        let text = day.to_iso_string();
        let t = sequence[index % sequence.len()];
        let ghost before = out@;
        out.push((t, text));
        proof {
            assert(date_of_dn(start.dn() + index) == day);
            assert forall|k: int|
                #![trigger out@[k]]
                0 <= k < index + 1 implies (out@[k].0, out@[k].1@) == shift_plan_spec(*start, *end, sequence@)[k] by {
                if k < index {
                    assert(out@[k] == before[k]);
                }
            }
        }
        if day.same_day(end) {
            break;
        }
        assert(day.dn() < end.dn()) by {
            if day.dn() == end.dn() {
                crate::date::lemma_dn_injective(day, *end);
            }
        }
        day = match day.succ_opt() {
            Some(d) => d,
            None => {
                assert(false);
                break;
            },
        };
        index = index + 1;
    }
    assert(plan_view(out@) =~= shift_plan_spec(*start, *end, sequence@));
    out
}

/// How many shift types have this id (`COUNT(*)`, so never negative); which are stored is
/// left unsaid.
/// Calls `rusqlite::Connection::query_row`.
#[verifier::external_body]
fn shift_type_count(conn: &rusqlite::Connection, id: i64) -> (r: Result<i64, String>)
    ensures
        r matches Ok(n) ==> n >= 0,
{
    conn.query_row("SELECT COUNT(*) FROM shift_types WHERE id = ?1", (id,), |row| row.get::<_, i64>(0))
        .map_err(|e| e.to_string())
}

/// Stores the shift of a day, replacing the one there (`ON CONFLICT(shift_date) DO UPDATE`).
/// Calls `rusqlite::Connection::execute`, which returns the number of changed rows. Nothing is claimed of the result.
#[verifier::external_body]
fn upsert_shift_row(conn: &rusqlite::Connection, shift_type_id: i64, day: &str, now: &str) -> (r: Result<usize, String>) {
    conn.execute(
        "INSERT INTO shift_assignments (shift_type_id, shift_date, created_at) VALUES (?1, ?2, ?3) ON CONFLICT(shift_date) DO UPDATE SET shift_type_id = excluded.shift_type_id, created_at = excluded.created_at",
        (shift_type_id, day, now),
    ).map_err(|e| e.to_string())
}

pub open spec fn unknown_shift_error(id: i64) -> Seq<char> {
    "不存在的班次 ID："@ + decimal_int(id as int)
}

/// The message for a shift type id that names no stored shift type.
pub fn unknown_shift_message(id: i64) -> (r: String)
    ensures
        r@ == unknown_shift_error(id),
{
    let mut m = chars_of("不存在的班次 ID：");
    crate::text::append_all(&mut m, &crate::text::decimal_i64(id));
    string_from_chars(&m)
}

/// Fills the roster from `start` to `end` with the shift types of `sequence` in turn,
/// replacing the shifts already there, and returns the number of days written. The end
/// may not come before the start, the sequence may not be empty, and every shift type in it
/// must exist.
#[verifier::loop_isolation(false)]
pub fn generate_shift_assignments(conn: &rusqlite::Connection, start: &Date, end: &Date, sequence: &Vec<i64>) -> (r: Result<usize, String>)
    requires
        start.wf(),
        end.wf(),
    ensures
        end.dn() < start.dn() ==> (r matches Err(e) && e@ == "排班结束日期不能早于开始日期"@),
        end.dn() >= start.dn() && sequence@.len() == 0 ==> (r matches Err(e) && e@ == "排班序列不能为空"@),
        r matches Ok(n) ==> sequence@.len() > 0 && n == end.dn() - start.dn() + 1,
{
    if end.is_before(start) {
        return Err("排班结束日期不能早于开始日期".to_string());
    }
    if sequence.len() == 0 {
        return Err("排班序列不能为空".to_string());
    }
    let mut i: usize = 0;
    while i < sequence.len()
        invariant
            i <= sequence@.len(),
        decreases sequence@.len() - i,
    {
        let stored = shift_type_count(conn, sequence[i])?;
        if stored == 0 {
            return Err(unknown_shift_message(sequence[i]));
        }
        i = i + 1;
    }
    let plan = shift_plan(start, end, sequence);
    let mut count: usize = 0;
    i = 0;
    while i < plan.len()
        invariant
            i <= plan@.len(),
            count == i,
        decreases plan@.len() - i,
    {
        let now = local_timestamp();
        upsert_shift_row(conn, plan[i].0, plan[i].1.as_str(), now.as_str())?;
        count = count + 1;
        i = i + 1;
    }
    assert(plan_view(plan@).len() == plan@.len());
    Ok(count)
}


// ------------------------------------------------------------------
// Habits
// ------------------------------------------------------------------

/// The days a habit was checked off, as stored (`log_date` of `habit_logs`); nothing is
/// claimed of them.
/// Calls `rusqlite::Connection::prepare` and `rusqlite::Statement::query_map`, reading each row as a tuple (`TryFrom<&Row>`).
#[verifier::external_body]
fn habit_log_days(conn: &rusqlite::Connection, habit_id: i64) -> (r: Result<Vec<String>, String>) {
    let mut stmt = conn.prepare("SELECT log_date FROM habit_logs WHERE habit_id = ?1").map_err(|e| e.to_string())?;
    let rows = stmt.query_map((habit_id,), |row| row.get::<_, String>(0)).map_err(|e| e.to_string())?;
    rows.collect::<rusqlite::Result<Vec<String>>>().map_err(|e| e.to_string())
}

/// A stored habit without its streak: id, title, archived flag and creation time.
pub type HabitRow = (i64, String, bool, String);

/// The stored habits, newest first, the archived ones only when asked for.
/// Calls `rusqlite::Connection::prepare` and `rusqlite::Statement::query_map`, reading each row as a tuple (`TryFrom<&Row>`).
/// The contract claims only what `WHERE (?1 OR archived = 0)` and `ORDER BY id DESC` ask
/// of the rows; which habits are stored is left unsaid.
#[verifier::external_body]
fn habit_rows(conn: &rusqlite::Connection, include_archived: bool) -> (r: Result<Vec<HabitRow>, String>)
    ensures
        r matches Ok(v) ==> forall|k: int| 0 <= k < v@.len() ==> (include_archived || !(#[trigger] v@[k]).2),
        r matches Ok(v) ==> forall|i: int, j: int| 0 <= i < j < v@.len() ==> (#[trigger] v@[i]).0 >= (#[trigger] v@[j]).0,
{
    let sql = "SELECT id, title, archived, created_at FROM habits WHERE (?1 OR archived = 0) ORDER BY id DESC";
    let mut stmt = conn.prepare(sql).map_err(|e| e.to_string())?;
    let rows = stmt.query_map((include_archived,), |row| HabitRow::try_from(row)).map_err(|e| e.to_string())?;
    rows.collect::<rusqlite::Result<Vec<HabitRow>>>().map_err(|e| e.to_string())
}

/// Inserts a habit that is not archived.
/// Calls `rusqlite::Connection::execute`, which returns the number of changed rows. Nothing is claimed of the result.
#[verifier::external_body]
fn insert_habit(conn: &rusqlite::Connection, title: &str, now: &str) -> (r: Result<usize, String>) {
    conn.execute("INSERT INTO habits (title, archived, created_at) VALUES (?1, 0, ?2)", (title, now))
        .map_err(|e| e.to_string())
}

/// Checks a habit off on a day.
/// Calls `rusqlite::Connection::execute`, which returns the number of changed rows. Nothing is claimed of the result.
#[verifier::external_body]
fn insert_habit_log(conn: &rusqlite::Connection, habit_id: i64, day: &str) -> (r: Result<usize, String>) {
    conn.execute("INSERT INTO habit_logs (habit_id, log_date) VALUES (?1, ?2)", (habit_id, day))
        .map_err(|e| e.to_string())
}

/// Removes the check-off of a habit on a day.
/// Calls `rusqlite::Connection::execute`, which returns the number of changed rows. Nothing is claimed of the result.
#[verifier::external_body]
fn delete_habit_log(conn: &rusqlite::Connection, habit_id: i64, day: &str) -> (r: Result<usize, String>) {
    conn.execute("DELETE FROM habit_logs WHERE habit_id = ?1 AND log_date = ?2", (habit_id, day))
        .map_err(|e| e.to_string())
}

/// Today's local date (`chrono::Local::now().date_naive()`); it depends on the clock and
/// the time zone, so the contract claims only that it is a valid date.
#[verifier::external_body]
fn local_today() -> (r: Date)
    ensures
        r.wf(),
{
    let d = chrono::Local::now().date_naive();
    Date { year: d.year(), month: d.month(), day: d.day() }
}

pub open spec fn texts(v: Seq<String>) -> Seq<Seq<char>> {
    v.map_values(|s: String| s@)
}

/// The day with this number is among the checked-off days.
pub open spec fn logged_on(days: Seq<Seq<char>>, n: int) -> bool {
    days.contains(iso_date_text(date_of_dn(n)))
}

/// The number of consecutive checked-off days counting back from day `n`.
pub open spec fn run_back(days: Seq<Seq<char>>, n: int) -> nat
    decreases n - crate::date::min_day_number() + 1,
{
    if n < crate::date::min_day_number() || !logged_on(days, n) {
        0
    } else {
        1 + run_back(days, n - 1)
    }
}

/// The streak of a habit on `today` and whether today is checked off: the days checked off
/// in a row counting back from today, or from yesterday when today is not checked off yet.
pub open spec fn streak_spec(days: Seq<Seq<char>>, today: Date) -> Result<(int, bool), Seq<char>> {
    if logged_on(days, today.dn()) {
        Ok((run_back(days, today.dn()) as int, true))
    } else if today.dn() > crate::date::min_day_number() {
        Ok((run_back(days, today.dn() - 1) as int, false))
    } else {
        Err("日期下溢"@)
    }
}

fn day_logged(days: &Vec<String>, d: &Date) -> (b: bool)
    requires
        d.wf(),
    ensures
        b == logged_on(texts(days@), d.dn()),
{
    proof {
        lemma_date_of_dn(*d);
    }
    let text = d.iso_chars();
    let mut i: usize = 0;
    while i < days.len()
        invariant
            i <= days@.len(),
            text@ == iso_date_text(*d),
            date_of_dn(d.dn()) == *d,
            forall|k: int| 0 <= k < i ==> days@[k]@ != text@,
        decreases days@.len() - i,
    {
        if crate::text::seq_eq(&chars_of(days[i].as_str()), &text) {
            assert(texts(days@)[i as int] == iso_date_text(*d));
            assert(texts(days@).contains(iso_date_text(*d)));
            return true;
        }
        i = i + 1;
    }
    assert(!texts(days@).contains(iso_date_text(*d))) by {
        if texts(days@).contains(iso_date_text(*d)) {
            let k = choose|k: int| 0 <= k < texts(days@).len() && texts(days@)[k] == iso_date_text(*d);
            assert(days@[k]@ == text@);
        }
    }
    false
}

/// The streak of a habit from the days it was checked off.
pub fn streak_from_days(days: &Vec<String>, today: &Date) -> (r: Result<(i64, bool), String>)
    requires
        today.wf(),
    ensures
        match (r, streak_spec(texts(days@), *today)) {
            (Ok(a), Ok(b)) => a.0 == b.0 && a.1 == b.1,
            (Err(a), Err(b)) => a@ == b,
            _ => false,
        },
{
    proof {
        crate::date::lemma_dn_range(*today);
    }
    let done_today = day_logged(days, today);
    let start = if done_today {
        *today
    } else {
        match today.pred_opt() {
            Some(d) => d,
            None => {
                return Err("日期下溢".to_string());
            },
        }
    };
    let ghost ds = texts(days@);
    let mut streak: i64 = 0;
    let mut day = start;
    loop
        invariant_except_break
            streak == start.dn() - day.dn(),
            run_back(ds, start.dn()) == streak + run_back(ds, day.dn()),
        invariant
            day.wf(),
            start.wf(),
            ds == texts(days@),
            crate::date::min_day_number() <= day.dn() <= start.dn() <= crate::date::max_day_number(),
        ensures
            streak == run_back(ds, start.dn()),
        decreases day.dn() - crate::date::min_day_number(),
    {
        proof {
            crate::date::lemma_dn_range(day);
            crate::date::lemma_dn_range(start);
        }
        if !day_logged(days, &day) {
            break;
        }
        assert(run_back(ds, day.dn()) == 1 + run_back(ds, day.dn() - 1));
        match day.pred_opt() {
            Some(p) => {
                streak = streak + 1;
                day = p;
            },
            None => {
                assert(run_back(ds, day.dn() - 1) == 0);
                streak = streak + 1;
                break;
            },
        }
    }
    Ok((streak, done_today))
}

/// The streak of a stored habit on a day, from the days it was checked off.
pub fn compute_streak(conn: &rusqlite::Connection, habit_id: i64, today: &Date) -> (r: Result<(i64, bool), String>)
    requires
        today.wf(),
    ensures
        r matches Ok(x) ==> exists|days: Seq<Seq<char>>| streak_spec(days, *today) == Ok::<(int, bool), Seq<char>>((x.0 as int, x.1)),
{
    let days = habit_log_days(conn, habit_id)?;
    let r = streak_from_days(&days, today);
    match r {
        Ok(x) => {
            assert(streak_spec(texts(days@), *today) == Ok::<(int, bool), Seq<char>>((x.0 as int, x.1)));
            Ok(x)
        },
        Err(e) => Err(e),
    }
}

/// A streak and today's state that some set of checked-off days gives on some day.
pub open spec fn streak_of_some_log(streak: int, done_today: bool) -> bool {
    exists|days: Seq<Seq<char>>, today: Date|
        today.wf() && #[trigger] streak_spec(days, today) == Ok::<(int, bool), Seq<char>>((streak, done_today))
}

/// The stored habits, newest first (the archived ones only when asked for), each with its
/// streak on today's date.
pub fn list_habits(conn: &rusqlite::Connection, include_archived: bool) -> (r: Result<Vec<Habit>, String>)
    ensures
        r matches Ok(v) ==> forall|k: int|
            #![trigger v@[k]]
            0 <= k < v@.len() ==> streak_of_some_log(v@[k].streak as int, v@[k].done_today),
        r matches Ok(v) ==> forall|k: int| 0 <= k < v@.len() ==> (include_archived || !(#[trigger] v@[k]).archived),
        r matches Ok(v) ==> forall|i: int, j: int| 0 <= i < j < v@.len() ==> (#[trigger] v@[i]).id >= (#[trigger] v@[j]).id,
{
    let today = local_today();
    let base = habit_rows(conn, include_archived)?;
    let mut out: Vec<Habit> = Vec::new();
    let mut i: usize = 0;
    while i < base.len()
        invariant
            i <= base@.len(),
            today.wf(),
            out@.len() == i,
            forall|k: int|
                #![trigger out@[k]]
                0 <= k < i ==> streak_of_some_log(out@[k].streak as int, out@[k].done_today),
            forall|k: int| 0 <= k < i ==> (#[trigger] out@[k]).id == base@[k].0 && out@[k].archived == base@[k].2,
            forall|k: int| 0 <= k < base@.len() ==> (include_archived || !(#[trigger] base@[k]).2),
            forall|a: int, b: int| 0 <= a < b < base@.len() ==> (#[trigger] base@[a]).0 >= (#[trigger] base@[b]).0,
        decreases base@.len() - i,
    {
        let (streak, done_today) = compute_streak(conn, base[i].0, &today)?;
        out.push(Habit {
            id: base[i].0,
            title: copy_string(&base[i].1),
            archived: base[i].2,
            created_at: copy_string(&base[i].3),
            streak,
            done_today,
        });
        i = i + 1;
    }
    proof {
        assert forall|a: int, b: int| 0 <= a < b < out@.len() implies (#[trigger] out@[a]).id >= (#[trigger] out@[b]).id by {
            assert(out@[a].id == base@[a].0);
            assert(out@[b].id == base@[b].0);
        }
    }
    Ok(out)
}

/// Stores a new habit and returns it, with no streak yet.
pub fn create_habit(conn: &rusqlite::Connection, title: &str) -> (r: Result<Habit, String>)
    ensures
        r matches Ok(h) ==> h.title@ == title@ && !h.archived && h.streak == 0,
{
    let now = local_timestamp();
    insert_habit(conn, title, now.as_str())?;
    let id = last_insert_rowid(conn);
    let today = local_today();
    let (_, done_today) = compute_streak(conn, id, &today)?;
    Ok(Habit {
        id,
        title: title.to_string(),
        archived: false,
        created_at: local_timestamp(),
        streak: 0,
        done_today,
    })
}

/// Checks a habit off on a day, or takes the check-off back when it is there, and returns
/// the streak on today's date afterwards.
pub fn toggle_habit_log(conn: &rusqlite::Connection, habit_id: i64, date: &Date) -> (r: Result<i64, String>)
    requires
        date.wf(),
    ensures
        r matches Ok(n) ==> streak_of_some_log(n as int, true) || streak_of_some_log(n as int, false),
{
    let days = habit_log_days(conn, habit_id)?;
    let text = date.to_iso_string();
    if day_logged(&days, date) {
        delete_habit_log(conn, habit_id, text.as_str())?;
    } else {
        insert_habit_log(conn, habit_id, text.as_str())?;
    }
    let today = local_today();
    let (streak, d) = compute_streak(conn, habit_id, &today)?;
    assert(streak_of_some_log(streak as int, d));
    Ok(streak)
}


/// The id of the first shift type with this name.
pub open spec fn shift_type_named(types: Seq<ShiftType>, name: Seq<char>) -> Option<i64>
    decreases types.len(),
{
    if types.len() == 0 {
        None
    } else if types[0].name@ == name {
        Some(types[0].id)
    } else {
        shift_type_named(types.drop_first(), name)
    }
}

/// The shift type ids named by comma-separated pieces (trimmed, empty ones skipped), or the
/// first name with no shift type.
pub open spec fn shift_ids_of(parts: Seq<Seq<char>>, types: Seq<ShiftType>) -> Result<Seq<i64>, Seq<char>>
    decreases parts.len(),
{
    if parts.len() == 0 {
        Ok(seq![])
    } else {
        let t = trim(parts[0]);
        let rest = shift_ids_of(parts.drop_first(), types);
        if t.len() == 0 {
            rest
        } else {
            match shift_type_named(types, t) {
                None => Err("找不到班次："@ + t),
                Some(id) => match rest {
                    Ok(r) => Ok(seq![id] + r),
                    Err(e) => Err(e),
                },
            }
        }
    }
}

fn find_shift_type(types: &Vec<ShiftType>, name: &Vec<char>) -> (r: Option<i64>)
    ensures
        r == shift_type_named(types@, name@),
{
    let mut k: usize = 0;
    assert(types@.skip(0) =~= types@);
    while k < types.len()
        invariant
            k <= types@.len(),
            shift_type_named(types@, name@) == shift_type_named(types@.skip(k as int), name@),
        decreases types@.len() - k,
    {
        assert(types@.skip(k as int)[0] == types@[k as int]);
        assert(types@.skip(k as int).drop_first() =~= types@.skip(k + 1));
        if crate::text::seq_eq(&chars_of(types[k].name.as_str()), name) {
            return Some(types[k].id);
        }
        k = k + 1;
    }
    None
}

/// The shift type ids of a roster sequence written as comma-separated names.
pub fn shift_ids_from_names(sequence: &str, types: &Vec<ShiftType>) -> (r: Result<Vec<i64>, String>)
    ensures
        match (r, shift_ids_of(crate::text::split(sequence@, ','), types@)) {
            (Ok(a), Ok(b)) => a@ == b,
            (Err(a), Err(b)) => a@ == b,
            _ => false,
        },
{
    let parts = crate::text::split_chars(&chars_of(sequence), ',');
    let ghost ps = crate::text::split(sequence@, ',');
    let mut out: Vec<i64> = Vec::new();
    let mut i: usize = 0;
    assert(ps.skip(0) =~= ps);
    proof {
        match shift_ids_of(ps, types@) {
            Ok(r) => {
                assert(out@ + r =~= r);
            },
            Err(e) => {},
        }
    }
    while i < parts.len()
        invariant
            i <= parts@.len(),
            crate::text::views(parts@) == ps,
            ps == crate::text::split(sequence@, ','),
            shift_ids_of(ps, types@) == match shift_ids_of(ps.skip(i as int), types@) {
                Ok(r) => Ok(out@ + r),
                Err(e) => Err(e),
            },
        decreases parts@.len() - i,
    {
        let ghost tail = ps.skip(i as int);
        assert(tail[0] == parts@[i as int]@);
        assert(tail.drop_first() =~= ps.skip(i + 1));
        let t = crate::text::trim_chars(&parts[i]);
        if t.len() > 0 {
            match find_shift_type(types, &t) {
                Some(id) => {
                    let ghost before = out@;
                    out.push(id);
                    proof {
                        match shift_ids_of(ps.skip(i + 1), types@) {
                            Ok(r) => {
                                assert(before + (seq![id] + r) =~= out@ + r);
                            },
                            Err(e) => {},
                        }
                    }
                },
                None => {
                    let mut m = chars_of("找不到班次：");
                    crate::text::append_all(&mut m, &t);
                    return Err(string_from_chars(&m));
                },
            }
        }
        i = i + 1;
    }
    assert(ps.skip(i as int) =~= Seq::<Seq<char>>::empty());
    assert(out@ + Seq::<i64>::empty() =~= out@);
    Ok(out)
}

} // verus!
