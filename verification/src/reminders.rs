//! Reminders of events: notification styles, when a reminder is due, the words it shows,
//! and the queue that holds alerts until the desktop window can show them.

use crate::date::{hm_text, iso_date_text, parse_hm, Date, DateTime};
use crate::text::{
    append_all, append_str, chars_of, decimal_i64, decimal_int, eq_str, parse_i64,
    parse_i64_spec, split, split_chars, string_from_chars, trim, trim_chars, trim_str, views,
};
use vstd::prelude::*;

verus! {

/// How strongly a due reminder draws attention.
#[derive(Clone, Copy, Debug, PartialEq, Eq, Structural)]
pub enum NotificationStyle {
    Quiet,
    Standard,
    Strong,
}

/// The style a stored setting names; anything unknown is the standard style.
pub open spec fn style_of_setting(value: Seq<char>) -> NotificationStyle {
    let t = trim(value);
    if t == "quiet"@ {
        NotificationStyle::Quiet
    } else if t == "strong"@ {
        NotificationStyle::Strong
    } else {
        NotificationStyle::Standard
    }
}

pub open spec fn setting_of_style(s: NotificationStyle) -> Seq<char> {
    match s {
        NotificationStyle::Quiet => "quiet"@,
        NotificationStyle::Standard => "standard"@,
        NotificationStyle::Strong => "strong"@,
    }
}

impl NotificationStyle {
    pub fn from_setting(value: &str) -> (r: NotificationStyle)
        ensures
            r == style_of_setting(value@),
    {
        let t = trim_str(value);
        if eq_str(&t, "quiet") {
            NotificationStyle::Quiet
        } else if eq_str(&t, "strong") {
            NotificationStyle::Strong
        } else {
            NotificationStyle::Standard
        }
    }

    pub fn as_setting(self) -> (r: &'static str)
        ensures
            r@ == setting_of_style(self),
    {
        match self {
            NotificationStyle::Quiet => "quiet",
            NotificationStyle::Standard => "standard",
            NotificationStyle::Strong => "strong",
        }
    }

    pub fn effect_level(self) -> (r: i32)
        ensures
            r == (match self {
                NotificationStyle::Quiet => 0i32,
                NotificationStyle::Standard => 1i32,
                NotificationStyle::Strong => 2i32,
            }),
    {
        match self {
            NotificationStyle::Quiet => 0,
            NotificationStyle::Standard => 1,
            NotificationStyle::Strong => 2,
        }
    }
}

/// A stored style reads back as itself.
pub proof fn lemma_style_setting_round_trip(s: NotificationStyle)
    ensures
        style_of_setting(setting_of_style(s)) == s,
{
    reveal_strlit("quiet");
    reveal_strlit("standard");
    reveal_strlit("strong");
    let t = setting_of_style(s);
    assert(t.len() > 0);
    assert(!crate::text::is_ws(t[0]) && !crate::text::is_ws(t[t.len() - 1]));
    crate::text::lemma_trim_id(t);
    assert("quiet"@.len() == 5 && "strong"@.len() == 6 && "standard"@.len() == 8);
    assert("quiet"@ != "strong"@ && "standard"@ != "strong"@ && "quiet"@ != "standard"@);
}

/// An alert shown by the desktop window.
#[derive(Clone, Debug, PartialEq, Eq)]
pub struct ReminderAlert {
    pub message: String,
    pub style: NotificationStyle,
}

fn copy_alert(a: &ReminderAlert) -> (r: ReminderAlert)
    ensures
        r == *a,
{
    ReminderAlert { message: a.message.clone(), style: a.style }
}

// ------------------------------------------------------------------
// Texts
// ------------------------------------------------------------------

/// When a reminder fires relative to the start: now, in whole days, whole hours, or minutes.
pub open spec fn offset_label(m: int) -> Seq<char> {
    if m == 0 {
        "现在开始"@
    } else if m % 1440 == 0 {
        decimal_int(m / 1440) + " 天后开始"@
    } else if m % 60 == 0 {
        decimal_int(m / 60) + " 小时后开始"@
    } else {
        decimal_int(m) + " 分钟后开始"@
    }
}

pub fn format_offset(offset_minutes: i64) -> (r: String)
    ensures
        r@ == offset_label(offset_minutes as int),
{
    let m = offset_minutes;
    let v = if m == 0 {
        chars_of("现在开始")
    } else if m % 1440 == 0 {
        let mut v = decimal_i64(m / 1440);
        append_str(&mut v, " 天后开始");
        v
    } else if m % 60 == 0 {
        let mut v = decimal_i64(m / 60);
        append_str(&mut v, " 小时后开始");
        v
    } else {
        let mut v = decimal_i64(m);
        append_str(&mut v, " 分钟后开始");
        v
    };
    string_from_chars(&v)
}

/// The start of an event on a day: its `HH:MM` time as chrono reads it, 09:00 when it has
/// none or the time does not read.
pub open spec fn event_start_spec(date: Date, time: Option<Seq<char>>) -> DateTime {
    let hm: (u32, u32) = match time {
        Some(t) => match crate::date::chrono_parse_hm(t) {
            Some(x) => x,
            None => (9u32, 0u32),
        },
        None => (9u32, 0u32),
    };
    DateTime { date, hour: hm.0, minute: hm.1, second: 0 }
}

pub fn event_start(date: Date, time: Option<&str>) -> (r: DateTime)
    requires
        date.wf(),
    ensures
        r == event_start_spec(
            date,
            match time {
                Some(t) => Some(t@),
                None => None,
            },
        ),
        r.wf(),
{
    let hm = match time {
        Some(t) => match parse_hm(t) {
            Some(x) => x,
            None => (9u32, 0u32),
        },
        None => (9u32, 0u32),
    };
    DateTime { date, hour: hm.0, minute: hm.1, second: 0 }
}

/// `%Y-%m-%d %H:%M`.
pub open spec fn datetime_minute_text(t: DateTime) -> Seq<char> {
    iso_date_text(t.date) + " "@ + hm_text(t.hour as int, t.minute as int)
}

/// The body of a reminder: the event's start and when it begins.
pub open spec fn reminder_body_text(event: DateTime, offset: int) -> Seq<char> {
    datetime_minute_text(event) + "  "@ + offset_label(offset)
}

/// The message of a reminder alert.
pub open spec fn reminder_message_text(title: Seq<char>, event: DateTime, offset: int) -> Seq<char> {
    "日程提醒："@ + title + " · "@ + reminder_body_text(event, offset)
}

fn body_chars(event: &DateTime, offset: i64) -> (r: Vec<char>)
    requires
        event.wf(),
    ensures
        r@ == reminder_body_text(*event, offset as int),
{
    let mut v = event.date.iso_chars();
    append_str(&mut v, " ");
    let hm = crate::ics::hm_chars(event.hour, event.minute);
    append_all(&mut v, &hm);
    append_str(&mut v, "  ");
    let label = format_offset(offset);
    append_str(&mut v, label.as_str());
    v
}

/// The body shown under a reminder's title.
pub fn reminder_body(event: &DateTime, offset_minutes: i64) -> (r: String)
    requires
        event.wf(),
    ensures
        r@ == reminder_body_text(*event, offset_minutes as int),
{
    let v = body_chars(event, offset_minutes);
    string_from_chars(&v)
}

/// The alert for a due reminder of an event.
pub fn reminder_alert(title: &str, event: &DateTime, offset_minutes: i64, style: NotificationStyle) -> (r: ReminderAlert)
    requires
        event.wf(),
    ensures
        r.message@ == reminder_message_text(title@, *event, offset_minutes as int),
        r.style == style,
{
    let mut v = chars_of("日程提醒：");
    append_str(&mut v, title);
    append_str(&mut v, " · ");
    let b = body_chars(event, offset_minutes);
    append_all(&mut v, &b);
    ReminderAlert { message: string_from_chars(&v), style }
}

// ------------------------------------------------------------------
// Offsets and due times
// ------------------------------------------------------------------

/// The offsets of a stored list such as `10,60`: each comma-separated piece, trimmed, that
/// reads as an `i64`, in order.
pub open spec fn offsets_of(pieces: Seq<Seq<char>>) -> Seq<i64>
    decreases pieces.len(),
{
    if pieces.len() == 0 {
        seq![]
    } else {
        let r = offsets_of(pieces.drop_last());
        match parse_i64_spec(trim(pieces.last())) {
            Some(v) => r.push(v as i64),
            None => r,
        }
    }
}

pub fn reminder_offsets(text: &str) -> (r: Vec<i64>)
    ensures
        r@ == offsets_of(split(text@, ',')),
{
    let t = chars_of(text);
    let pieces = split_chars(&t, ',');
    let mut out: Vec<i64> = Vec::new();
    let mut i: usize = 0;
    while i < pieces.len()
        invariant
            i <= pieces.len(),
            views(pieces@) == split(t@, ','),
            out@ == offsets_of(views(pieces@).take(i as int)),
        decreases pieces.len() - i,
    {
        proof {
            let tk = views(pieces@).take(i + 1);
            assert(tk.drop_last() =~= views(pieces@).take(i as int));
            assert(tk.last() == pieces@[i as int]@);
        }
        let p = trim_chars(&pieces[i]);
        match parse_i64(&p) {
            Some(v) => out.push(v),
            None => {},
        }
        i = i + 1;
    }
    assert(views(pieces@).take(pieces.len() as int) =~= views(pieces@));
    out
}

/// Offsets whose reminders chrono can place: the minutes fit a `TimeDelta`, and the moment
/// stays within the supported dates.
pub open spec fn offset_in_range(event: DateTime, offset: int) -> bool {
    &&& -9223372036854775 <= offset * 60 <= 9223372036854775
    &&& crate::date::min_day_number() * 86400 <= event.seconds() - offset * 60
    &&& event.seconds() - offset * 60 < (crate::date::max_day_number() + 1) * 86400
}

/// A reminder is due once its moment (the start minus the offset) has come, unless it came
/// more than a day ago: missed reminders are not sent late in bulk.
pub open spec fn is_due_spec(event: DateTime, offset: int, now: DateTime) -> bool {
    let at = event.seconds() - offset * 60;
    now.seconds() - 86400 <= at && at <= now.seconds()
}

pub fn is_due(event: &DateTime, offset_minutes: i64, now: &DateTime) -> (b: bool)
    requires
        event.wf(),
        now.wf(),
        offset_in_range(*event, offset_minutes as int),
        now.seconds() - 86400 >= crate::date::min_day_number() * 86400,
    ensures
        b == is_due_spec(*event, offset_minutes as int, *now),
{
    proof {
        crate::date::lemma_seconds_range(*event);
        crate::date::lemma_seconds_range(*now);
    }
    let at = event.seconds_exec() - offset_minutes * 60;
    let n = now.seconds_exec();
    n - 86400 <= at && at <= n
}

// ------------------------------------------------------------------
// Alerts waiting for the desktop window
// ------------------------------------------------------------------

/// How many alerts wait at most; older ones give way.
pub const MAX_PENDING_NOTIFICATIONS: usize = 20;

/// The desktop window's notifier, once installed, and the alerts that became due before it
/// was (or that it could not show), oldest first.
pub struct ReminderCenter<F> {
    notifier: Option<F>,
    pending: Vec<ReminderAlert>,
}

impl<F: Fn(ReminderAlert) -> bool> ReminderCenter<F> {
    pub closed spec fn pending_alerts(&self) -> Seq<ReminderAlert> {
        self.pending@
    }

    pub closed spec fn notifier_fn(&self) -> Option<F> {
        self.notifier
    }

    /// At most twenty alerts wait, and an installed notifier accepts every alert.
    pub open spec fn wf(&self) -> bool {
        &&& self.pending_alerts().len() <= MAX_PENDING_NOTIFICATIONS
        &&& (self.notifier_fn() matches Some(n) ==> forall|a: ReminderAlert| n.requires((a,)))
    }

    pub fn new() -> (c: Self)
        ensures
            c.wf(),
            c.pending_alerts() == Seq::<ReminderAlert>::empty(),
            c.notifier_fn() is None,
    {
        ReminderCenter { notifier: None, pending: Vec::new() }
    }

    pub fn pending_count(&self) -> (n: usize)
        ensures
            n == self.pending_alerts().len(),
    {
        self.pending.len()
    }
}

/// The queue after an alert waits: the oldest alerts leave until there is room.
pub open spec fn alerts_after_push(q: Seq<ReminderAlert>, a: ReminderAlert) -> Seq<ReminderAlert> {
    if q.len() >= MAX_PENDING_NOTIFICATIONS {
        q.subrange(q.len() - (MAX_PENDING_NOTIFICATIONS - 1), q.len() as int).push(a)
    } else {
        q.push(a)
    }
}

/// Connects due reminders to the desktop window's corner popup. Alerts that became due
/// before are handed over in order until the notifier declines one, which stays first in
/// line.
pub fn install_gui_notifier<F: Fn(ReminderAlert) -> bool>(center: &mut ReminderCenter<F>, notifier: F)
    requires
        old(center).wf(),
        forall|a: ReminderAlert| notifier.requires((a,)),
    ensures
        final(center).wf(),
        final(center).notifier_fn() == Some(notifier),
        exists|k: int|
            0 <= k <= old(center).pending_alerts().len() && final(center).pending_alerts()
                == old(center).pending_alerts().subrange(
                k,
                old(center).pending_alerts().len() as int,
            ) && (forall|j: int| 0 <= j < k ==> notifier.ensures((old(center).pending_alerts()[j],), true))
                && (k < old(center).pending_alerts().len() ==> notifier.ensures(
                (old(center).pending_alerts()[k],),
                false,
            )),
{
    let ghost q0 = center.pending@;
    let mut k: usize = 0;
    let mut refused = false;
    while k < center.pending.len() && !refused
        invariant
            q0 == old(center).pending_alerts(),
            center.pending@ == q0,
            k <= q0.len(),
            forall|a: ReminderAlert| notifier.requires((a,)),
            forall|j: int| 0 <= j < k ==> notifier.ensures((q0[j],), true),
            refused ==> k < q0.len() && notifier.ensures((q0[k as int],), false),
        decreases q0.len() - k + (if refused { 0int } else { 1int }),
    {
        let a = copy_alert(&center.pending[k]);
        if notifier(a) {
            k = k + 1;
        } else {
            refused = true;
        }
    }
    let mut rest: Vec<ReminderAlert> = Vec::new();
    let mut i = k;
    while i < center.pending.len()
        invariant
            center.pending@ == q0,
            k <= i <= q0.len(),
            rest@ == q0.subrange(k as int, i as int),
        decreases q0.len() - i,
    {
        rest.push(copy_alert(&center.pending[i]));
        assert(rest@ =~= q0.subrange(k as int, i + 1));
        i = i + 1;
    }
    center.pending = rest;
    center.notifier = Some(notifier);
}

/// Shows a due alert in the desktop window when the notifier is installed and accepts it;
/// otherwise the alert waits, the oldest waiting alerts giving way beyond twenty.
pub fn dispatch_gui_notification<F: Fn(ReminderAlert) -> bool>(center: &mut ReminderCenter<F>, alert: ReminderAlert)
    requires
        old(center).wf(),
    ensures
        final(center).wf(),
        final(center).notifier_fn() == old(center).notifier_fn(),
        match old(center).notifier_fn() {
            Some(n) => (n.ensures((alert,), true) && final(center).pending_alerts() == old(
                center,
            ).pending_alerts()) || (n.ensures((alert,), false) && final(center).pending_alerts()
                == alerts_after_push(old(center).pending_alerts(), alert)),
            None => final(center).pending_alerts() == alerts_after_push(
                old(center).pending_alerts(),
                alert,
            ),
        },
{
    match &center.notifier {
        Some(n) => {
            let a = copy_alert(&alert);
            if n(a) {
                return;
            }
        },
        None => {},
    }
    let ghost q0 = center.pending@;
    if center.pending.len() >= MAX_PENDING_NOTIFICATIONS {
        center.pending.remove(0);
        assert(center.pending@ =~= q0.subrange(
            q0.len() - (MAX_PENDING_NOTIFICATIONS - 1),
            q0.len() as int,
        ));
    }
    center.pending.push(alert);
}

/// The text of the test notification sent from settings.
pub const TEST_TITLE: &'static str = "TimeHub 示例提醒";

pub const TEST_BODY: &'static str = "系统通知通道工作正常";

/// Sends the test notification through `toast`, the system notification channel; the quiet
/// style sends nothing.
pub fn send_test_notification<T: Fn(String, String) -> Result<(), String>>(style: NotificationStyle, toast: &T) -> (r: Result<(), String>)
    requires
        forall|t: String, b: String| toast.requires((t, b)),
    ensures
        style == NotificationStyle::Quiet ==> r is Ok,
        style != NotificationStyle::Quiet ==> exists|t: String, b: String|
            t@ == TEST_TITLE@ && b@ == TEST_BODY@ && toast.ensures((t, b), r),
{
    if style == NotificationStyle::Quiet {
        return Ok(());
    }
    let t = TEST_TITLE.to_string();
    let b = TEST_BODY.to_string();
    let ghost tg = t;
    let ghost bg = b;
    let r = toast(t, b);
    assert(tg@ == TEST_TITLE@ && bg@ == TEST_BODY@ && toast.ensures((tg, bg), r));
    r
}


// ------------------------------------------------------------------
// Which reminders are due
// ------------------------------------------------------------------

/// A reminder to send: the occurrence it belongs to (its index in the list given), the
/// offset in minutes, and when the occurrence starts.
#[derive(Clone, Copy, Debug)]
pub struct DueReminder {
    pub occurrence: usize,
    pub offset_minutes: i64,
    pub starts_at: DateTime,
}

pub open spec fn due_view(r: DueReminder) -> (int, int, DateTime) {
    (r.occurrence as int, r.offset_minutes as int, r.starts_at)
}

pub open spec fn due_views(v: Seq<DueReminder>) -> Seq<(int, int, DateTime)> {
    v.map_values(|r: DueReminder| due_view(r))
}

/// The offsets, in order, whose reminders are due at `now` for an event starting at `start`.
pub open spec fn due_offsets(start: DateTime, offsets: Seq<i64>, now: DateTime) -> Seq<i64>
    decreases offsets.len(),
{
    if offsets.len() == 0 {
        seq![]
    } else {
        due_offsets(start, offsets.drop_last(), now) + if is_due_spec(start, offsets.last() as int, now) {
            seq![offsets.last()]
        } else {
            seq![]
        }
    }
}

/// The start of an occurrence, when its date reads.
pub open spec fn occurrence_start(o: crate::db::EventOccurrence) -> Option<DateTime> {
    match crate::date::chrono_parse_iso_date(o.occurrence_date@) {
        Some(d) => Some(event_start_spec(d, crate::db::time_view(o.event))),
        None => None,
    }
}

/// The stored offsets of an occurrence's event.
pub open spec fn occurrence_offsets(o: crate::db::EventOccurrence) -> Seq<i64> {
    offsets_of(split(o.event.reminder_offsets@, ','))
}

/// The reminders due at `now` for occurrence `k`: none when its date does not read.
pub open spec fn occurrence_due(o: crate::db::EventOccurrence, k: int, now: DateTime) -> Seq<(int, int, DateTime)> {
    match occurrence_start(o) {
        Some(start) => due_offsets(start, occurrence_offsets(o), now).map_values(
            |off: i64| (k, off as int, start),
        ),
        None => seq![],
    }
}

/// The reminders due at `now` for the first `n` occurrences, occurrence by occurrence.
pub open spec fn all_due(occs: Seq<crate::db::EventOccurrence>, n: int, now: DateTime) -> Seq<(int, int, DateTime)>
    decreases n,
{
    if n <= 0 {
        seq![]
    } else {
        all_due(occs, n - 1, now) + occurrence_due(occs[n - 1], n - 1, now)
    }
}

/// Every stored offset of every occurrence places its reminder within the supported
/// dates, and a day before `now` is a supported moment.
pub open spec fn reminders_fit(occs: Seq<crate::db::EventOccurrence>, now: DateTime) -> bool {
    &&& now.seconds() - 86400 >= crate::date::min_day_number() * 86400
    &&& forall|k: int, j: int|
        #![trigger occurrence_offsets(occs[k])[j]]
        0 <= k < occs.len() && 0 <= j < occurrence_offsets(occs[k]).len() ==> match occurrence_start(occs[k]) {
            Some(start) => offset_in_range(start, occurrence_offsets(occs[k])[j] as int),
            None => true,
        }
}

fn offset_fits(event: &DateTime, offset: i64) -> (b: bool)
    requires
        event.wf(),
    ensures
        b == offset_in_range(*event, offset as int),
{
    proof {
        crate::date::lemma_seconds_range(*event);
    }
    if offset < -153722867280912 || offset > 153722867280912 {
        return false;
    }
    let first = Date { year: crate::date::MIN_YEAR, month: 1, day: 1 };
    let last = Date { year: crate::date::MAX_YEAR, month: 12, day: 31 };
    proof {
        crate::date::lemma_dn_range(first);
        crate::date::lemma_dn_range(last);
    }
    let lo = first.day_number();
    let hi = last.day_number();
    let at = event.seconds_exec() - offset * 60;
    lo * 86400 <= at && at < (hi + 1) * 86400
}

/// Whether `reminders_fit` holds.
pub fn check_reminders_fit(occs: &Vec<crate::db::EventOccurrence>, now: &DateTime) -> (b: bool)
    requires
        now.wf(),
    ensures
        b == reminders_fit(occs@, *now),
{
    proof {
        crate::date::lemma_seconds_range(*now);
    }
    let first = Date { year: crate::date::MIN_YEAR, month: 1, day: 1 };
    proof {
        crate::date::lemma_dn_range(first);
    }
    if now.seconds_exec() - 86400 < first.day_number() * 86400 {
        return false;
    }
    let mut k: usize = 0;
    while k < occs.len()
        invariant
            k <= occs@.len(),
            now.wf(),
            now.seconds() - 86400 >= crate::date::min_day_number() * 86400,
            forall|q: int, j: int|
                #![trigger occurrence_offsets(occs@[q])[j]]
                0 <= q < k && 0 <= j < occurrence_offsets(occs@[q]).len() ==> match occurrence_start(occs@[q]) {
                    Some(start) => offset_in_range(start, occurrence_offsets(occs@[q])[j] as int),
                    None => true,
                },
        decreases occs@.len() - k,
    {
        let o = &occs[k];
        match crate::date::parse_iso_date(o.occurrence_date.as_str()) {
            Some(d) => {
                let time = match &o.event.time {
                    Some(t) => Some(t.as_str()),
                    None => None,
                };
                let start = event_start(d, time);
                let offsets = reminder_offsets(o.event.reminder_offsets.as_str());
                assert(occurrence_start(*o) == Some(start));
                let mut j: usize = 0;
                while j < offsets.len()
                    invariant
                        j <= offsets@.len(),
                        k < occs@.len(),
                        start.wf(),
                        now.wf(),
                        now.seconds() - 86400 >= crate::date::min_day_number() * 86400,
                        occurrence_start(occs@[k as int]) == Some(start),
                        offsets@ == occurrence_offsets(occs@[k as int]),
                        forall|i: int| 0 <= i < j ==> offset_in_range(start, offsets@[i] as int),
                        forall|q: int, i: int|
                            #![trigger occurrence_offsets(occs@[q])[i]]
                            0 <= q < k && 0 <= i < occurrence_offsets(occs@[q]).len() ==> match occurrence_start(occs@[q]) {
                                Some(st) => offset_in_range(st, occurrence_offsets(occs@[q])[i] as int),
                                None => true,
                            },
                    decreases offsets@.len() - j,
                {
                    if !offset_fits(&start, offsets[j]) {
                        assert(occurrence_offsets(occs@[k as int])[j as int] == offsets@[j as int]);
                        return false;
                    }
                    j = j + 1;
                }
                assert forall|q: int, i: int|
                    #![trigger occurrence_offsets(occs@[q])[i]]
                    0 <= q < k + 1 && 0 <= i < occurrence_offsets(occs@[q]).len() implies match occurrence_start(occs@[q]) {
                        Some(st) => offset_in_range(st, occurrence_offsets(occs@[q])[i] as int),
                        None => true,
                    } by {
                    if q == k {
                        assert(offsets@[i] == occurrence_offsets(occs@[q])[i]);
                    }
                }
            },
            None => {
                assert(occurrence_start(*o) is None);
            },
        }
        k = k + 1;
    }
    true
}

/// The reminders due at `now`: for each occurrence whose date reads, each stored offset
/// whose moment (the start minus the offset) has come within the last day, in order.
pub fn due_reminders(occs: &Vec<crate::db::EventOccurrence>, now: &DateTime) -> (r: Vec<DueReminder>)
    requires
        now.wf(),
        reminders_fit(occs@, *now),
    ensures
        due_views(r@) == all_due(occs@, occs@.len() as int, *now),
{
    let mut out: Vec<DueReminder> = Vec::new();
    let mut k: usize = 0;
    while k < occs.len()
        invariant
            k <= occs@.len(),
            now.wf(),
            reminders_fit(occs@, *now),
            due_views(out@) == all_due(occs@, k as int, *now),
        decreases occs@.len() - k,
    {
        let o = &occs[k];
        let ghost before = due_views(out@);
        match crate::date::parse_iso_date(o.occurrence_date.as_str()) {
            Some(d) => {
                let time = match &o.event.time {
                    Some(t) => Some(t.as_str()),
                    None => None,
                };
                let start = event_start(d, time);
                let offsets = reminder_offsets(o.event.reminder_offsets.as_str());
                assert(occurrence_start(*o) == Some(start));
                let mut j: usize = 0;
                while j < offsets.len()
                    invariant
                        j <= offsets@.len(),
                        k < occs@.len(),
                        now.wf(),
                        start.wf(),
                        reminders_fit(occs@, *now),
                        occurrence_start(occs@[k as int]) == Some(start),
                        offsets@ == occurrence_offsets(occs@[k as int]),
                        due_views(out@) == before + due_offsets(start, offsets@.take(j as int), *now).map_values(
                            |off: i64| (k as int, off as int, start),
                        ),
                    decreases offsets@.len() - j,
                {
                    let off = offsets[j];
                    assert(offset_in_range(start, occurrence_offsets(occs@[k as int])[j as int] as int));
                    let ghost prev = out@;
                    proof {
                        let t = offsets@.take(j + 1);
                        assert(t.drop_last() =~= offsets@.take(j as int));
                        assert(t.last() == off);
                    }
                    if is_due(&start, off, now) {
                        out.push(DueReminder { occurrence: k, offset_minutes: off, starts_at: start });
                    }
                    proof {
                        let m = |o2: i64| (k as int, o2 as int, start);
                        let d_old = due_offsets(start, offsets@.take(j as int), *now);
                        let d_new = due_offsets(start, offsets@.take(j + 1), *now);
                        let extra: Seq<i64> = if is_due_spec(start, off as int, *now) {
                            seq![off]
                        } else {
                            seq![]
                        };
                        assert(d_new == d_old + extra);
                        assert(d_new.map_values(m) =~= d_old.map_values(m) + extra.map_values(m));
                        assert(due_views(out@) =~= due_views(prev) + extra.map_values(m));
                        assert(due_views(out@) =~= before + d_new.map_values(m));
                    }
                    j = j + 1;
                }
                assert(offsets@.take(offsets@.len() as int) =~= offsets@);
            },
            None => {
                assert(due_views(out@) =~= before + Seq::<(int, int, DateTime)>::empty());
            },
        }
        assert(all_due(occs@, k + 1, *now) == all_due(occs@, k as int, *now) + occurrence_due(occs@[k as int], k as int, *now));
        k = k + 1;
    }
    out
}

} // verus!
