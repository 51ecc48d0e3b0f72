//! Adapters to outside calendars: ICS subscriptions and CalDAV accounts. Network and
//! storage stay with the caller; here are the rules for what is shown, stored and counted.

use crate::date::{compact_date_text, iso_date_text, Date};
use crate::ics::ImportedEvent;
use crate::natural::{words, words_chars};
use crate::db::copy_string;
use crate::xml_events::{quick_xml_events, quick_xml_unescape, raw_view, raw_views, read_xml_events, unescape_xml, RawXml, RawXmlView};
use crate::text::{
    append_all, append_str, chars_of, contains, contains_str, join, join_chars, string_from_chars,
    trim, trim_chars, views,
};
use vstd::prelude::*;

verus! {

/// What a whole refresh of the subscriptions did.
#[derive(Debug, Clone)]
pub struct SyncReport {
    pub subscriptions: usize,
    pub imported_events: usize,
    pub removed_cancelled_events: usize,
    pub errors: Vec<String>,
}

/// What refreshing one subscription did.
#[derive(Debug, Clone, Copy)]
pub struct SubscriptionSyncResult {
    pub imported_events: usize,
    pub removed_cancelled_events: usize,
}

/// A word of an error message that holds a server address.
pub open spec fn holds_address(w: Seq<char>) -> bool {
    contains(w, "https://"@) || contains(w, "http://"@)
}

pub open spec fn hide_addresses(ws: Seq<Seq<char>>) -> Seq<Seq<char>> {
    Seq::new(ws.len(), |i: int| if holds_address(ws[i]) {
        "[服务器地址已隐藏]"@
    } else {
        ws[i]
    })
}

/// An error message without server addresses: subscription addresses may carry tokens or
/// user names, so every whitespace-separated word holding `http://` or `https://` is
/// replaced, and the words are joined with single spaces.
pub open spec fn safe_error_text(message: Seq<char>) -> Seq<char> {
    join(hide_addresses(words(message)), " "@)
}

pub fn safe_error(message: &str) -> (r: String)
    ensures
        r@ == safe_error_text(message@),
{
    let m = chars_of(message);
    let ws = words_chars(&m);
    let mut out: Vec<Vec<char>> = Vec::new();
    let mut i: usize = 0;
    while i < ws.len()
        invariant
            i <= ws.len(),
            views(out@) == hide_addresses(views(ws@)).take(i as int),
        decreases ws.len() - i,
    {
        let w = if contains_str(&ws[i], "https://") || contains_str(&ws[i], "http://") {
            chars_of("[服务器地址已隐藏]")
        } else {
            crate::text::slice_chars(&ws[i], 0, ws[i].len())
        };
        assert(views(ws@)[i as int] == ws@[i as int]@);
        assert(ws@[i as int]@.subrange(0, ws@[i as int]@.len() as int) =~= ws@[i as int]@);
        let ghost before = views(out@);
        out.push(w);
        assert(views(out@) =~= before.push(w@));
        assert(hide_addresses(views(ws@)).take(i + 1) =~= hide_addresses(views(ws@)).take(
            i as int,
        ).push(w@));
        i = i + 1;
    }
    assert(hide_addresses(views(ws@)).take(ws.len() as int) =~= hide_addresses(views(ws@)));
    let sp = chars_of(" ");
    let joined = join_chars(&out, &sp);
    string_from_chars(&joined)
}

/// The identity given to an event whose source gave no `UID`: its title, date, time and
/// note.
pub open spec fn fallback_uid_text(event: crate::ics::EventModel) -> Seq<char> {
    "fallback:"@ + event.title + ":"@ + iso_date_text(event.date) + ":"@ + match event.time {
        Some(t) => t,
        None => seq![],
    } + ":"@ + event.note
}

pub fn fallback_uid(event: &ImportedEvent) -> (r: String)
    requires
        event.date.wf(),
    ensures
        r@ == fallback_uid_text(event@),
{
    let mut v = chars_of("fallback:");
    append_str(&mut v, event.title.as_str());
    append_str(&mut v, ":");
    let d = event.date.iso_chars();
    append_all(&mut v, &d);
    append_str(&mut v, ":");
    let ghost before = v@;
    match &event.time {
        Some(t) => append_str(&mut v, t.as_str()),
        None => {
            assert(v@ =~= before + Seq::<char>::empty());
        },
    }
    append_str(&mut v, ":");
    append_str(&mut v, event.note.as_str());
    string_from_chars(&v)
}

/// The identity under which an imported event is mirrored: its `UID`, or the fallback
/// identity when the `UID` is blank.
pub fn subscription_uid(event: &ImportedEvent) -> (r: String)
    requires
        event.date.wf(),
    ensures
        r@ == (if trim(event.uid@).len() == 0 {
            fallback_uid_text(event@)
        } else {
            event.uid@
        }),
{
    let u = chars_of(event.uid.as_str());
    let t = trim_chars(&u);
    if t.len() == 0 {
        fallback_uid(event)
    } else {
        event.uid.clone()
    }
}

/// The note stored with a mirrored meeting: its place, its join link (unless the note
/// already holds it) and the note itself, each trimmed, one per line, leaving out empty ones.
pub open spec fn meeting_note_text(location: Seq<char>, url: Seq<char>, note: Seq<char>) -> Seq<char> {
    let p1: Seq<Seq<char>> = if trim(location).len() > 0 {
        seq!["地点："@ + trim(location)]
    } else {
        seq![]
    };
    let p2: Seq<Seq<char>> = if trim(url).len() > 0 && !contains(note, trim(url)) {
        seq!["入会链接："@ + trim(url)]
    } else {
        seq![]
    };
    let p3: Seq<Seq<char>> = if trim(note).len() > 0 {
        seq![trim(note)]
    } else {
        seq![]
    };
    join(p1 + p2 + p3, "\n"@)
}

pub fn meeting_note(event: &ImportedEvent) -> (r: String)
    ensures
        r@ == meeting_note_text(event.location@, event.url@, event.note@),
{
    let loc = chars_of(event.location.as_str());
    let url = chars_of(event.url.as_str());
    let note = chars_of(event.note.as_str());
    let tl = trim_chars(&loc);
    let tu = trim_chars(&url);
    let tn = trim_chars(&note);
    let mut parts: Vec<Vec<char>> = Vec::new();
    let ghost e = Seq::<Seq<char>>::empty();
    assert(views(parts@) =~= e);
    if tl.len() > 0 {
        let mut p = chars_of("地点：");
        append_all(&mut p, &tl);
        parts.push(p);
    }
    let ghost v1 = views(parts@);
    if tu.len() > 0 && !crate::text::find_chars(&note, &tu).is_some() {
        let mut p = chars_of("入会链接：");
        append_all(&mut p, &tu);
        parts.push(p);
    }
    let ghost v2 = views(parts@);
    if tn.len() > 0 {
        parts.push(tn);
    }
    proof {
        let p1: Seq<Seq<char>> = if trim(event.location@).len() > 0 {
            seq!["地点："@ + trim(event.location@)]
        } else {
            seq![]
        };
        let p2: Seq<Seq<char>> = if trim(event.url@).len() > 0 && !contains(event.note@, trim(event.url@)) {
            seq!["入会链接："@ + trim(event.url@)]
        } else {
            seq![]
        };
        let p3: Seq<Seq<char>> = if trim(event.note@).len() > 0 {
            seq![trim(event.note@)]
        } else {
            seq![]
        };
        assert(v1 =~= p1);
        assert(v2 =~= p1 + p2);
        assert(views(parts@) =~= p1 + p2 + p3);
    }
    let nl = chars_of("\n");
    let joined = join_chars(&parts, &nl);
    string_from_chars(&joined)
}

impl SyncReport {
    /// A report of a refresh that has not looked at any subscription yet.
    pub fn new() -> (r: SyncReport)
        ensures
            r.subscriptions == 0,
            r.imported_events == 0,
            r.removed_cancelled_events == 0,
            r.errors@.len() == 0,
    {
        SyncReport { subscriptions: 0, imported_events: 0, removed_cancelled_events: 0, errors: Vec::new() }
    }
}

/// The subscriptions that a refresh of all of them reads: the enabled ones, in order.
pub fn enabled_subscriptions(subscriptions: Vec<crate::db::Subscription>) -> (r: Vec<crate::db::Subscription>)
    ensures
        r@ == subscriptions@.filter(|s: crate::db::Subscription| s.enabled),
{
    let ghost all = subscriptions@;
    let mut out: Vec<crate::db::Subscription> = Vec::new();
    assert(all.take(0) =~= Seq::<crate::db::Subscription>::empty());
    reveal(Seq::filter);
    for s in it: subscriptions
        invariant
            it.seq() == all,
            out@ == all.take(it.index() as int).filter(|s: crate::db::Subscription| s.enabled),
    {
        let ghost i = it.index() as int;
        proof {
            reveal(Seq::filter);
            let t = all.take(i + 1);
            assert(t.drop_last() =~= all.take(i));
            assert(t.last() == all[i]);
            assert(s == all[i]);
        }
        if s.enabled {
            out.push(s);
        }
        assert(out@ == all.take(i + 1).filter(|s: crate::db::Subscription| s.enabled));
    }
    assert(all.take(all.len() as int) =~= all);
    out
}

/// Counts one enabled subscription into a refresh report: its imported and removed events
/// when it synced, otherwise its error under its name.
pub fn record_sync(report: &mut SyncReport, name: &str, result: Result<SubscriptionSyncResult, String>)
    requires
        old(report).subscriptions < usize::MAX,
        result matches Ok(x) ==> old(report).imported_events + x.imported_events <= usize::MAX
            && old(report).removed_cancelled_events + x.removed_cancelled_events <= usize::MAX,
    ensures
        final(report).subscriptions == old(report).subscriptions + 1,
        match result {
            Ok(x) => {
                &&& final(report).imported_events == old(report).imported_events + x.imported_events
                &&& final(report).removed_cancelled_events == old(report).removed_cancelled_events
                    + x.removed_cancelled_events
                &&& final(report).errors@ == old(report).errors@
            },
            Err(e) => {
                &&& final(report).imported_events == old(report).imported_events
                &&& final(report).removed_cancelled_events == old(report).removed_cancelled_events
                &&& final(report).errors@.len() == old(report).errors@.len() + 1
                &&& final(report).errors@.drop_last() == old(report).errors@
                &&& final(report).errors@.last()@ == name@ + "："@ + e@
            },
        },
{
    report.subscriptions = report.subscriptions + 1;
    match result {
        Ok(x) => {
            report.imported_events = report.imported_events + x.imported_events;
            report.removed_cancelled_events = report.removed_cancelled_events + x.removed_cancelled_events;
        },
        Err(e) => {
            let msg = crate::error_reporter::record(name, e.as_str());
            let ghost before = report.errors@;
            report.errors.push(msg);
            assert(report.errors@.drop_last() =~= before);
        },
    }
}

/// How many of the events are not cancelled.
pub open spec fn active_count(evs: Seq<crate::ics::EventModel>) -> nat
    decreases evs.len(),
{
    if evs.len() == 0 {
        0
    } else {
        active_count(evs.drop_last()) + if evs.last().cancelled {
            0nat
        } else {
            1nat
        }
    }
}

/// How many of the events are cancelled.
pub open spec fn cancelled_count(evs: Seq<crate::ics::EventModel>) -> nat
    decreases evs.len(),
{
    if evs.len() == 0 {
        0
    } else {
        cancelled_count(evs.drop_last()) + if evs.last().cancelled {
            1nat
        } else {
            0nat
        }
    }
}

/// Brings the mirror of one subscription up to date with the calendar text its source
/// returned: every event that is not cancelled is mirrored (`upsert_subscribed_event`, under
/// `subscription_uid`, with `meeting_note` and the end of its series), and the mirror of
/// every cancelled one is deleted. Counts the mirrored events and the deleted mirrors. A text
/// whose `DURATION` values would overflow is refused before anything is written.
pub fn apply_subscription_content(
    conn: &rusqlite::Connection,
    subscription: &crate::db::Subscription,
    content: &str,
) -> (r: Result<SubscriptionSyncResult, String>)
    ensures
        !crate::ics::durations_fit(crate::ics::ics_lines(content@)) ==> (r matches Err(e) && e@
            == "解析 ICS 订阅失败"@),
        r matches Ok(res) ==> exists|convs: Seq<crate::date::DateTime>|
            res.imported_events == active_count(#[trigger] crate::ics::ics_events(content@, convs))
                && res.removed_cancelled_events <= cancelled_count(crate::ics::ics_events(content@, convs)),
{
    if !crate::ics::durations_readable(content) {
        return Err("解析 ICS 订阅失败".to_string());
    }
    let events = match crate::ics::parse_ics(content) {
        Ok(evs) => evs,
        Err(e) => return Err(e),
    };
    let ghost convs = choose|convs: Seq<crate::date::DateTime>|
        convs.len() == crate::ics::ics_lines(content@).len() && (forall|i: int|
            0 <= i < convs.len() ==> (#[trigger] convs[i]).wf()) && crate::ics::event_views(events@)
            == crate::ics::ics_events(content@, convs);
    let ghost models = crate::ics::event_views(events@);
    let mut imported: usize = 0;
    let mut removed: usize = 0;
    let mut i: usize = 0;
    while i < events.len()
        invariant
            i <= events.len(),
            models == crate::ics::event_views(events@),
            models.len() == events.len(),
            crate::ics::durations_fit(crate::ics::ics_lines(content@)),
            forall|k: int| 0 <= k < events@.len() ==> (#[trigger] events@[k]).date.wf(),
            imported == active_count(models.take(i as int)),
            removed <= cancelled_count(models.take(i as int)),
            imported + removed <= i,
        decreases events.len() - i,
    {
        let ev = &events[i];
        assert(models.take(i + 1).drop_last() =~= models.take(i as int));
        assert(models.take(i + 1).last() == ev@);
        let uid = subscription_uid(ev);
        if ev.cancelled {
            if crate::event_store::delete_subscribed_event(conn, subscription.id, uid.as_str())? {
                removed = removed + 1;
            }
        } else {
            let repeat_rule = ev.repeat_rule.to_rule_string();
            let note = meeting_note(ev);
            let time: Option<&str> = match &ev.time {
                Some(t) => Some(t.as_str()),
                None => None,
            };
            let event_id = crate::event_store::upsert_subscribed_event(
                conn,
                crate::event_store::SubscribedEvent {
                    subscription_id: subscription.id,
                    calendar_id: subscription.calendar_id,
                    external_uid: uid.as_str(),
                    title: ev.title.as_str(),
                    date: ev.date,
                    time,
                    duration_minutes: ev.duration_minutes,
                    note: note.as_str(),
                    repeat_rule: repeat_rule.as_str(),
                },
            )?;
            crate::event_store::set_subscribed_event_repeat_until(conn, event_id, ev.repeat_until)?;
            imported = imported + 1;
        }
        i = i + 1;
    }
    assert(models.take(events.len() as int) =~= models);
    Ok(SubscriptionSyncResult { imported_events: imported, removed_cancelled_events: removed })
}

/// Runs an update of one subscription that takes an optional time, an optional error and
/// the subscription's id (`Connection::execute`). Nothing is claimed of the result.
#[verifier::external_body]
fn write_subscription_result(
    conn: &rusqlite::Connection,
    sql: &str,
    last_sync: Option<&str>,
    last_error: Option<&str>,
    id: i64,
) -> (r: Result<usize, String>) {
    conn.execute(sql, (last_sync, last_error, id)).map_err(|e| e.to_string())
}

/// Records on a subscription the error of its last refresh, and the time of the refresh
/// when one is given; without a time the last one is kept.
pub fn set_subscription_result(conn: &rusqlite::Connection, id: i64, last_sync: Option<&str>, last_error: Option<&str>) -> (r: Result<(), String>)
{
    let sql = match last_sync {
        Some(_) => "UPDATE subscriptions SET last_sync = ?1, last_error = ?2 WHERE id = ?3",
        None => "UPDATE subscriptions SET last_error = ?2 WHERE id = ?3",
    };
    write_subscription_result(conn, sql, last_sync, last_error, id)?;
    Ok(())
}

/// Refreshes one subscription with what its source returned (`fetched`: the calendar text,
/// or the error of fetching it). A disabled subscription is refused. On success the time
/// is recorded and the counts returned; on failure the error, with server addresses hidden
/// (`safe_error`), is recorded and returned.
pub fn sync_ics_subscription_with_result(
    conn: &rusqlite::Connection,
    subscription: &crate::db::Subscription,
    fetched: Result<String, String>,
) -> (r: Result<SubscriptionSyncResult, String>)
    ensures
        !subscription.enabled ==> (r matches Err(e) && e@ == "订阅已停用："@ + subscription.name@),
        subscription.enabled ==> (fetched matches Err(m) ==> (r matches Err(e) && e@ == safe_error_text(m@))),
        subscription.enabled ==> (fetched matches Ok(c) ==> (!crate::ics::durations_fit(crate::ics::ics_lines(c@))
            ==> (r matches Err(e) && e@ == safe_error_text("解析 ICS 订阅失败"@)))),
        subscription.enabled ==> (fetched matches Ok(c) ==> (r matches Ok(res) ==> exists|convs: Seq<crate::date::DateTime>|
            res.imported_events == active_count(#[trigger] crate::ics::ics_events(c@, convs))
                && res.removed_cancelled_events <= cancelled_count(crate::ics::ics_events(c@, convs)))),
{
    if !subscription.enabled {
        let mut v = chars_of("订阅已停用：");
        append_str(&mut v, subscription.name.as_str());
        return Err(string_from_chars(&v));
    }
    let outcome = match fetched {
        Ok(content) => apply_subscription_content(conn, subscription, content.as_str()),
        Err(e) => Err(e),
    };
    match outcome {
        Ok(result) => {
            let timestamp = crate::db::local_timestamp();
            set_subscription_result(conn, subscription.id, Some(timestamp.as_str()), None)?;
            Ok(result)
        },
        Err(error) => {
            let message = safe_error(error.as_str());
            let _ = set_subscription_result(conn, subscription.id, None, Some(message.as_str()));
            Err(message)
        },
    }
}

/// Refreshes one subscription and returns how many events it mirrored.
pub fn sync_ics_subscription(
    conn: &rusqlite::Connection,
    subscription: &crate::db::Subscription,
    fetched: Result<String, String>,
) -> (r: Result<usize, String>)
    ensures
        !subscription.enabled ==> (r matches Err(e) && e@ == "订阅已停用："@ + subscription.name@),
        subscription.enabled ==> (fetched matches Err(m) ==> (r matches Err(e) && e@ == safe_error_text(m@))),
        subscription.enabled ==> (fetched matches Ok(c) ==> (r matches Ok(n) ==> exists|convs: Seq<crate::date::DateTime>|
            n == active_count(#[trigger] crate::ics::ics_events(c@, convs)))),
{
    let result = sync_ics_subscription_with_result(conn, subscription, fetched)?;
    Ok(result.imported_events)
}

/// The CalDAV report query for events from two years (of 366 days) before `today` to
/// three years after. Some servers return nothing for a query without a time range.
pub open spec fn caldav_query_text(start: Date, end: Date) -> Seq<char> {
    "<?xml version=\"1.0\" encoding=\"utf-8\" ?>\n<cal:calendar-query xmlns:d=\"DAV:\" xmlns:cal=\"urn:ietf:params:xml:ns:caldav\">\n  <d:prop><d:getetag/><cal:calendar-data/></d:prop>\n  <cal:filter><cal:comp-filter name=\"VCALENDAR\"><cal:comp-filter name=\"VEVENT\"><cal:time-range start=\""@
        + compact_date_text(start) + "T000000Z\" end=\""@ + compact_date_text(end)
        + "T000000Z\"/></cal:comp-filter></cal:comp-filter></cal:filter>\n</cal:calendar-query>"@
}

pub fn caldav_query(today: &Date) -> (r: String)
    requires
        today.wf(),
        crate::date::min_day_number() <= today.dn() - 732,
        today.dn() + 1098 <= crate::date::max_day_number(),
    ensures
        exists|s: Date, e: Date|
            s.wf() && e.wf() && s.dn() == today.dn() - 732 && e.dn() == today.dn() + 1098
                && r@ == caldav_query_text(s, e),
{
    let start = match today.add_days(-732) {
        Some(d) => d,
        None => *today,
    };
    let end = match today.add_days(1098) {
        Some(d) => d,
        None => *today,
    };
    let mut v = chars_of("<?xml version=\"1.0\" encoding=\"utf-8\" ?>\n<cal:calendar-query xmlns:d=\"DAV:\" xmlns:cal=\"urn:ietf:params:xml:ns:caldav\">\n  <d:prop><d:getetag/><cal:calendar-data/></d:prop>\n  <cal:filter><cal:comp-filter name=\"VCALENDAR\"><cal:comp-filter name=\"VEVENT\"><cal:time-range start=\"");
    let sc = start.compact_chars();
    append_all(&mut v, &sc);
    append_str(&mut v, "T000000Z\" end=\"");
    let ec = end.compact_chars();
    append_all(&mut v, &ec);
    append_str(&mut v, "T000000Z\"/></cal:comp-filter></cal:comp-filter></cal:filter>\n</cal:calendar-query>");
    let r = string_from_chars(&v);
    assert(r@ == caldav_query_text(start, end));
    r
}

// ------------------------------------------------------------------
// CalDAV addresses
// ------------------------------------------------------------------

pub open spec fn opt_result_view(r: Result<Option<String>, String>) -> Result<Option<Seq<char>>, Seq<char>> {
    match r {
        Ok(Some(s)) => Ok(Some(s@)),
        Ok(None) => Ok(None),
        Err(e) => Err(e@),
    }
}

/// The path segments under `/dav` of a DingTalk user's collection: `users`, the user and an
/// empty segment, so that the address ends in a slash.
pub open spec fn user_collection_segments(user: Seq<char>) -> Seq<Seq<char>> {
    seq!["users"@, user, ""@]
}

/// DingTalk lists every calendar of a user under `/dav/users/<user>/`; other servers are
/// discovered from the address given.
pub open spec fn dingtalk_discovery_spec(server: Seq<char>, username: Seq<char>) -> Result<Option<Seq<char>>, Seq<char>> {
    match crate::urls::url_parse_result(server) {
        None => Err("CalDAV 服务器地址无效"@),
        Some(p) => if p.host != Some("calendar.dingtalk.com"@) {
            Ok(None)
        } else if trim(username).len() == 0 {
            Err("钉钉 CalDAV 用户名不能为空"@)
        } else {
            match crate::urls::url_with_segments_result(server, "/dav"@, user_collection_segments(trim(username))) {
                Some(u) => Ok(Some(u)),
                None => Err("钉钉 CalDAV 服务器地址无效"@),
            }
        },
    }
}

pub fn dingtalk_user_discovery_url(server_url: &str, username: &str) -> (r: Result<Option<String>, String>)
    ensures
        opt_result_view(r) == dingtalk_discovery_spec(server_url@, username@),
{
    let parts = match crate::urls::parse_url(server_url) {
        Some(p) => p,
        None => return Err("CalDAV 服务器地址无效".to_string()),
    };
    let is_dingtalk = match &parts.host {
        Some(h) => crate::text::eq_str(&chars_of(h.as_str()), "calendar.dingtalk.com"),
        None => false,
    };
    if !is_dingtalk {
        return Ok(None);
    }
    let u = crate::text::trim_str(username);
    if u.len() == 0 {
        return Err("钉钉 CalDAV 用户名不能为空".to_string());
    }
    let user = string_from_chars(&u);
    let segments: [&str; 3] = ["users", user.as_str(), ""];
    let r = crate::urls::url_with_segments(server_url, "/dav", &segments);
    proof {
        reveal_strlit("users");
        reveal_strlit("");
        assert(crate::urls::segment_views(segments@) =~= user_collection_segments(trim(username@)));
    }
    match r {
        Some(s) => Ok(Some(s)),
        None => Err("钉钉 CalDAV 服务器地址无效".to_string()),
    }
}

pub open spec fn resolve_spec(base: Seq<char>, href: Seq<char>) -> Result<Seq<char>, Seq<char>> {
    match crate::urls::url_join_result(base, href) {
        None => Err("CalDAV 服务器地址无效"@),
        Some(None) => Err("CalDAV 返回了无效的日历地址"@),
        Some(Some(s)) => Ok(s),
    }
}

/// Resolves an address that a CalDAV server returned against the address asked.
pub fn resolve_dav_href(base: &str, href: &str) -> (r: Result<String, String>)
    ensures
        crate::db::result_string_view(r) == resolve_spec(base@, href@),
{
    match crate::urls::join_url(base, href) {
        None => Err("CalDAV 服务器地址无效".to_string()),
        Some(None) => Err("CalDAV 返回了无效的日历地址".to_string()),
        Some(Some(s)) => Ok(s),
    }
}


// ------------------------------------------------------------------
// CalDAV responses
// ------------------------------------------------------------------

/// An XML event with what the CalDAV rules read of it: tag names, text with escapes
/// replaced (or why that failed), CDATA content.
#[derive(Debug)]
pub enum XmlPiece {
    Start(String),
    End(String),
    Empty(String),
    Text(Result<String, String>),
    CData(String),
    Reference(Result<String, String>),
    Eof,
    Other,
}

/// What an event read by `quick_xml` is to the CalDAV rules: text and references with
/// their escapes replaced (`quick_xml_unescape`; a reference `r` is read as `&r;`).
pub open spec fn piece_of_raw(e: RawXmlView) -> PieceView {
    match e {
        RawXmlView::Open(n) => PieceView::Start(n),
        RawXmlView::Close(n) => PieceView::End(n),
        RawXmlView::Lone(n) => PieceView::Empty(n),
        RawXmlView::Chars(t) => PieceView::Text(quick_xml_unescape(t)),
        RawXmlView::Cdata(t) => PieceView::CData(t),
        RawXmlView::Ref(n) => PieceView::Reference(quick_xml_unescape(seq!['&'] + n + seq![';'])),
        RawXmlView::Stop => PieceView::Eof,
        RawXmlView::Other => PieceView::Other,
    }
}

/// The events of an XML text as the CalDAV rules see them, or the reader's error.
pub open spec fn quick_xml_pieces(xml: Seq<char>, trim_text: bool) -> Result<Seq<PieceView>, Seq<char>> {
    match quick_xml_events(xml, trim_text) {
        Err(e) => Err(e),
        Ok(rs) => Ok(rs.map_values(|e: RawXmlView| piece_of_raw(e))),
    }
}

fn piece_of(e: &RawXml) -> (p: XmlPiece)
    ensures
        piece_view(p) == piece_of_raw(raw_view(*e)),
{
    match e {
        RawXml::Open(n) => XmlPiece::Start(copy_string(n)),
        RawXml::Close(n) => XmlPiece::End(copy_string(n)),
        RawXml::Lone(n) => XmlPiece::Empty(copy_string(n)),
        RawXml::Chars(t) => XmlPiece::Text(unescape_xml(t.as_str())),
        RawXml::Cdata(t) => XmlPiece::CData(copy_string(t)),
        RawXml::Ref(n) => {
            let mut v: Vec<char> = Vec::new();
            v.push('&');
            append_str(&mut v, n.as_str());
            v.push(';');
            let text = string_from_chars(&v);
            assert(text@ == seq!['&'] + n@ + seq![';']);
            XmlPiece::Reference(unescape_xml(text.as_str()))
        },
        RawXml::Stop => XmlPiece::Eof,
        RawXml::Other => XmlPiece::Other,
    }
}

pub open spec fn pieces_result_view(r: Result<Vec<XmlPiece>, String>) -> Result<Seq<PieceView>, Seq<char>> {
    match r {
        Ok(v) => Ok(piece_views(v@)),
        Err(e) => Err(e@),
    }
}

/// The events of an XML text as `quick_xml` reads them, with text and references
/// unescaped (`quick_xml_pieces`), or the reader's error.
pub fn read_pieces(xml: &str, trim_text: bool) -> (r: Result<Vec<XmlPiece>, String>)
    ensures
        pieces_result_view(r) == quick_xml_pieces(xml@, trim_text),
{
    let raw = read_xml_events(xml, trim_text)?;
    let mut out: Vec<XmlPiece> = Vec::new();
    let mut i: usize = 0;
    while i < raw.len()
        invariant
            i <= raw@.len(),
            out@.len() == i,
            forall|k: int| 0 <= k < i ==> piece_view(#[trigger] out@[k]) == piece_of_raw(raw_view(raw@[k])),
        decreases raw@.len() - i,
    {
        out.push(piece_of(&raw[i]));
        i = i + 1;
    }
    assert(piece_views(out@) =~= raw_views(raw@).map_values(|e: RawXmlView| piece_of_raw(e)));
    Ok(out)
}

/// An XML event as the CalDAV rules see it.
pub enum PieceView {
    Start(Seq<char>),
    End(Seq<char>),
    Empty(Seq<char>),
    Text(Result<Seq<char>, Seq<char>>),
    CData(Seq<char>),
    Reference(Result<Seq<char>, Seq<char>>),
    Eof,
    Other,
}

pub open spec fn text_result_view(r: Result<String, String>) -> Result<Seq<char>, Seq<char>> {
    match r {
        Ok(t) => Ok(t@),
        Err(e) => Err(e@),
    }
}

pub open spec fn piece_view(p: XmlPiece) -> PieceView {
    match p {
        XmlPiece::Start(n) => PieceView::Start(n@),
        XmlPiece::End(n) => PieceView::End(n@),
        XmlPiece::Empty(n) => PieceView::Empty(n@),
        XmlPiece::Text(t) => PieceView::Text(text_result_view(t)),
        XmlPiece::CData(t) => PieceView::CData(t@),
        XmlPiece::Reference(t) => PieceView::Reference(text_result_view(t)),
        XmlPiece::Eof => PieceView::Eof,
        XmlPiece::Other => PieceView::Other,
    }
}

pub open spec fn piece_views(v: Seq<XmlPiece>) -> Seq<PieceView> {
    v.map_values(|p: XmlPiece| piece_view(p))
}

// ---------------------------- calendar data ----------------------------

/// Reading the calendars of a CalDAV `REPORT` answer: whether inside `calendar-data`, the
/// text gathered there, the calendars found, and whether the document ended.
pub struct CalendarScan {
    pub inside: bool,
    pub current: Seq<char>,
    pub found: Seq<Seq<char>>,
    pub done: bool,
}

/// One event: a `calendar-data` start clears the text; its end keeps the text unless it is
/// blank; text, CDATA and references inside are added (a text or reference that does not
/// read stops the reading).
pub open spec fn calendar_step(st: CalendarScan, p: PieceView) -> Result<CalendarScan, Seq<char>> {
    match p {
        PieceView::Start(n) => if n == "calendar-data"@ {
            Ok(CalendarScan { inside: true, current: seq![], ..st })
        } else {
            Ok(st)
        },
        PieceView::End(n) => if n == "calendar-data"@ {
            Ok(CalendarScan {
                inside: false,
                found: if trim(st.current).len() == 0 {
                    st.found
                } else {
                    st.found.push(st.current)
                },
                ..st
            })
        } else {
            Ok(st)
        },
        PieceView::Text(t) => if st.inside {
            match t {
                Ok(x) => Ok(CalendarScan { current: st.current + x, ..st }),
                Err(e) => Err(e),
            }
        } else {
            Ok(st)
        },
        PieceView::CData(x) => if st.inside {
            Ok(CalendarScan { current: st.current + x, ..st })
        } else {
            Ok(st)
        },
        PieceView::Reference(t) => if st.inside {
            match t {
                Ok(x) => Ok(CalendarScan { current: st.current + x, ..st }),
                Err(e) => Err(e),
            }
        } else {
            Ok(st)
        },
        PieceView::Eof => Ok(CalendarScan { done: true, ..st }),
        _ => Ok(st),
    }
}

pub open spec fn calendar_scan(ps: Seq<PieceView>) -> Result<CalendarScan, Seq<char>>
    decreases ps.len(),
{
    if ps.len() == 0 {
        Ok(CalendarScan { inside: false, current: seq![], found: seq![], done: false })
    } else {
        match calendar_scan(ps.drop_last()) {
            Err(e) => Err(e),
            Ok(st) => if st.done {
                Ok(st)
            } else {
                calendar_step(st, ps.last())
            },
        }
    }
}

/// The calendars held by the `calendar-data` elements of a sequence of XML events.
pub fn calendar_data_from(pieces: &Vec<XmlPiece>) -> (r: Result<Vec<String>, String>)
    ensures
        match (r, calendar_scan(piece_views(pieces@))) {
            (Ok(v), Ok(st)) => views_of_strings(v@) == st.found,
            (Err(a), Err(b)) => a@ == b,
            _ => false,
        },
{
    let ghost ps = piece_views(pieces@);
    let mut inside = false;
    let mut current: Vec<char> = Vec::new();
    let mut found: Vec<String> = Vec::new();
    let mut done = false;
    let mut i: usize = 0;
    assert(ps.take(0) =~= Seq::<PieceView>::empty());
    assert(views_of_strings(found@) =~= Seq::<Seq<char>>::empty());
    while i < pieces.len()
        invariant
            i <= pieces@.len(),
            ps == piece_views(pieces@),
            calendar_scan(ps.take(i as int)) == Ok::<CalendarScan, Seq<char>>(
                CalendarScan { inside, current: current@, found: views_of_strings(found@), done },
            ),
        decreases pieces@.len() - i,
    {
        proof {
            let t = ps.take(i + 1);
            assert(t.drop_last() =~= ps.take(i as int));
            assert(t.last() == piece_view(pieces@[i as int]));
        }
        if !done {
            match &pieces[i] {
                XmlPiece::Start(n) => {
                    if crate::text::eq_str(&chars_of(n.as_str()), "calendar-data") {
                        inside = true;
                        current = Vec::new();
                    }
                },
                XmlPiece::End(n) => {
                    if crate::text::eq_str(&chars_of(n.as_str()), "calendar-data") {
                        inside = false;
                        let t = trim_chars(&current);
                        if t.len() > 0 {
                            let ghost before = found@;
                            found.push(string_from_chars(&current));
                            assert(views_of_strings(found@) =~= views_of_strings(before).push(current@));
                        }
                    }
                },
                XmlPiece::Text(t) => {
                    if inside {
                        match t {
                            Ok(x) => {
                                crate::text::append_str(&mut current, x.as_str());
                            },
                            Err(e) => {
                                proof {
                                    lemma_calendar_error_stays(ps, i + 1);
                                }
                                return Err(string_from_chars(&chars_of(e.as_str())));
                            },
                        }
                    }
                },
                XmlPiece::CData(x) => {
                    if inside {
                        crate::text::append_str(&mut current, x.as_str());
                    }
                },
                XmlPiece::Reference(t) => {
                    if inside {
                        match t {
                            Ok(x) => {
                                crate::text::append_str(&mut current, x.as_str());
                            },
                            Err(e) => {
                                proof {
                                    lemma_calendar_error_stays(ps, i + 1);
                                }
                                return Err(string_from_chars(&chars_of(e.as_str())));
                            },
                        }
                    }
                },
                XmlPiece::Eof => {
                    done = true;
                },
                _ => {},
            }
        }
        i = i + 1;
    }
    assert(ps.take(pieces@.len() as int) =~= ps);
    Ok(found)
}

/// Once the reading of a prefix failed, the reading of the whole fails the same way.
proof fn lemma_calendar_error_stays(ps: Seq<PieceView>, k: int)
    requires
        0 <= k <= ps.len(),
        calendar_scan(ps.take(k)) is Err,
    ensures
        calendar_scan(ps) == calendar_scan(ps.take(k)),
    decreases ps.len() - k,
{
    if k < ps.len() {
        let t = ps.take(k + 1);
        assert(t.drop_last() =~= ps.take(k));
        lemma_calendar_error_stays(ps, k + 1);
    } else {
        assert(ps.take(k) =~= ps);
    }
}

pub open spec fn views_of_strings(v: Seq<String>) -> Seq<Seq<char>> {
    v.map_values(|s: String| s@)
}

/// The calendars of a CalDAV `REPORT` answer: the text of each `calendar-data` element
/// (text with escapes replaced, CDATA as written) that is not blank, in order.
pub fn extract_calendar_data(xml: &str) -> (r: Result<Vec<String>, String>)
    ensures
        match r {
            Ok(v) => calendar_data_spec(xml@) == Ok::<Seq<Seq<char>>, Seq<char>>(views_of_strings(v@)),
            Err(e) => calendar_data_spec(xml@) == Err::<Seq<Seq<char>>, Seq<char>>(e@),
        },
{
    let pieces = read_pieces(xml, false)?;
    calendar_data_from(&pieces)
}

/// The calendars that `extract_calendar_data` finds in a `REPORT` answer: what reading its
/// events without trimming (`quick_xml_pieces`) and then `calendar_scan` give, or the first
/// error of either.
pub open spec fn calendar_data_spec(xml: Seq<char>) -> Result<Seq<Seq<char>>, Seq<char>> {
    match quick_xml_pieces(xml, false) {
        Err(e) => Err(e),
        Ok(ps) => match calendar_scan(ps) {
            Err(e) => Err(e),
            Ok(st) => Ok(st.found),
        },
    }
}

// ---------------------------- account discovery ----------------------------

/// Which address an `href` being read belongs to.
#[derive(Clone, Copy, Debug, PartialEq, Eq, Structural)]
pub enum HrefTarget {
    Principal,
    Home,
    Response,
}

/// What a CalDAV `PROPFIND` answer names: the user's principal, the calendar home, and the
/// calendars among the responses.
#[derive(Debug)]
pub struct DavDiscovery {
    pub principal: Option<String>,
    pub calendar_home: Option<String>,
    pub calendars: Vec<String>,
}

/// Reading a `PROPFIND` answer.
pub struct DavScan {
    pub principal: Option<Seq<char>>,
    pub home: Option<Seq<char>>,
    pub calendars: Seq<Seq<char>>,
    pub in_response: bool,
    pub response_href: Option<Seq<char>>,
    pub is_calendar: bool,
    pub special: Option<HrefTarget>,
    pub target: Option<HrefTarget>,
    pub href: Seq<char>,
    pub done: bool,
}

/// One event. A `response` opens a response; inside a `current-user-principal` or
/// `calendar-home-set` an `href` names that address, otherwise the first `href` of a
/// response names it; a `calendar` (start or empty tag) inside a response marks it as a
/// calendar, whose address is kept when the response closes. Text and references add to
/// the `href` being read (one that does not read stops the reading).
pub open spec fn dav_step(st: DavScan, p: PieceView) -> Result<DavScan, Seq<char>> {
    match p {
        PieceView::Start(n) => Ok(
            if n == "response"@ {
                DavScan { in_response: true, response_href: None, is_calendar: false, ..st }
            } else if n == "current-user-principal"@ {
                DavScan { special: Some(HrefTarget::Principal), ..st }
            } else if n == "calendar-home-set"@ {
                DavScan { special: Some(HrefTarget::Home), ..st }
            } else if n == "calendar"@ && st.in_response {
                DavScan { is_calendar: true, ..st }
            } else if n == "href"@ {
                DavScan {
                    target: match st.special {
                        Some(x) => Some(x),
                        None => if st.in_response && st.response_href is None {
                            Some(HrefTarget::Response)
                        } else {
                            None
                        },
                    },
                    href: seq![],
                    ..st
                }
            } else {
                st
            },
        ),
        PieceView::End(n) => Ok(
            if n == "href"@ {
                let s2 = match st.target {
                    Some(HrefTarget::Principal) => DavScan { principal: Some(st.href), ..st },
                    Some(HrefTarget::Home) => DavScan { home: Some(st.href), ..st },
                    Some(HrefTarget::Response) => DavScan { response_href: Some(st.href), ..st },
                    None => st,
                };
                DavScan { target: None, href: seq![], ..s2 }
            } else if n == "current-user-principal"@ || n == "calendar-home-set"@ {
                DavScan { special: None, ..st }
            } else if n == "response"@ {
                let s2 = if st.is_calendar {
                    match st.response_href {
                        Some(h) => DavScan { calendars: st.calendars.push(h), response_href: None, ..st },
                        None => st,
                    }
                } else {
                    st
                };
                DavScan { in_response: false, ..s2 }
            } else {
                st
            },
        ),
        PieceView::Empty(n) => Ok(
            if st.in_response && n == "calendar"@ {
                DavScan { is_calendar: true, ..st }
            } else {
                st
            },
        ),
        PieceView::Text(t) => if st.target is Some {
            match t {
                Ok(x) => Ok(DavScan { href: st.href + x, ..st }),
                Err(e) => Err(e),
            }
        } else {
            Ok(st)
        },
        PieceView::Reference(t) => if st.target is Some {
            match t {
                Ok(x) => Ok(DavScan { href: st.href + x, ..st }),
                Err(e) => Err(e),
            }
        } else {
            Ok(st)
        },
        PieceView::Eof => Ok(DavScan { done: true, ..st }),
        _ => Ok(st),
    }
}

pub open spec fn dav_scan(ps: Seq<PieceView>) -> Result<DavScan, Seq<char>>
    decreases ps.len(),
{
    if ps.len() == 0 {
        Ok(
            DavScan {
                principal: None,
                home: None,
                calendars: seq![],
                in_response: false,
                response_href: None,
                is_calendar: false,
                special: None,
                target: None,
                href: seq![],
                done: false,
            },
        )
    } else {
        match dav_scan(ps.drop_last()) {
            Err(e) => Err(e),
            Ok(st) => if st.done {
                Ok(st)
            } else {
                dav_step(st, ps.last())
            },
        }
    }
}

pub open spec fn opt_string_view(o: Option<String>) -> Option<Seq<char>> {
    match o {
        Some(s) => Some(s@),
        None => None,
    }
}

/// What a discovery names, as addresses.
pub open spec fn discovery_view(d: DavDiscovery) -> (Option<Seq<char>>, Option<Seq<char>>, Seq<Seq<char>>) {
    (opt_string_view(d.principal), opt_string_view(d.calendar_home), views_of_strings(d.calendars@))
}

proof fn lemma_dav_error_stays(ps: Seq<PieceView>, k: int)
    requires
        0 <= k <= ps.len(),
        dav_scan(ps.take(k)) is Err,
    ensures
        dav_scan(ps) == dav_scan(ps.take(k)),
    decreases ps.len() - k,
{
    if k < ps.len() {
        let t = ps.take(k + 1);
        assert(t.drop_last() =~= ps.take(k));
        lemma_dav_error_stays(ps, k + 1);
    } else {
        assert(ps.take(k) =~= ps);
    }
}

fn copy_text(s: &String) -> (r: String)
    ensures
        r@ == s@,
{
    string_from_chars(&chars_of(s.as_str()))
}

fn name_is(n: &String, lit: &str) -> (b: bool)
    ensures
        b == (n@ == lit@),
{
    crate::text::eq_str(&chars_of(n.as_str()), lit)
}

/// The principal, calendar home and calendar addresses named by a sequence of XML events.
pub fn dav_discovery_from(pieces: &Vec<XmlPiece>) -> (r: Result<DavDiscovery, String>)
    ensures
        match (r, dav_scan(piece_views(pieces@))) {
            (Ok(d), Ok(st)) => discovery_view(d) == (st.principal, st.home, st.calendars),
            (Err(a), Err(b)) => a@ == b,
            _ => false,
        },
{
    let ghost ps = piece_views(pieces@);
    let mut principal: Option<String> = None;
    let mut home: Option<String> = None;
    let mut calendars: Vec<String> = Vec::new();
    let mut in_response = false;
    let mut response_href: Option<String> = None;
    let mut is_calendar = false;
    let mut special: Option<HrefTarget> = None;
    let mut target: Option<HrefTarget> = None;
    let mut href: Vec<char> = Vec::new();
    let mut done = false;
    let mut i: usize = 0;
    assert(ps.take(0) =~= Seq::<PieceView>::empty());
    assert(views_of_strings(calendars@) =~= Seq::<Seq<char>>::empty());
    while i < pieces.len()
        invariant
            i <= pieces@.len(),
            ps == piece_views(pieces@),
            dav_scan(ps.take(i as int)) == Ok::<DavScan, Seq<char>>(
                DavScan {
                    principal: opt_string_view(principal),
                    home: opt_string_view(home),
                    calendars: views_of_strings(calendars@),
                    in_response,
                    response_href: opt_string_view(response_href),
                    is_calendar,
                    special,
                    target,
                    href: href@,
                    done,
                },
            ),
        decreases pieces@.len() - i,
    {
        proof {
            let t = ps.take(i + 1);
            assert(t.drop_last() =~= ps.take(i as int));
            assert(t.last() == piece_view(pieces@[i as int]));
        }
        if !done {
            match &pieces[i] {
                XmlPiece::Start(n) => {
                    if name_is(n, "response") {
                        in_response = true;
                        response_href = None;
                        is_calendar = false;
                    } else if name_is(n, "current-user-principal") {
                        special = Some(HrefTarget::Principal);
                    } else if name_is(n, "calendar-home-set") {
                        special = Some(HrefTarget::Home);
                    } else if name_is(n, "calendar") && in_response {
                        is_calendar = true;
                    } else if name_is(n, "href") {
                        target = match special {
                            Some(x) => Some(x),
                            None => if in_response && response_href.is_none() {
                                Some(HrefTarget::Response)
                            } else {
                                None
                            },
                        };
                        href = Vec::new();
                    }
                },
                XmlPiece::End(n) => {
                    if name_is(n, "href") {
                        let text = string_from_chars(&href);
                        match target {
                            Some(HrefTarget::Principal) => {
                                principal = Some(text);
                            },
                            Some(HrefTarget::Home) => {
                                home = Some(text);
                            },
                            Some(HrefTarget::Response) => {
                                response_href = Some(text);
                            },
                            None => {},
                        }
                        target = None;
                        href = Vec::new();
                    } else if name_is(n, "current-user-principal") || name_is(n, "calendar-home-set") {
                        special = None;
                    } else if name_is(n, "response") {
                        if is_calendar {
                            match &response_href {
                                Some(h) => {
                                    let ghost before = calendars@;
                                    calendars.push(copy_text(h));
                                    assert(views_of_strings(calendars@) =~= views_of_strings(before).push(h@));
                                    response_href = None;
                                },
                                None => {},
                            }
                        }
                        in_response = false;
                    }
                },
                XmlPiece::Empty(n) => {
                    if in_response && name_is(n, "calendar") {
                        is_calendar = true;
                    }
                },
                XmlPiece::Text(t) => {
                    if target.is_some() {
                        match t {
                            Ok(x) => {
                                crate::text::append_str(&mut href, x.as_str());
                            },
                            Err(e) => {
                                proof {
                                    lemma_dav_error_stays(ps, i + 1);
                                }
                                return Err(copy_text(e));
                            },
                        }
                    }
                },
                XmlPiece::Reference(t) => {
                    if target.is_some() {
                        match t {
                            Ok(x) => {
                                crate::text::append_str(&mut href, x.as_str());
                            },
                            Err(e) => {
                                proof {
                                    lemma_dav_error_stays(ps, i + 1);
                                }
                                return Err(copy_text(e));
                            },
                        }
                    }
                },
                XmlPiece::Eof => {
                    done = true;
                },
                _ => {},
            }
        }
        i = i + 1;
    }
    assert(ps.take(pieces@.len() as int) =~= ps);
    Ok(DavDiscovery { principal, calendar_home: home, calendars })
}

/// What a CalDAV `PROPFIND` answer names (text trimmed around tags).
pub fn parse_dav_discovery(xml: &str) -> (r: Result<DavDiscovery, String>)
    ensures
        match r {
            Ok(d) => dav_discovery_spec(xml@) == Ok::<(Option<Seq<char>>, Option<Seq<char>>, Seq<Seq<char>>), Seq<char>>(
                discovery_view(d),
            ),
            Err(e) => dav_discovery_spec(xml@) == Err::<(Option<Seq<char>>, Option<Seq<char>>, Seq<Seq<char>>), Seq<char>>(e@),
        },
{
    let pieces = read_pieces(xml, true)?;
    dav_discovery_from(&pieces)
}

/// What `parse_dav_discovery` finds in a `PROPFIND` answer: what reading its events with
/// trimmed text (`quick_xml_pieces`) and then `dav_scan` give, or the first error of either.
pub open spec fn dav_discovery_spec(xml: Seq<char>) -> Result<(Option<Seq<char>>, Option<Seq<char>>, Seq<Seq<char>>), Seq<char>> {
    match quick_xml_pieces(xml, true) {
        Err(e) => Err(e),
        Ok(ps) => match dav_scan(ps) {
            Err(e) => Err(e),
            Ok(st) => Ok((st.principal, st.home, st.calendars)),
        },
    }
}


// ------------------------------------------------------------------
// Finding the calendars of a CalDAV account
// ------------------------------------------------------------------

/// The address a CalDAV discovery starts from: the DingTalk user collection for a DingTalk
/// server, otherwise the server address as given.
pub fn discovery_start(server_url: &str, username: &str) -> (r: Result<String, String>)
    ensures
        crate::db::result_string_view(r) == (match dingtalk_discovery_spec(server_url@, username@) {
            Err(e) => Err(e),
            Ok(Some(u)) => Ok(u),
            Ok(None) => Ok(server_url@),
        }),
{
    match dingtalk_user_discovery_url(server_url, username)? {
        Some(u) => Ok(u),
        None => Ok(server_url.to_string()),
    }
}

/// Which answer a discovery is reading: the first one, the one of the user's principal, or
/// the one of the calendar home.
#[derive(Debug, Clone, Copy, PartialEq, Eq, Structural)]
pub enum DiscoveryStage {
    Root,
    Principal,
    Home,
}

/// What a discovery does next: ask an address with `PROPFIND` at a depth (0 or 1) and read
/// the answer in a stage, or stop with the calendar addresses found.
#[derive(Debug)]
pub enum DiscoveryAction {
    Ask { stage: DiscoveryStage, url: String, depth: u8 },
    Calendars(Vec<String>),
}

pub enum ActionModel {
    Ask(DiscoveryStage, Seq<char>, u8),
    Calendars(Seq<Seq<char>>),
}

pub open spec fn action_view(a: DiscoveryAction) -> ActionModel {
    match a {
        DiscoveryAction::Ask { stage, url, depth } => ActionModel::Ask(stage, url@, depth),
        DiscoveryAction::Calendars(v) => ActionModel::Calendars(views_of_strings(v@)),
    }
}

pub open spec fn action_result_view(r: Result<DiscoveryAction, String>) -> Result<ActionModel, Seq<char>> {
    match r {
        Ok(a) => Ok(action_view(a)),
        Err(e) => Err(e@),
    }
}

/// Every address resolved against `base`, or the first failure.
pub open spec fn resolve_all(base: Seq<char>, hrefs: Seq<Seq<char>>) -> Result<Seq<Seq<char>>, Seq<char>>
    decreases hrefs.len(),
{
    if hrefs.len() == 0 {
        Ok(seq![])
    } else {
        match resolve_all(base, hrefs.drop_last()) {
            Err(e) => Err(e),
            Ok(v) => match resolve_spec(base, hrefs.last()) {
                Err(e) => Err(e),
                Ok(u) => Ok(v.push(u)),
            },
        }
    }
}

pub open spec fn ask_home(asked: Seq<char>, home: Seq<char>) -> Result<ActionModel, Seq<char>> {
    match resolve_spec(asked, home) {
        Err(e) => Err(e),
        Ok(u) => Ok(ActionModel::Ask(DiscoveryStage::Home, u, 1)),
    }
}

pub open spec fn found_calendars(asked: Seq<char>, hrefs: Seq<Seq<char>>) -> Result<ActionModel, Seq<char>> {
    match resolve_all(asked, hrefs) {
        Err(e) => Err(e),
        Ok(v) => Ok(ActionModel::Calendars(v)),
    }
}

/// The next step of a discovery after the answer `d` from the address `asked`. The first
/// answer may already list calendars; otherwise its calendar home is asked (depth 1), or its
/// principal (depth 0) for the home. The principal's answer must name the home, and the
/// home's answer must list at least one calendar. Addresses are resolved against the
/// address they came from.
pub open spec fn discovery_step(
    stage: DiscoveryStage,
    asked: Seq<char>,
    d: (Option<Seq<char>>, Option<Seq<char>>, Seq<Seq<char>>),
) -> Result<ActionModel, Seq<char>> {
    match stage {
        DiscoveryStage::Root => if d.2.len() > 0 {
            found_calendars(asked, d.2)
        } else {
            match d.1 {
                Some(home) => ask_home(asked, home),
                None => match d.0 {
                    Some(p) => match resolve_spec(asked, p) {
                        Err(e) => Err(e),
                        Ok(u) => Ok(ActionModel::Ask(DiscoveryStage::Principal, u, 0)),
                    },
                    None => Err("服务器未返回 CalDAV 用户或日历地址"@),
                },
            }
        },
        DiscoveryStage::Principal => match d.1 {
            Some(home) => ask_home(asked, home),
            None => Err("服务器未返回 CalDAV 日历主目录"@),
        },
        DiscoveryStage::Home => if d.2.len() == 0 {
            Err("账号中未发现可同步的 CalDAV 日历"@)
        } else {
            found_calendars(asked, d.2)
        },
    }
}

fn resolve_each(base: &str, hrefs: &Vec<String>) -> (r: Result<Vec<String>, String>)
    ensures
        match r {
            Ok(v) => resolve_all(base@, views_of_strings(hrefs@)) == Ok::<Seq<Seq<char>>, Seq<char>>(views_of_strings(v@)),
            Err(e) => resolve_all(base@, views_of_strings(hrefs@)) == Err::<Seq<Seq<char>>, Seq<char>>(e@),
        },
{
    let mut out: Vec<String> = Vec::new();
    let mut i: usize = 0;
    assert(views_of_strings(hrefs@).take(0) =~= Seq::<Seq<char>>::empty());
    assert(views_of_strings(out@) =~= Seq::<Seq<char>>::empty());
    while i < hrefs.len()
        invariant
            i <= hrefs.len(),
            resolve_all(base@, views_of_strings(hrefs@).take(i as int)) == Ok::<Seq<Seq<char>>, Seq<char>>(views_of_strings(out@)),
        decreases hrefs.len() - i,
    {
        let ghost hv = views_of_strings(hrefs@);
        assert(hv.take(i + 1).drop_last() =~= hv.take(i as int));
        assert(hv.take(i + 1).last() == hrefs@[i as int]@);
        match resolve_dav_href(base, hrefs[i].as_str()) {
            Ok(u) => {
                let ghost before = views_of_strings(out@);
                out.push(u);
                assert(views_of_strings(out@) =~= before.push(u@));
            },
            Err(e) => {
                proof {
                    lemma_resolve_all_err(base@, hv, i as int + 1);
                }
                return Err(e);
            },
        }
        i = i + 1;
    }
    assert(views_of_strings(hrefs@).take(hrefs.len() as int) =~= views_of_strings(hrefs@));
    Ok(out)
}

/// A failure stays the answer when more addresses follow.
proof fn lemma_resolve_all_err(base: Seq<char>, hrefs: Seq<Seq<char>>, k: int)
    requires
        0 <= k <= hrefs.len(),
        resolve_all(base, hrefs.take(k)) is Err,
    ensures
        resolve_all(base, hrefs) == resolve_all(base, hrefs.take(k)),
    decreases hrefs.len() - k,
{
    if k < hrefs.len() {
        assert(hrefs.take(k + 1).drop_last() =~= hrefs.take(k));
        lemma_resolve_all_err(base, hrefs, k + 1);
    } else {
        assert(hrefs.take(k) =~= hrefs);
    }
}

/// The next step of a discovery (see `discovery_step`), given the parsed answer of the
/// address `asked`.
pub fn next_discovery_action(stage: DiscoveryStage, asked: &str, answer: &DavDiscovery) -> (r: Result<DiscoveryAction, String>)
    ensures
        action_result_view(r) == discovery_step(stage, asked@, discovery_view(*answer)),
{
    match stage {
        DiscoveryStage::Root => {
            if answer.calendars.len() > 0 {
                let v = resolve_each(asked, &answer.calendars)?;
                return Ok(DiscoveryAction::Calendars(v));
            }
            match &answer.calendar_home {
                Some(home) => {
                    let u = resolve_dav_href(asked, home.as_str())?;
                    Ok(DiscoveryAction::Ask { stage: DiscoveryStage::Home, url: u, depth: 1 })
                },
                None => match &answer.principal {
                    Some(p) => {
                        let u = resolve_dav_href(asked, p.as_str())?;
                        Ok(DiscoveryAction::Ask { stage: DiscoveryStage::Principal, url: u, depth: 0 })
                    },
                    None => Err("服务器未返回 CalDAV 用户或日历地址".to_string()),
                },
            }
        },
        DiscoveryStage::Principal => match &answer.calendar_home {
            Some(home) => {
                let u = resolve_dav_href(asked, home.as_str())?;
                Ok(DiscoveryAction::Ask { stage: DiscoveryStage::Home, url: u, depth: 1 })
            },
            None => Err("服务器未返回 CalDAV 日历主目录".to_string()),
        },
        DiscoveryStage::Home => {
            if answer.calendars.len() == 0 {
                return Err("账号中未发现可同步的 CalDAV 日历".to_string());
            }
            let v = resolve_each(asked, &answer.calendars)?;
            Ok(DiscoveryAction::Calendars(v))
        },
    }
}

// ------------------------------------------------------------------
// Calendars of integrations
// ------------------------------------------------------------------

/// The calendar that an integration fills: the first one with this name, or a new one
/// with this name and color.
pub fn get_or_create_integration_calendar(conn: &rusqlite::Connection, name: &str, color: &str) -> (r: Result<crate::db::Calendar, String>)
{
    let cals = crate::event_store::list_calendars(conn)?;
    match crate::event_store::find_calendar(cals, name) {
        Some(c) => Ok(c),
        None => crate::event_store::create_calendar(conn, name, color),
    }
}

/// The calendar of DingTalk meetings.
pub fn get_or_create_dingtalk_calendar(conn: &rusqlite::Connection) -> (r: Result<crate::db::Calendar, String>)
{
    get_or_create_integration_calendar(conn, "钉钉会议", "#1677ff")
}

} // verus!
