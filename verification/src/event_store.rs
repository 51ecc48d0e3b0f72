//! Stored events: reading, creating, changing and deleting them, the default reminder of
//! every event, and the mirror of events that a subscription brings in. The database is
//! outside the proof; what each function decides before and after it talks to the
//! database is stated here.

use crate::date::{iso_date_text, Date};
use crate::db::{
    event_of_row, is_reminder_mode, last_insert_rowid, local_timestamp, normalize_default_reminder,
    reminder_mode_supported, repeat_until_marker, Calendar, Event, EventRow, DEFAULT_EVENT_REMINDER,
    DEFAULT_EVENT_REMINDER_KEY,
};
use crate::text::{chars_of, eq_str, text_le, trim, trim_chars};
use rusqlite::OptionalExtension;
use vstd::prelude::*;

verus! {

// ------------------------------------------------------------------
// Calls into rusqlite
// ------------------------------------------------------------------

/// The stored value of a setting (`query_row` made optional); nothing is claimed of it.
/// Calls `rusqlite::Connection::query_row` made optional with `rusqlite::OptionalExtension::optional`.
#[verifier::external_body]
fn stored_setting(conn: &rusqlite::Connection, key: &str) -> (r: Result<Option<String>, String>) {
    conn.query_row("SELECT value FROM settings WHERE key = ?1", (key,), |row| row.get(0))
        .optional()
        .map_err(|e| e.to_string())
}

/// Writes a setting, replacing an earlier value (`Connection::execute`).
#[verifier::external_body]
fn write_setting(conn: &rusqlite::Connection, key: &str, value: &str) -> (r: Result<usize, String>) {
    conn.execute(
        "INSERT INTO settings (key, value) VALUES (?1, ?2) ON CONFLICT(key) DO UPDATE SET value = excluded.value",
        (key, value),
    )
    .map_err(|e| e.to_string())
}

/// Starts a transaction on a shared connection (`Connection::unchecked_transaction`).
#[verifier::external_body]
pub(crate) fn shared_transaction(conn: &rusqlite::Connection) -> (r: Result<rusqlite::Transaction<'_>, String>) {
    conn.unchecked_transaction().map_err(|e| e.to_string())
}

/// Writes a setting inside a transaction (`Transaction::execute`).
#[verifier::external_body]
fn write_setting_in(tx: &rusqlite::Transaction<'_>, key: &str, value: &str) -> (r: Result<usize, String>) {
    tx.execute(
        "INSERT INTO settings (key, value) VALUES (?1, ?2) ON CONFLICT(key) DO UPDATE SET value = excluded.value",
        (key, value),
    )
    .map_err(|e| e.to_string())
}

/// Runs one statement that takes two texts inside a transaction.
/// Calls `rusqlite::Transaction::execute`, which returns the number of changed rows. Nothing is claimed of the result.
#[verifier::external_body]
fn execute_two_texts(tx: &rusqlite::Transaction<'_>, sql: &str, a: &str, b: &str) -> (r: Result<usize, String>) {
    tx.execute(sql, (a, b)).map_err(|e| e.to_string())
}

/// The row of the event with this id, if one is stored. The contract claims only that a
/// row read has the id asked for (`WHERE id = ?1`); whether one is stored, and what it
/// holds, are left unsaid.
/// Calls `rusqlite::Connection::query_row` made optional with `rusqlite::OptionalExtension::optional`.
#[verifier::external_body]
fn event_row_by_id(conn: &rusqlite::Connection, id: i64) -> (r: Result<Option<EventRow>, String>)
    ensures
        r matches Ok(Some(row)) ==> row.0 == id,
{
    let sql = "SELECT id, title, date, time, duration_minutes, note, repeat_rule, reminder_offsets, category, calendar_id, created_at, updated_at, source_kind FROM events WHERE id = ?1";
    conn.query_row(sql, (id,), |row| EventRow::try_from(row)).optional().map_err(|e| e.to_string())
}

/// Inserts an event row; creation and update time are both `now`.
/// Calls `rusqlite::Connection::execute`, which returns the number of changed rows. Nothing is claimed of the result.
#[verifier::external_body]
fn insert_new_event_row(conn: &rusqlite::Connection, e: &NewEvent<'_>, date: &str, now: &str) -> (r: Result<usize, String>) {
    conn.execute(
        "INSERT INTO events (title, date, time, note, repeat_rule, reminder_offsets, category, calendar_id, created_at, updated_at) VALUES (?1, ?2, ?3, ?4, ?5, ?6, ?7, ?8, ?9, ?9)",
        (e.title, date, e.time, e.note, e.repeat_rule, e.reminder_offsets, e.category, e.calendar_id, now),
    )
    .map_err(|e| e.to_string())
}

/// Writes every field of an event row, with the update time.
/// Calls `rusqlite::Connection::execute`, which returns the number of changed rows. Nothing is claimed of the result.
#[verifier::external_body]
fn write_event_row(conn: &rusqlite::Connection, id: i64, f: &EventFields, now: &str) -> (r: Result<usize, String>) {
    conn.execute(
        "UPDATE events SET title = ?1, date = ?2, time = ?3, note = ?4, repeat_rule = ?5, reminder_offsets = ?6, category = ?7, calendar_id = ?8, duration_minutes = ?9, updated_at = ?10 WHERE id = ?11",
        (&f.title, &f.date, &f.time, &f.note, &f.repeat_rule, &f.reminder_offsets, &f.category, f.calendar_id, f.duration_minutes, now, id),
    )
    .map_err(|e| e.to_string())
}

/// Where the event with this id came from (its `source_kind`), if it is stored.
/// Calls `rusqlite::Connection::query_row` made optional with `rusqlite::OptionalExtension::optional`. Nothing is claimed of the result.
#[verifier::external_body]
fn event_source_kind(conn: &rusqlite::Connection, id: i64) -> (r: Result<Option<String>, String>) {
    conn.query_row("SELECT source_kind FROM events WHERE id = ?1", (id,), |row| row.get(0))
        .optional()
        .map_err(|e| e.to_string())
}

/// Runs one statement that takes one id inside a transaction (`Transaction::execute`).
#[verifier::external_body]
pub(crate) fn execute_in(tx: &rusqlite::Transaction<'_>, sql: &str, id: i64) -> (r: Result<usize, String>) {
    tx.execute(sql, (id,)).map_err(|e| e.to_string())
}

/// Runs one statement that takes one id (`Connection::execute`).
#[verifier::external_body]
pub(crate) fn execute_with_id(conn: &rusqlite::Connection, sql: &str, id: i64) -> (r: Result<usize, String>) {
    conn.execute(sql, (id,)).map_err(|e| e.to_string())
}

/// Sets the source kind of an event.
/// Calls `rusqlite::Connection::execute`, which returns the number of changed rows. Nothing is claimed of the result.
#[verifier::external_body]
fn write_source_kind(conn: &rusqlite::Connection, id: i64, kind: &str) -> (r: Result<usize, String>) {
    conn.execute("UPDATE events SET source_kind = ?1 WHERE id = ?2", (kind, id)).map_err(|e| e.to_string())
}

/// The local event that mirrors a remote one, if any (`query_row` made optional).
/// Calls `rusqlite::Connection::query_row` made optional with `rusqlite::OptionalExtension::optional`. Nothing is claimed of the result.
#[verifier::external_body]
fn mirrored_event_id(conn: &rusqlite::Connection, subscription_id: i64, uid: &str) -> (r: Result<Option<i64>, String>) {
    conn.query_row(
        "SELECT event_id FROM event_sources WHERE subscription_id = ?1 AND external_uid = ?2",
        (subscription_id, uid),
        |row| row.get(0),
    )
    .optional()
    .map_err(|e| e.to_string())
}

/// Records which remote event a local event mirrors.
/// Calls `rusqlite::Connection::execute`, which returns the number of changed rows. Nothing is claimed of the result.
#[verifier::external_body]
fn insert_mirror_row(conn: &rusqlite::Connection, event_id: i64, subscription_id: i64, uid: &str) -> (r: Result<usize, String>) {
    conn.execute(
        "INSERT INTO event_sources (event_id, subscription_id, external_uid) VALUES (?1, ?2, ?3)",
        (event_id, subscription_id, uid),
    )
    .map_err(|e| e.to_string())
}

/// Forgets which remote event is mirrored, inside a transaction.
/// Calls `rusqlite::Transaction::execute`, which returns the number of changed rows. Nothing is claimed of the result.
#[verifier::external_body]
fn delete_mirror_row(tx: &rusqlite::Transaction<'_>, subscription_id: i64, uid: &str) -> (r: Result<usize, String>) {
    tx.execute(
        "DELETE FROM event_sources WHERE subscription_id = ?1 AND external_uid = ?2",
        (subscription_id, uid),
    )
    .map_err(|e| e.to_string())
}

/// Stores an exception of an event (replacing an equal one).
/// Calls `rusqlite::Connection::execute`, which returns the number of changed rows. Nothing is claimed of the result.
#[verifier::external_body]
fn insert_exception(conn: &rusqlite::Connection, event_id: i64, value: &str) -> (r: Result<usize, String>) {
    conn.execute(
        "INSERT OR REPLACE INTO event_exceptions (event_id, occurrence_date) VALUES (?1, ?2)",
        (event_id, value),
    )
    .map_err(|e| e.to_string())
}

// ------------------------------------------------------------------
// Settings and the default reminder
// ------------------------------------------------------------------

/// The value of a setting, or `default` when none is stored.
pub fn get_setting(conn: &rusqlite::Connection, key: &str, default: &str) -> (r: Result<String, String>)
{
    match stored_setting(conn, key)? {
        Some(v) => Ok(v),
        None => Ok(default.to_string()),
    }
}

/// Stores the value of a setting.
pub fn set_setting(conn: &rusqlite::Connection, key: &str, value: &str) -> (r: Result<(), String>)
{
    write_setting(conn, key, value)?;
    Ok(())
}

/// The reminder new events get: the stored default when it is one of the offered modes,
/// otherwise ten minutes before.
pub fn default_event_reminder(conn: &rusqlite::Connection) -> (r: Result<String, String>)
    ensures
        r matches Ok(v) ==> is_reminder_mode(v@),
{
    let stored = get_setting(conn, DEFAULT_EVENT_REMINDER_KEY, DEFAULT_EVENT_REMINDER)?;
    let r = normalize_default_reminder(stored.as_str());
    proof {
        reveal_strlit("10");
    }
    Ok(r)
}

/// Stores a new default reminder and gives it to every event at once, in one transaction;
/// returns how many events changed. A mode the settings do not offer is refused before
/// anything is written.
pub fn apply_default_event_reminder(conn: &rusqlite::Connection, value: &str) -> (r: Result<usize, String>)
    ensures
        !is_reminder_mode(value@) ==> (r matches Err(e) && e@ == "不支持的默认提醒模式"@),
{
    if !reminder_mode_supported(value) {
        return Err("不支持的默认提醒模式".to_string());
    }
    let tx = shared_transaction(conn)?;
    write_setting_in(&tx, DEFAULT_EVENT_REMINDER_KEY, value)?;
    let now = local_timestamp();
    // only the events whose reminder differs are written, so the count is of those changed
    let changed = execute_two_texts(
        &tx,
        "UPDATE events SET reminder_offsets = ?1, updated_at = ?2 WHERE reminder_offsets <> ?1",
        value,
        now.as_str(),
    )?;
    crate::backup::commit_transaction(tx)?;
    Ok(changed)
}

// ------------------------------------------------------------------
// Events
// ------------------------------------------------------------------

/// The stored event with this id, if any.
pub fn get_event(conn: &rusqlite::Connection, id: i64) -> (r: Result<Option<Event>, String>)
    ensures
        r matches Ok(Some(e)) ==> e.id == id,
{
    match event_row_by_id(conn, id)? {
        Some(row) => Ok(Some(event_of_row(row))),
        None => Ok(None),
    }
}

/// A new event: everything but the duration, which the table defaults.
#[derive(Debug, Clone, Copy)]
pub struct NewEvent<'a> {
    pub title: &'a str,
    pub date: Date,
    pub time: Option<&'a str>,
    pub note: &'a str,
    pub repeat_rule: &'a str,
    pub reminder_offsets: &'a str,
    pub category: &'a str,
    pub calendar_id: i64,
}

/// Stores a new event and reads it back.
pub fn create_event(conn: &rusqlite::Connection, event: NewEvent<'_>) -> (r: Result<Event, String>)
    requires
        event.date.wf(),
{
    let now = local_timestamp();
    let date = event.date.to_iso_string();
    insert_new_event_row(conn, &event, date.as_str(), now.as_str())?;
    let id = last_insert_rowid(conn);
    match get_event(conn, id)? {
        Some(e) => Ok(e),
        None => Err("刚插入的日程读取失败".to_string()),
    }
}

/// A partial change of an event: `None` keeps the stored value, and `Some(None)` for the
/// time clears it.
#[derive(Debug, Clone, Copy)]
pub struct EventUpdate<'a> {
    pub title: Option<&'a str>,
    pub date: Option<Date>,
    pub time: Option<Option<&'a str>>,
    pub note: Option<&'a str>,
    pub repeat_rule: Option<&'a str>,
    pub reminder_offsets: Option<&'a str>,
    pub category: Option<&'a str>,
    pub calendar_id: Option<i64>,
    pub duration_minutes: Option<i64>,
}

impl EventUpdate<'_> {
    /// A change that keeps every field.
    pub fn keep_all() -> (r: Self)
        ensures
            r.title is None && r.date is None && r.time is None && r.note is None
                && r.repeat_rule is None && r.reminder_offsets is None && r.category is None
                && r.calendar_id is None && r.duration_minutes is None,
    {
        EventUpdate {
            title: None,
            date: None,
            time: None,
            note: None,
            repeat_rule: None,
            reminder_offsets: None,
            category: None,
            calendar_id: None,
            duration_minutes: None,
        }
    }
}

/// The fields written back when an event changes.
pub struct EventFields {
    pub title: String,
    pub date: String,
    pub time: Option<String>,
    pub note: String,
    pub repeat_rule: String,
    pub reminder_offsets: String,
    pub category: String,
    pub calendar_id: i64,
    pub duration_minutes: i64,
}

pub open spec fn pick_text(change: Option<&str>, kept: String) -> Seq<char> {
    match change {
        Some(t) => t@,
        None => kept@,
    }
}

pub open spec fn opt_text(o: Option<String>) -> Option<Seq<char>> {
    match o {
        Some(s) => Some(s@),
        None => None,
    }
}

pub open spec fn pick_time(change: Option<Option<&str>>, kept: Option<String>) -> Option<Seq<char>> {
    match change {
        Some(Some(t)) => Some(t@),
        Some(None) => None,
        None => opt_text(kept),
    }
}

/// The fields of `existing` with the changes applied.
pub open spec fn merged_event(existing: Event, c: EventUpdate) -> (Seq<char>, Seq<char>, Option<Seq<char>>, Seq<char>, Seq<char>, Seq<char>, Seq<char>, i64, i64) {
    (
        pick_text(c.title, existing.title),
        match c.date {
            Some(d) => iso_date_text(d),
            None => existing.date@,
        },
        pick_time(c.time, existing.time),
        pick_text(c.note, existing.note),
        pick_text(c.repeat_rule, existing.repeat_rule),
        pick_text(c.reminder_offsets, existing.reminder_offsets),
        pick_text(c.category, existing.category),
        match c.calendar_id {
            Some(x) => x,
            None => existing.calendar_id,
        },
        match c.duration_minutes {
            Some(x) => x,
            None => existing.duration_minutes,
        },
    )
}

/// An update writes each field it changes and keeps each field it leaves out: a given
/// title, day, time (or its removal), note, rule, reminder, category, calendar or length
/// is what is written, and a field that is not given is written as stored.
pub proof fn lemma_update_writes_changes(existing: Event, c: EventUpdate)
    ensures
        ({
            let m = merged_event(existing, c);
            &&& m.0 == (if c.title is Some { c.title->0@ } else { existing.title@ })
            &&& c.date matches Some(d) ==> m.1 == iso_date_text(d)
            &&& c.date is None ==> m.1 == existing.date@
            &&& c.time matches Some(Some(t)) ==> m.2 == Some(t@)
            &&& c.time matches Some(None) ==> m.2 is None
            &&& c.time is None ==> m.2 == opt_text(existing.time)
            &&& m.3 == (if c.note is Some { c.note->0@ } else { existing.note@ })
            &&& m.4 == (if c.repeat_rule is Some { c.repeat_rule->0@ } else { existing.repeat_rule@ })
            &&& m.5 == (if c.reminder_offsets is Some { c.reminder_offsets->0@ } else { existing.reminder_offsets@ })
            &&& m.6 == (if c.category is Some { c.category->0@ } else { existing.category@ })
            &&& m.7 == (if c.calendar_id is Some { c.calendar_id->0 } else { existing.calendar_id })
            &&& m.8 == (if c.duration_minutes is Some { c.duration_minutes->0 } else { existing.duration_minutes })
        }),
{
}

pub open spec fn fields_view(f: EventFields) -> (Seq<char>, Seq<char>, Option<Seq<char>>, Seq<char>, Seq<char>, Seq<char>, Seq<char>, i64, i64) {
    (f.title@, f.date@, opt_text(f.time), f.note@, f.repeat_rule@, f.reminder_offsets@, f.category@, f.calendar_id, f.duration_minutes)
}

fn pick_string(change: Option<&str>, kept: &String) -> (r: String)
    ensures
        r@ == pick_text(change, *kept),
{
    match change {
        Some(t) => t.to_string(),
        None => kept.clone(),
    }
}

/// The fields an update writes: each changed field from the change, the others as stored.
pub fn merge_event_update(existing: &Event, changes: &EventUpdate<'_>) -> (r: EventFields)
    requires
        changes.date matches Some(d) ==> d.wf(),
    ensures
        fields_view(r) == merged_event(*existing, *changes),
        changes.title matches Some(t) ==> r.title@ == t@,
        changes.title is None ==> r.title@ == existing.title@,
        changes.date matches Some(d) ==> r.date@ == iso_date_text(d),
        changes.date is None ==> r.date@ == existing.date@,
        changes.time matches Some(Some(t)) ==> r.time matches Some(x) && x@ == t@,
        changes.time matches Some(None) ==> r.time is None,
        changes.time is None ==> opt_text(r.time) == opt_text(existing.time),
        changes.note matches Some(t) ==> r.note@ == t@,
        changes.note is None ==> r.note@ == existing.note@,
        changes.repeat_rule matches Some(t) ==> r.repeat_rule@ == t@,
        changes.repeat_rule is None ==> r.repeat_rule@ == existing.repeat_rule@,
        changes.reminder_offsets matches Some(t) ==> r.reminder_offsets@ == t@,
        changes.reminder_offsets is None ==> r.reminder_offsets@ == existing.reminder_offsets@,
        changes.category matches Some(t) ==> r.category@ == t@,
        changes.category is None ==> r.category@ == existing.category@,
        changes.calendar_id matches Some(x) ==> r.calendar_id == x,
        changes.calendar_id is None ==> r.calendar_id == existing.calendar_id,
        changes.duration_minutes matches Some(x) ==> r.duration_minutes == x,
        changes.duration_minutes is None ==> r.duration_minutes == existing.duration_minutes,
{
    let time = match changes.time {
        Some(Some(t)) => Some(t.to_string()),
        Some(None) => None,
        None => match &existing.time {
            Some(t) => Some(t.clone()),
            None => None,
        },
    };
    let date = match changes.date {
        Some(d) => d.to_iso_string(),
        None => existing.date.clone(),
    };
    EventFields {
        title: pick_string(changes.title, &existing.title),
        date,
        time,
        note: pick_string(changes.note, &existing.note),
        repeat_rule: pick_string(changes.repeat_rule, &existing.repeat_rule),
        reminder_offsets: pick_string(changes.reminder_offsets, &existing.reminder_offsets),
        category: pick_string(changes.category, &existing.category),
        calendar_id: match changes.calendar_id {
            Some(x) => x,
            None => existing.calendar_id,
        },
        duration_minutes: match changes.duration_minutes {
            Some(x) => x,
            None => existing.duration_minutes,
        },
    }
}

/// Changes the fields of a stored event (see `merge_event_update`) and reads it back; an
/// event that is not stored is an error.
pub fn update_event(conn: &rusqlite::Connection, id: i64, changes: EventUpdate<'_>) -> (r: Result<Event, String>)
    requires
        changes.date matches Some(d) ==> d.wf(),
    ensures
        r matches Ok(e) ==> e.id == id,
{
    let existing = match get_event(conn, id)? {
        Some(e) => e,
        None => return Err("日程不存在".to_string()),
    };
    let fields = merge_event_update(&existing, &changes);
    let now = local_timestamp();
    write_event_row(conn, id, &fields, now.as_str())?;
    match get_event(conn, id)? {
        Some(e) => Ok(e),
        None => Err("更新后的日程读取失败".to_string()),
    }
}

/// Deletes a local event with its reminders, exceptions and source records, in one
/// transaction; events that came from elsewhere stay (0 is returned).
pub fn delete_event(conn: &rusqlite::Connection, id: i64) -> (r: Result<usize, String>)
{
    let is_local = match event_source_kind(conn, id)? {
        Some(kind) => eq_str(&chars_of(kind.as_str()), "local"),
        None => false,
    };
    if !is_local {
        return Ok(0);
    }
    let tx = shared_transaction(conn)?;
    execute_in(&tx, "DELETE FROM reminder_log WHERE event_id = ?1", id)?;
    execute_in(&tx, "DELETE FROM event_exceptions WHERE event_id = ?1", id)?;
    execute_in(&tx, "DELETE FROM event_sources WHERE event_id = ?1", id)?;
    let affected = execute_in(&tx, "DELETE FROM events WHERE id = ?1", id)?;
    crate::backup::commit_transaction(tx)?;
    Ok(affected)
}

/// The kinds of source an event can have.
pub open spec fn is_source_kind(k: Seq<char>) -> bool {
    k == "local"@ || k == "shared"@ || k == "imported"@ || k == "subscription"@
}

/// Marks where an event came from; an unknown kind is refused before anything is written.
pub fn set_event_source_kind(conn: &rusqlite::Connection, id: i64, source_kind: &str) -> (r: Result<(), String>)
    ensures
        !is_source_kind(source_kind@) ==> (r matches Err(e) && e@ == "未知日程来源"@),
{
    let k = chars_of(source_kind);
    if !(eq_str(&k, "local") || eq_str(&k, "shared") || eq_str(&k, "imported") || eq_str(&k, "subscription")) {
        return Err("未知日程来源".to_string());
    }
    write_source_kind(conn, id, source_kind)?;
    Ok(())
}

// ------------------------------------------------------------------
// Events mirrored from subscriptions
// ------------------------------------------------------------------

/// A remote event to mirror into the calendar of its subscription.
#[derive(Debug, Clone, Copy)]
pub struct SubscribedEvent<'a> {
    pub subscription_id: i64,
    pub calendar_id: i64,
    pub external_uid: &'a str,
    pub title: &'a str,
    pub date: Date,
    pub time: Option<&'a str>,
    pub duration_minutes: i64,
    pub note: &'a str,
    pub repeat_rule: &'a str,
}

/// The change that brings a mirrored event up to date: title, date, time, note and repeat
/// rule from the remote event, category `event`, the subscription's calendar, and a
/// duration of at least one minute; the reminder stays as the user set it.
pub fn mirror_update<'a>(s: &SubscribedEvent<'a>) -> (r: EventUpdate<'a>)
    ensures
        r.title == Some(s.title),
        r.date == Some(s.date),
        r.time == Some(s.time),
        r.note == Some(s.note),
        r.repeat_rule == Some(s.repeat_rule),
        r.reminder_offsets is None,
        r.category matches Some(c) && c@ == "event"@,
        r.calendar_id == Some(s.calendar_id),
        r.duration_minutes == Some(if s.duration_minutes > 1 {
            s.duration_minutes
        } else {
            1
        }),
{
    EventUpdate {
        title: Some(s.title),
        date: Some(s.date),
        time: Some(s.time),
        note: Some(s.note),
        repeat_rule: Some(s.repeat_rule),
        reminder_offsets: None,
        category: Some("event"),
        calendar_id: Some(s.calendar_id),
        duration_minutes: Some(if s.duration_minutes > 1 {
            s.duration_minutes
        } else {
            1
        }),
    }
}

/// Mirrors a remote event: the local event that already mirrors it is brought up to date
/// (`mirror_update`), otherwise a new event is made with the default reminder and linked to
/// the remote one. Either way its source kind becomes `subscription`. Returns the id of the
/// local event. A remote event without a `UID` is refused before anything is read.
pub fn upsert_subscribed_event(conn: &rusqlite::Connection, subscribed: SubscribedEvent<'_>) -> (r: Result<i64, String>)
    requires
        subscribed.date.wf(),
    ensures
        trim(subscribed.external_uid@).len() == 0 ==> (r matches Err(e) && e@ == "订阅事件缺少 UID"@),
{
    let uid = chars_of(subscribed.external_uid);
    if trim_chars(&uid).len() == 0 {
        return Err("订阅事件缺少 UID".to_string());
    }
    let existing = mirrored_event_id(conn, subscribed.subscription_id, subscribed.external_uid)?;
    match existing {
        Some(event_id) => {
            let change = mirror_update(&subscribed);
            update_event(conn, event_id, change)?;
            set_event_source_kind(conn, event_id, "subscription")?;
            Ok(event_id)
        },
        None => {
            let reminder = default_event_reminder(conn)?;
            let event = create_event(
                conn,
                NewEvent {
                    title: subscribed.title,
                    date: subscribed.date,
                    time: subscribed.time,
                    note: subscribed.note,
                    repeat_rule: subscribed.repeat_rule,
                    reminder_offsets: reminder.as_str(),
                    category: "event",
                    calendar_id: subscribed.calendar_id,
                },
            )?;
            let mut change = EventUpdate::keep_all();
            change.duration_minutes = Some(if subscribed.duration_minutes > 1 {
                subscribed.duration_minutes
            } else {
                1
            });
            update_event(conn, event.id, change)?;
            set_event_source_kind(conn, event.id, "subscription")?;
            insert_mirror_row(conn, event.id, subscribed.subscription_id, subscribed.external_uid)?;
            Ok(event.id)
        },
    }
}

/// Whether a `Date` value names a day of the calendar.
fn is_valid_date(d: &Date) -> (b: bool)
    ensures
        b == d.wf(),
{
    Date::from_ymd_opt(d.year, d.month, d.day).is_some()
}

/// Sets where a mirrored series ends: `until` is the last day the remote rule includes, so
/// the `from:` marker names the day after (see `repeat_until_marker`). An earlier marker
/// goes first; without an end, or at the last supported day, none is written.
pub fn set_subscribed_event_repeat_until(conn: &rusqlite::Connection, event_id: i64, until: Option<Date>) -> (r: Result<(), String>)
{
    execute_with_id(conn, "DELETE FROM event_exceptions WHERE event_id = ?1 AND occurrence_date LIKE 'from:%'", event_id)?;
    if let Some(d) = until {
        if is_valid_date(&d) {
            if let Some(marker) = repeat_until_marker(&d) {
                insert_exception(conn, event_id, marker.as_str())?;
            }
        }
    }
    Ok(())
}

/// Deletes the mirror of a remote event that the source marks as cancelled: the link, the
/// event, its exceptions and its reminders go together in one transaction, so that no
/// orphaned event stays behind. Returns whether there was a mirror.
pub fn delete_subscribed_event(conn: &rusqlite::Connection, subscription_id: i64, external_uid: &str) -> (r: Result<bool, String>)
{
    let event_id = match mirrored_event_id(conn, subscription_id, external_uid)? {
        Some(id) => id,
        None => return Ok(false),
    };
    let tx = shared_transaction(conn)?;
    delete_mirror_row(&tx, subscription_id, external_uid)?;
    execute_in(&tx, "DELETE FROM events WHERE id = ?1", event_id)?;
    execute_in(&tx, "DELETE FROM event_exceptions WHERE event_id = ?1", event_id)?;
    execute_in(&tx, "DELETE FROM reminder_log WHERE event_id = ?1", event_id)?;
    crate::backup::commit_transaction(tx)?;
    Ok(true)
}

// ------------------------------------------------------------------
// Single occurrences and reminders
// ------------------------------------------------------------------

/// Records that a reminder was sent (`INSERT OR IGNORE`); the count of new rows comes from
/// the database.
/// Calls `rusqlite::Connection::execute`, which returns the number of rows the statement
/// changed. The contract claims only that a statement inserting one `VALUES` row changes at
/// most one row: 1 when it was added, 0 when an equal row made it be ignored.
#[verifier::external_body]
fn insert_reminder_log(conn: &rusqlite::Connection, event_id: i64, day: &str, offset_minutes: i64, now: &str) -> (r: Result<usize, String>)
    ensures
        r matches Ok(n) ==> n <= 1,
{
    conn.execute(
        "INSERT OR IGNORE INTO reminder_log (event_id, occurrence_date, offset_minutes, notified_at) VALUES (?1, ?2, ?3, ?4)",
        (event_id, day, offset_minutes, now),
    )
    .map_err(|e| e.to_string())
}

/// Runs one statement that takes an event id and a text inside a transaction.
/// Calls `rusqlite::Transaction::execute`, which returns the number of changed rows. Nothing is claimed of the result.
#[verifier::external_body]
fn execute_for_event_text(tx: &rusqlite::Transaction<'_>, sql: &str, id: i64, text: &str) -> (r: Result<usize, String>) {
    tx.execute(sql, (id, text)).map_err(|e| e.to_string())
}

/// Whether recording a reminder added its row: the insert changed one row rather than
/// none (an equal row was there, so the reminder had been sent).
pub fn newly_recorded(changed: usize) -> (b: bool)
    ensures
        b == (changed > 0),
{
    changed > 0
}

/// Records that the reminder of an occurrence at an offset was sent; `false` when it had
/// been recorded before, so that it is not sent twice. The answer is `newly_recorded` of the
/// number of rows the insert changed (at most one).
pub fn mark_reminder_sent(conn: &rusqlite::Connection, event_id: i64, occurrence_date: &str, offset_minutes: i64) -> (r: Result<bool, String>)
{
    let now = local_timestamp();
    let affected = insert_reminder_log(conn, event_id, occurrence_date, offset_minutes, now.as_str())?;
    Ok(newly_recorded(affected))
}

/// Whether an event with this first day and repeat rule occurs on `day`.
pub open spec fn occurs_on(rule: Seq<char>, base: Date, day: Date) -> bool {
    crate::recurrence::occurrence_days(crate::recurrence::parse_rule(rule), base, day, day).contains(day.dn())
}

/// What deleting at an occurrence makes of the stored event (`found`, if any): an event
/// that is missing, not local, without a readable first day, needing days outside the
/// supported dates, or not occurring on `day` is refused with its message; otherwise the
/// event itself.
pub open spec fn occurrence_check_spec(found: Option<Event>, day: Date) -> Result<Event, Seq<char>> {
    match found {
        None => Err("日程不存在"@),
        Some(e) => if e.source_kind@ != "local"@ {
            Err("共享或外部日程不能在本地删除"@)
        } else {
            match crate::date::chrono_parse_iso_date(e.date@) {
                None => Err("日程日期无效"@),
                Some(b) => if !crate::recurrence::expansion_in_range(crate::recurrence::parse_rule(e.repeat_rule@), b, day, day) {
                    Err("日期超出支持范围"@)
                } else if !occurs_on(e.repeat_rule@, b, day) {
                    Err("所选日期不是该日程的发生日期"@)
                } else {
                    Ok(e)
                },
            }
        },
    }
}

/// The check of `occurrence_check_spec` on the stored event that was read.
pub fn occurrence_check(found: Option<Event>, day: &Date) -> (r: Result<Event, String>)
    requires
        day.wf(),
    ensures
        match (r, occurrence_check_spec(found, *day)) {
            (Ok(a), Ok(b)) => a == b,
            (Err(a), Err(b)) => a@ == b,
            _ => false,
        },
{
    let event = match found {
        Some(e) => e,
        None => return Err("日程不存在".to_string()),
    };
    if !eq_str(&chars_of(event.source_kind.as_str()), "local") {
        return Err("共享或外部日程不能在本地删除".to_string());
    }
    let base = match crate::date::parse_iso_date(event.date.as_str()) {
        Some(b) => b,
        None => return Err("日程日期无效".to_string()),
    };
    let rule = crate::recurrence::RepeatRule::parse(event.repeat_rule.as_str());
    if !crate::recurrence::expansion_fits(&rule, &base, day, day) {
        return Err("日期超出支持范围".to_string());
    }
    let occs = crate::recurrence::occurrences_in_range(base, rule, *day, *day);
    if occs.len() == 0 {
        proof {
            assert(crate::recurrence::dns(occs@).len() == 0);
        }
        return Err("所选日期不是该日程的发生日期".to_string());
    }
    proof {
        let o = occs@[0];
        assert(day.dn() <= o.dn() <= day.dn());
        assert(crate::recurrence::dns(occs@)[0] == day.dn());
    }
    Ok(event)
}

/// The stored event, when it is a local one that occurs on `day` (see `occurrence_check`).
fn local_event_at_occurrence(conn: &rusqlite::Connection, id: i64, day: &Date) -> (r: Result<Event, String>)
    requires
        day.wf(),
    ensures
        r matches Ok(e) ==> e.id == id && occurrence_check_spec(Some(e), *day) == Ok::<Event, Seq<char>>(e),
{
    let found = get_event(conn, id)?;
    let r = occurrence_check(found, day);
    proof {
        if r is Ok {
            assert(found is Some);
        }
    }
    r
}

/// What deleting at an occurrence does to a local event that occurs on the day: an event
/// that does not repeat is deleted whole; otherwise the day is skipped, or, from the day on,
/// the series is cut with a `from:` marker naming the day.
pub enum OccurrenceDeletion {
    WholeEvent,
    SkipDay { day: String },
    CutFrom { day: String, marker: String },
}

/// The deletion for an event and a day (see `OccurrenceDeletion`).
pub open spec fn occurrence_deletion_spec(rule: Seq<char>, day: Date, from_here: bool, d: OccurrenceDeletion) -> bool {
    if rule == "none"@ {
        d is WholeEvent
    } else if !from_here {
        d matches OccurrenceDeletion::SkipDay { day: t } && t@ == crate::date::iso_date_text(day)
    } else {
        d matches OccurrenceDeletion::CutFrom { day: t, marker: m } && t@ == crate::date::iso_date_text(day)
            && m@ == "from:"@ + crate::date::iso_date_text(day)
    }
}

/// The deletion `occurrence_deletion_spec` gives.
pub fn occurrence_deletion(event: &Event, day: &Date, from_here: bool) -> (d: OccurrenceDeletion)
    requires
        day.wf(),
    ensures
        occurrence_deletion_spec(event.repeat_rule@, *day, from_here, d),
{
    if eq_str(&chars_of(event.repeat_rule.as_str()), "none") {
        return OccurrenceDeletion::WholeEvent;
    }
    let text = day.to_iso_string();
    if !from_here {
        return OccurrenceDeletion::SkipDay { day: text };
    }
    let mut marker = chars_of("from:");
    crate::text::append_str(&mut marker, text.as_str());
    OccurrenceDeletion::CutFrom { day: text, marker: crate::text::string_from_chars(&marker) }
}

/// Deletes one occurrence of a local event: an event that does not repeat is deleted
/// (see `delete_event`); for a repeating one the day becomes an exception and its sent
/// reminders are forgotten, so every other occurrence stays (see `occurrence_deletion`).
pub fn delete_event_occurrence(conn: &rusqlite::Connection, id: i64, occurrence_date: &Date) -> (r: Result<usize, String>)
    requires
        occurrence_date.wf(),
    ensures
        r is Ok ==> exists|e: Event| e.id == id && #[trigger] occurrence_check_spec(Some(e), *occurrence_date) == Ok::<Event, Seq<char>>(e),
{
    let event = local_event_at_occurrence(conn, id, occurrence_date)?;
    match occurrence_deletion(&event, occurrence_date, false) {
        OccurrenceDeletion::SkipDay { day } => {
            let tx = shared_transaction(conn)?;
            execute_for_event_text(&tx, "DELETE FROM reminder_log WHERE event_id = ?1 AND occurrence_date = ?2", id, day.as_str())?;
            let affected = execute_for_event_text(&tx, "INSERT OR IGNORE INTO event_exceptions (event_id, occurrence_date) VALUES (?1, ?2)", id, day.as_str())?;
            crate::backup::commit_transaction(tx)?;
            Ok(affected)
        },
        _ => delete_event(conn, id),
    }
}

/// Deletes a local event from one occurrence on: an event that does not repeat is deleted;
/// a repeating one gets a `from:` marker on that day (replacing an earlier marker), and the
/// reminders sent from that day on are forgotten (see `occurrence_deletion`).
pub fn delete_event_from_occurrence(conn: &rusqlite::Connection, id: i64, occurrence_date: &Date) -> (r: Result<usize, String>)
    requires
        occurrence_date.wf(),
    ensures
        r is Ok ==> exists|e: Event| e.id == id && #[trigger] occurrence_check_spec(Some(e), *occurrence_date) == Ok::<Event, Seq<char>>(e),
{
    let event = local_event_at_occurrence(conn, id, occurrence_date)?;
    match occurrence_deletion(&event, occurrence_date, true) {
        OccurrenceDeletion::CutFrom { day, marker } => {
            let tx = shared_transaction(conn)?;
            execute_for_event_text(&tx, "DELETE FROM reminder_log WHERE event_id = ?1 AND occurrence_date >= ?2", id, day.as_str())?;
            execute_in(&tx, "DELETE FROM event_exceptions WHERE event_id = ?1 AND occurrence_date LIKE 'from:%'", id)?;
            let affected = execute_for_event_text(&tx, "INSERT INTO event_exceptions (event_id, occurrence_date) VALUES (?1, ?2)", id, marker.as_str())?;
            crate::backup::commit_transaction(tx)?;
            Ok(affected)
        },
        _ => delete_event(conn, id),
    }
}

/// Stores several settings that belong together in one transaction, so that none is
/// saved without the others.
pub fn set_settings(conn: &mut rusqlite::Connection, values: &[(&str, &str)]) -> (r: Result<(), String>)
{
    let tx = crate::backup::begin_transaction(conn)?;
    let mut i: usize = 0;
    while i < values.len()
        decreases values.len() - i,
    {
        let (key, value) = values[i];
        write_setting_in(&tx, key, value)?;
        i = i + 1;
    }
    crate::backup::commit_transaction(tx)?;
    Ok(())
}

// ------------------------------------------------------------------
// Calendars
// ------------------------------------------------------------------

/// A stored calendar as its columns: id, name, color, visible flag (0 or not), sort order,
/// creation time.
pub type CalendarRow = (i64, String, String, i64, i64, String);

/// The stored calendars, by sort order and then id.
/// Calls `rusqlite::Connection::prepare` and `rusqlite::Statement::query_map`, reading each row as a tuple (`TryFrom<&Row>`).
/// The contract claims only the order that `ORDER BY sort_order, id` gives; which rows are
/// stored is left unsaid.
#[verifier::external_body]
fn calendar_rows(conn: &rusqlite::Connection) -> (r: Result<Vec<CalendarRow>, String>)
    ensures
        r matches Ok(v) ==> forall|i: int, j: int| 0 <= i < j < v@.len() ==> calendar_order((#[trigger] v@[i]).4, v@[i].0, (#[trigger] v@[j]).4, v@[j].0),
{
    let mut stmt = conn
        .prepare("SELECT id, name, color, visible, sort_order, created_at FROM calendars ORDER BY sort_order, id")
        .map_err(|e| e.to_string())?;
    let rows = stmt.query_map([], |row| CalendarRow::try_from(row)).map_err(|e| e.to_string())?;
    rows.collect::<rusqlite::Result<Vec<CalendarRow>>>().map_err(|e| e.to_string())
}

/// The calendar with this id (`query_row`: no row is an error).
/// Calls `rusqlite::Connection::query_row`. Nothing is claimed of the result.
#[verifier::external_body]
fn calendar_row_by_id(conn: &rusqlite::Connection, id: i64) -> (r: Result<CalendarRow, String>) {
    conn.query_row(
        "SELECT id, name, color, visible, sort_order, created_at FROM calendars WHERE id = ?1",
        (id,),
        |row| CalendarRow::try_from(row),
    )
    .map_err(|e| e.to_string())
}

/// Inserts a visible calendar at sort order 0.
/// Calls `rusqlite::Connection::execute`, which returns the number of changed rows. Nothing is claimed of the result.
#[verifier::external_body]
fn insert_calendar(conn: &rusqlite::Connection, name: &str, color: &str, now: &str) -> (r: Result<usize, String>) {
    conn.execute(
        "INSERT INTO calendars (name, color, visible, sort_order, created_at) VALUES (?1, ?2, 1, 0, ?3)",
        (name, color, now),
    )
    .map_err(|e| e.to_string())
}

/// A calendar with sort order `s1` and id `id1` comes no later than one with `s2` and `id2`.
pub open spec fn calendar_order(s1: i64, id1: i64, s2: i64, id2: i64) -> bool {
    s1 < s2 || (s1 == s2 && id1 <= id2)
}

pub open spec fn calendar_of_row_spec(r: CalendarRow) -> Calendar {
    Calendar { id: r.0, name: r.1, color: r.2, visible: r.3 != 0, sort_order: r.4, created_at: r.5 }
}

fn calendar_of_row(r: CalendarRow) -> (c: Calendar)
    ensures
        c == calendar_of_row_spec(r),
{
    Calendar { id: r.0, name: r.1, color: r.2, visible: r.3 != 0, sort_order: r.4, created_at: r.5 }
}

/// The stored calendars, by sort order.
pub fn list_calendars(conn: &rusqlite::Connection) -> (r: Result<Vec<Calendar>, String>)
    ensures
        r matches Ok(v) ==> forall|i: int, j: int| 0 <= i < j < v@.len() ==> calendar_order((#[trigger] v@[i]).sort_order, v@[i].id, (#[trigger] v@[j]).sort_order, v@[j].id),
{
    let rows = calendar_rows(conn)?;
    let mut out: Vec<Calendar> = Vec::new();
    let ghost all = rows@;
    for row in it: rows
        invariant
            it.seq() == all,
            out@.len() == it.index(),
            forall|k: int| 0 <= k < out@.len() ==> (#[trigger] out@[k]) == calendar_of_row_spec(all[k]),
    {
        out.push(calendar_of_row(row));
    }
    proof {
        assert forall|i: int, j: int| 0 <= i < j < out@.len() implies calendar_order((#[trigger] out@[i]).sort_order, out@[i].id, (#[trigger] out@[j]).sort_order, out@[j].id) by {
            assert(out@[i] == calendar_of_row_spec(all[i]));
            assert(out@[j] == calendar_of_row_spec(all[j]));
        }
    }
    Ok(out)
}

/// Stores a new visible calendar and reads it back.
pub fn create_calendar(conn: &rusqlite::Connection, name: &str, color: &str) -> (r: Result<Calendar, String>)
{
    let now = local_timestamp();
    insert_calendar(conn, name, color, now.as_str())?;
    let id = last_insert_rowid(conn);
    let row = calendar_row_by_id(conn, id)?;
    Ok(calendar_of_row(row))
}

/// Shows or hides a calendar.
/// Calls `rusqlite::Connection::execute`, which returns the number of changed rows. Nothing is claimed of the result.
#[verifier::external_body]
fn write_calendar_visible(conn: &rusqlite::Connection, id: i64, visible: bool) -> (r: Result<usize, String>) {
    conn.execute("UPDATE calendars SET visible = ?1 WHERE id = ?2", (visible as i64, id)).map_err(|e| e.to_string())
}

/// Shows or hides a calendar and the events in it.
pub fn set_calendar_visible(conn: &rusqlite::Connection, id: i64, visible: bool) -> (r: Result<(), String>)
{
    write_calendar_visible(conn, id, visible)?;
    Ok(())
}

/// Deletes a calendar; its events move to the default calendar (id 1) rather than being
/// deleted with it. Returns how many calendars were deleted.
pub fn delete_calendar(conn: &rusqlite::Connection, id: i64) -> (r: Result<usize, String>)
{
    execute_with_id(conn, "UPDATE events SET calendar_id = 1 WHERE calendar_id = ?1", id)?;
    execute_with_id(conn, "DELETE FROM calendars WHERE id = ?1", id)
}

/// The ids of the visible calendars.
pub open spec fn visible_ids_spec(cals: Seq<Calendar>) -> Set<i64> {
    Set::new(|id: i64| exists|k: int| 0 <= k < cals.len() && (#[trigger] cals[k]).visible && cals[k].id == id)
}

/// The ids of the visible calendars among `cals`; events of the others are shown nowhere.
pub fn visible_ids(cals: &Vec<Calendar>) -> (r: std::collections::HashSet<i64>)
    ensures
        r@ == visible_ids_spec(cals@),
{
    broadcast use vstd::std_specs::hash::group_hash_axioms;

    let mut out: std::collections::HashSet<i64> = std::collections::HashSet::new();
    let mut i: usize = 0;
    while i < cals.len()
        invariant
            i <= cals.len(),
            out@ == visible_ids_spec(cals@.take(i as int)),
        decreases cals.len() - i,
    {
        let ghost before = out@;
        if cals[i].visible {
            out.insert(cals[i].id);
        }
        proof {
            let t = cals@.take(i + 1);
            assert forall|id: i64| #[trigger] out@.contains(id) == visible_ids_spec(t).contains(id) by {
                if visible_ids_spec(t).contains(id) {
                    let k = choose|k: int| 0 <= k < t.len() && (#[trigger] t[k]).visible && t[k].id == id;
                    if k < i {
                        assert(cals@.take(i as int)[k] == t[k]);
                    }
                }
                if before.contains(id) {
                    let k = choose|k: int| 0 <= k < i && (#[trigger] cals@.take(i as int)[k]).visible
                        && cals@.take(i as int)[k].id == id;
                    assert(t[k] == cals@.take(i as int)[k]);
                }
                if cals[i as int].visible && id == cals[i as int].id {
                    assert(t[i as int] == cals[i as int]);
                }
            }
            assert(out@ =~= visible_ids_spec(t));
        }
        i = i + 1;
    }
    assert(cals@.take(cals.len() as int) =~= cals@);
    out
}

/// The ids of the calendars that are shown.
pub fn visible_calendar_ids(conn: &rusqlite::Connection) -> (r: Result<std::collections::HashSet<i64>, String>)
{
    let cals = list_calendars(conn)?;
    Ok(visible_ids(&cals))
}

fn find_calendar_index(cals: &Vec<Calendar>, name: &str) -> (r: Option<usize>)
    ensures
        match r {
            Some(k) => k < cals@.len() && cals@[k as int].name@ == name@
                && forall|j: int| 0 <= j < k ==> (#[trigger] cals@[j]).name@ != name@,
            None => forall|k: int| 0 <= k < cals@.len() ==> (#[trigger] cals@[k]).name@ != name@,
        },
{
    let n = chars_of(name);
    let mut i: usize = 0;
    while i < cals.len()
        invariant
            i <= cals.len(),
            n@ == name@,
            forall|j: int| 0 <= j < i ==> (#[trigger] cals@[j]).name@ != name@,
        decreases cals.len() - i,
    {
        if crate::text::seq_eq(&chars_of(cals[i].name.as_str()), &n) {
            return Some(i);
        }
        i = i + 1;
    }
    None
}

/// The first calendar with this name, if any.
pub fn find_calendar(cals: Vec<Calendar>, name: &str) -> (r: Option<Calendar>)
    ensures
        match r {
            Some(c) => exists|k: int| 0 <= k < cals@.len() && cals@[k] == c && c.name@ == name@
                && forall|j: int| 0 <= j < k ==> (#[trigger] cals@[j]).name@ != name@,
            None => forall|k: int| 0 <= k < cals@.len() ==> (#[trigger] cals@[k]).name@ != name@,
        },
{
    match find_calendar_index(&cals, name) {
        Some(k) => {
            let ghost all = cals@;
            let mut v = cals;
            let c = v.remove(k);
            assert(all[k as int] == c);
            Some(c)
        },
        None => None,
    }
}

// ------------------------------------------------------------------
// Lists of events
// ------------------------------------------------------------------

/// Every event row, by day, time (untimed last) and id.
/// Calls `rusqlite::Connection::prepare` and `rusqlite::Statement::query_map`, reading each row as a tuple (`TryFrom<&Row>`).
/// The contract claims only that `ORDER BY date` puts the rows in the text order of
/// SQLite (`text_le`) of their day; which rows are stored, and the order within a day,
/// are left unsaid.
#[verifier::external_body]
fn all_event_rows(conn: &rusqlite::Connection) -> (r: Result<Vec<EventRow>, String>)
    ensures
        r matches Ok(v) ==> forall|i: int, j: int| 0 <= i < j < v@.len() ==> text_le((#[trigger] v@[i]).2@, (#[trigger] v@[j]).2@),
{
    let mut stmt = conn
        .prepare("SELECT id, title, date, time, duration_minutes, note, repeat_rule, reminder_offsets, category, calendar_id, created_at, updated_at, source_kind FROM events ORDER BY date, time IS NULL, time, id")
        .map_err(|e| e.to_string())?;
    let rows = stmt.query_map([], |row| EventRow::try_from(row)).map_err(|e| e.to_string())?;
    rows.collect::<rusqlite::Result<Vec<EventRow>>>().map_err(|e| e.to_string())
}

/// The event rows whose first day lies between the two texts, by day and then time
/// (untimed ones last).
/// Calls `rusqlite::Connection::prepare` and `rusqlite::Statement::query_map`, reading each row as a tuple (`TryFrom<&Row>`).
/// The contract claims only what `date BETWEEN ?1 AND ?2` asks of each row's day text and
/// that `ORDER BY date` puts the rows in the text order of SQLite (`text_le`) of their day;
/// which rows are stored, and the order within a day, are left unsaid.
#[verifier::external_body]
fn event_rows_between(conn: &rusqlite::Connection, start: &str, end: &str) -> (r: Result<Vec<EventRow>, String>)
    ensures
        r matches Ok(v) ==> forall|k: int| 0 <= k < v@.len() ==> text_le(start@, (#[trigger] v@[k]).2@) && text_le(v@[k].2@, end@),
        r matches Ok(v) ==> forall|i: int, j: int| 0 <= i < j < v@.len() ==> text_le((#[trigger] v@[i]).2@, (#[trigger] v@[j]).2@),
{
    let mut stmt = conn
        .prepare("SELECT id, title, date, time, duration_minutes, note, repeat_rule, reminder_offsets, category, calendar_id, created_at, updated_at, source_kind FROM events WHERE date BETWEEN ?1 AND ?2 ORDER BY date, time IS NULL, time")
        .map_err(|e| e.to_string())?;
    let rows = stmt.query_map((start, end), |row| EventRow::try_from(row)).map_err(|e| e.to_string())?;
    rows.collect::<rusqlite::Result<Vec<EventRow>>>().map_err(|e| e.to_string())
}

/// The rows of birthdays, anniversaries and countdowns, by day and newest first within a
/// day.
/// Calls `rusqlite::Connection::prepare` and `rusqlite::Statement::query_map`, reading each row as a tuple (`TryFrom<&Row>`).
/// The contract claims only what `category != 'event'` asks of each row and that
/// `ORDER BY date` puts the rows in the text order of SQLite (`text_le`) of their day;
/// which rows are stored, and the order within a day, are left unsaid.
#[verifier::external_body]
fn special_event_rows(conn: &rusqlite::Connection) -> (r: Result<Vec<EventRow>, String>)
    ensures
        r matches Ok(v) ==> forall|k: int| 0 <= k < v@.len() ==> (#[trigger] v@[k]).8@ != "event"@,
        r matches Ok(v) ==> forall|i: int, j: int| 0 <= i < j < v@.len() ==> text_le((#[trigger] v@[i]).2@, (#[trigger] v@[j]).2@),
{
    let mut stmt = conn
        .prepare("SELECT id, title, date, time, duration_minutes, note, repeat_rule, reminder_offsets, category, calendar_id, created_at, updated_at, source_kind FROM events WHERE category != 'event' ORDER BY date, id DESC")
        .map_err(|e| e.to_string())?;
    let rows = stmt.query_map([], |row| EventRow::try_from(row)).map_err(|e| e.to_string())?;
    rows.collect::<rusqlite::Result<Vec<EventRow>>>().map_err(|e| e.to_string())
}

fn events_of_rows(rows: Vec<EventRow>) -> (r: Vec<Event>)
    ensures
        r@.len() == rows@.len(),
        forall|k: int| 0 <= k < r@.len() ==> (#[trigger] r@[k]) == crate::db::event_of_row_spec(rows@[k]),
{
    let mut out: Vec<Event> = Vec::new();
    let ghost all = rows@;
    for row in it: rows
        invariant
            it.seq() == all,
            out@.len() == it.index(),
            forall|k: int| 0 <= k < out@.len() ==> (#[trigger] out@[k]) == crate::db::event_of_row_spec(all[k]),
    {
        out.push(event_of_row(row));
    }
    out
}

/// The events whose first day lies within `[start, end]` (repeats not expanded), by day
/// and then time, untimed ones last.
pub fn list_events(conn: &rusqlite::Connection, start: &Date, end: &Date) -> (r: Result<Vec<Event>, String>)
    requires
        start.wf(),
        end.wf(),
    ensures
        r matches Ok(v) ==> forall|k: int| 0 <= k < v@.len() ==> text_le(iso_date_text(*start), (#[trigger] v@[k]).date@)
            && text_le(v@[k].date@, iso_date_text(*end)),
        r matches Ok(v) ==> forall|i: int, j: int| 0 <= i < j < v@.len() ==> text_le((#[trigger] v@[i]).date@, (#[trigger] v@[j]).date@),
{
    let s = start.to_iso_string();
    let e = end.to_iso_string();
    let rows = event_rows_between(conn, s.as_str(), e.as_str())?;
    Ok(events_of_rows(rows))
}

/// Every stored event, by day, time (untimed last) and id.
pub fn list_all_events(conn: &rusqlite::Connection) -> (r: Result<Vec<Event>, String>)
    ensures
        r matches Ok(v) ==> forall|i: int, j: int| 0 <= i < j < v@.len() ==> text_le((#[trigger] v@[i]).date@, (#[trigger] v@[j]).date@),
{
    let rows = all_event_rows(conn)?;
    Ok(events_of_rows(rows))
}

/// Birthdays, anniversaries and countdowns (every category but plain events), by day and
/// newest first within a day.
pub fn list_special_events(conn: &rusqlite::Connection) -> (r: Result<Vec<Event>, String>)
    ensures
        r matches Ok(v) ==> forall|k: int| 0 <= k < v@.len() ==> (#[trigger] v@[k]).category@ != "event"@,
        r matches Ok(v) ==> forall|i: int, j: int| 0 <= i < j < v@.len() ==> text_le((#[trigger] v@[i]).date@, (#[trigger] v@[j]).date@),
{
    let rows = special_event_rows(conn)?;
    let v = events_of_rows(rows);
    proof {
        reveal_strlit("event");
    }
    Ok(v)
}

// ------------------------------------------------------------------
// Deleting a subscription
// ------------------------------------------------------------------

/// The calendar of a subscription and that calendar's name (none when the calendar is
/// gone), if the subscription exists.
/// Calls `rusqlite::Transaction::query_row` made optional with `rusqlite::OptionalExtension::optional`. Nothing is claimed of the result.
#[verifier::external_body]
fn subscription_calendar(tx: &rusqlite::Transaction<'_>, id: i64) -> (r: Result<Option<(i64, Option<String>)>, String>) {
    tx.query_row(
        "SELECT s.calendar_id, c.name FROM subscriptions s LEFT JOIN calendars c ON c.id = s.calendar_id WHERE s.id = ?1",
        (id,),
        |row| <(i64, Option<String>)>::try_from(row),
    )
    .optional()
    .map_err(|e| e.to_string())
}

/// The local events that mirror a subscription's events.
/// Calls `rusqlite::Transaction::prepare` and `rusqlite::Statement::query_map`, reading each row as a tuple (`TryFrom<&Row>`). Nothing is claimed of the result.
#[verifier::external_body]
fn mirrored_event_ids(tx: &rusqlite::Transaction<'_>, subscription_id: i64) -> (r: Result<Vec<i64>, String>) {
    let mut stmt = tx.prepare("SELECT event_id FROM event_sources WHERE subscription_id = ?1").map_err(|e| e.to_string())?;
    let rows = stmt.query_map((subscription_id,), |row| row.get(0)).map_err(|e| e.to_string())?;
    rows.collect::<rusqlite::Result<Vec<i64>>>().map_err(|e| e.to_string())
}

/// A `COUNT(*)` query that takes one id.
/// Calls `rusqlite::Transaction::query_row`. Nothing is claimed of the result.
#[verifier::external_body]
fn count_with_id(tx: &rusqlite::Transaction<'_>, sql: &str, id: i64) -> (r: Result<i64, String>) {
    tx.query_row(sql, (id,), |row| row.get(0)).map_err(|e| e.to_string())
}

/// Deletes a subscription with the events that mirror it (their reminders and exceptions
/// too), in one transaction. Its calendar goes as well when nothing uses it any more and it
/// is neither the default calendar nor a built-in one (`calendar_left_unused`). Local
/// events stay. A subscription that does not exist deletes nothing.
pub fn delete_subscription(conn: &rusqlite::Connection, id: i64) -> (r: Result<crate::db::DeleteSubscriptionResult, String>)
    ensures
        r matches Ok(res) ==> {
            &&& !res.deleted_connection ==> res.deleted_events == 0 && !res.deleted_calendar
                && res.calendar_name@.len() == 0
            &&& res.deleted_calendar ==> res.deleted_connection && !crate::db::is_builtin_calendar(res.calendar_name@)
        },
{
    let tx = shared_transaction(conn)?;
    let (calendar_id, calendar_name) = match subscription_calendar(&tx, id)? {
        Some((c, Some(name))) => (c, name),
        Some((c, None)) => (c, String::new()),
        None => {
            crate::backup::commit_transaction(tx)?;
            return Ok(crate::db::DeleteSubscriptionResult {
                deleted_connection: false,
                deleted_events: 0,
                deleted_calendar: false,
                calendar_name: String::new(),
            });
        },
    };
    let event_ids = mirrored_event_ids(&tx, id)?;
    execute_in(&tx, "DELETE FROM event_sources WHERE subscription_id = ?1", id)?;
    let mut i: usize = 0;
    while i < event_ids.len()
        decreases event_ids.len() - i,
    {
        let event_id = event_ids[i];
        execute_in(&tx, "DELETE FROM reminder_log WHERE event_id = ?1", event_id)?;
        execute_in(&tx, "DELETE FROM event_exceptions WHERE event_id = ?1", event_id)?;
        execute_in(&tx, "DELETE FROM events WHERE id = ?1", event_id)?;
        i = i + 1;
    }
    execute_in(&tx, "DELETE FROM subscriptions WHERE id = ?1", id)?;
    let remaining_subscriptions = count_with_id(&tx, "SELECT COUNT(*) FROM subscriptions WHERE calendar_id = ?1", calendar_id)?;
    let remaining_events = count_with_id(&tx, "SELECT COUNT(*) FROM events WHERE calendar_id = ?1", calendar_id)?;
    let deleted_calendar = if crate::db::calendar_left_unused(calendar_id, calendar_name.as_str(), remaining_subscriptions, remaining_events) {
        execute_in(&tx, "DELETE FROM calendars WHERE id = ?1", calendar_id)? > 0
    } else {
        false
    };
    crate::backup::commit_transaction(tx)?;
    Ok(crate::db::DeleteSubscriptionResult {
        deleted_connection: true,
        deleted_events: event_ids.len(),
        deleted_calendar,
        calendar_name,
    })
}


// ------------------------------------------------------------------
// Calendar files
// ------------------------------------------------------------------

/// The first day an event without a readable date is exported on.
pub open spec fn export_fallback_date() -> Date {
    Date { year: 1970, month: 1, day: 1 }
}

/// What a stored event becomes in an exported calendar: its identity is
/// `rili-event-<id>@local`, its repeat rule travels as an `RRULE`, and an unreadable date
/// becomes 1970-01-01.
pub open spec fn export_item(e: Event) -> crate::ics::ExportModel {
    crate::ics::ExportModel {
        uid: "rili-event-"@ + crate::text::decimal_int(e.id as int) + "@local"@,
        title: e.title@,
        date: match crate::date::chrono_parse_iso_date(e.date@) {
            Some(d) => d,
            None => export_fallback_date(),
        },
        time: opt_text(e.time),
        note: e.note@,
        rule: crate::recurrence::parse_rule(e.repeat_rule@),
    }
}

pub open spec fn export_items(v: Seq<Event>) -> Seq<crate::ics::ExportModel> {
    Seq::new(v.len(), |i: int| export_item(v[i]))
}

/// The calendar file of a list of events, named `name` (see `export_ics`).
pub fn calendar_file_of(name: &str, events: &Vec<Event>) -> (r: String)
    ensures
        exists|stamp: crate::date::DateTime| #![trigger crate::ics::ics_text(name@, export_items(events@), stamp)]
            stamp.wf() && r@ == crate::ics::ics_text(name@, export_items(events@), stamp),
{
    let mut rules: Vec<crate::recurrence::RepeatRule> = Vec::new();
    let mut i: usize = 0;
    while i < events.len()
        invariant
            i <= events.len(),
            rules@.len() == i,
            forall|k: int| 0 <= k < i ==> (#[trigger] rules@[k])@ == crate::recurrence::parse_rule(events@[k].repeat_rule@),
        decreases events.len() - i,
    {
        rules.push(crate::recurrence::RepeatRule::parse(events[i].repeat_rule.as_str()));
        i = i + 1;
    }
    let fallback = Date { year: 1970, month: 1, day: 1 };
    let mut items: Vec<crate::ics::ExportEvent> = Vec::new();
    let mut j: usize = 0;
    while j < events.len()
        invariant
            j <= events.len(),
            rules@.len() == events@.len(),
            forall|k: int| 0 <= k < events@.len() ==> (#[trigger] rules@[k])@ == crate::recurrence::parse_rule(events@[k].repeat_rule@),
            fallback == export_fallback_date(),
            items@.len() == j,
            forall|k: int| 0 <= k < j ==> (#[trigger] items@[k])@ == export_item(events@[k]),
            forall|k: int| 0 <= k < j ==> (#[trigger] items@[k]).date.wf(),
        decreases events.len() - j,
    {
        let e = &events[j];
        let mut uid = chars_of("rili-event-");
        let digits = crate::text::decimal_i64(e.id);
        crate::text::append_all(&mut uid, &digits);
        crate::text::append_str(&mut uid, "@local");
        let date = match crate::date::parse_iso_date(e.date.as_str()) {
            Some(d) => d,
            None => fallback,
        };
        let time: Option<&str> = match &e.time {
            Some(t) => Some(t.as_str()),
            None => None,
        };
        let item = crate::ics::ExportEvent {
            uid: crate::text::string_from_chars(&uid),
            title: e.title.as_str(),
            date,
            time,
            note: e.note.as_str(),
            repeat_rule: &rules[j],
        };
        assert(item@ == export_item(events@[j as int]));
        items.push(item);
        j = j + 1;
    }
    assert(crate::ics::export_views(items@) =~= export_items(events@));
    crate::ics::export_ics(name, items.as_slice())
}

/// The calendar file of the events stored from 1970-01-01 to 2100-01-01 (repeats travel
/// as rules, so the receiving program expands them), with how many events it holds.
pub fn export_calendar(conn: &rusqlite::Connection, name: &str) -> (r: Result<(String, usize), String>)
    ensures
        r matches Ok((text, n)) ==> exists|events: Seq<Event>, stamp: crate::date::DateTime|
            #![trigger crate::ics::ics_text(name@, export_items(events), stamp)]
            n == events.len() && stamp.wf() && text@ == crate::ics::ics_text(name@, export_items(events), stamp),
{
    let far_start = Date { year: 1970, month: 1, day: 1 };
    let far_end = Date { year: 2100, month: 1, day: 1 };
    let events = list_events(conn, &far_start, &far_end)?;
    let text = calendar_file_of(name, &events);
    Ok((text, events.len()))
}

/// Adds the events of a calendar file to a calendar: every event that is not cancelled
/// becomes a local event with the default reminder; returns how many. A file whose
/// `DURATION` values would overflow is refused before anything is written.
pub fn import_calendar(conn: &rusqlite::Connection, content: &str, calendar_id: i64) -> (r: Result<usize, String>)
    ensures
        !crate::ics::durations_fit(crate::ics::ics_lines(content@)) ==> (r matches Err(e) && e@
            == "ICS 中的 DURATION 超出范围"@),
        r matches Ok(n) ==> exists|convs: Seq<crate::date::DateTime>|
            n == crate::integrations::active_count(#[trigger] crate::ics::ics_events(content@, convs)),
{
    if !crate::ics::durations_readable(content) {
        return Err("ICS 中的 DURATION 超出范围".to_string());
    }
    let imported = match crate::ics::parse_ics(content) {
        Ok(v) => v,
        Err(e) => return Err(e),
    };
    let ghost convs = choose|convs: Seq<crate::date::DateTime>|
        convs.len() == crate::ics::ics_lines(content@).len() && (forall|i: int|
            0 <= i < convs.len() ==> (#[trigger] convs[i]).wf()) && crate::ics::event_views(imported@)
            == crate::ics::ics_events(content@, convs);
    let ghost models = crate::ics::event_views(imported@);
    let default_reminder = default_event_reminder(conn)?;
    let mut created: usize = 0;
    let mut i: usize = 0;
    while i < imported.len()
        invariant
            i <= imported.len(),
            models == crate::ics::event_views(imported@),
            models.len() == imported.len(),
            crate::ics::durations_fit(crate::ics::ics_lines(content@)),
            forall|k: int| 0 <= k < imported@.len() ==> (#[trigger] imported@[k]).date.wf(),
            created == crate::integrations::active_count(models.take(i as int)),
            created <= i,
        decreases imported.len() - i,
    {
        let ev = &imported[i];
        assert(models.take(i + 1).drop_last() =~= models.take(i as int));
        assert(models.take(i + 1).last() == ev@);
        if !ev.cancelled {
            let repeat_rule = ev.repeat_rule.to_rule_string();
            let time: Option<&str> = match &ev.time {
                Some(t) => Some(t.as_str()),
                None => None,
            };
            create_event(
                conn,
                NewEvent {
                    title: ev.title.as_str(),
                    date: ev.date,
                    time,
                    note: ev.note.as_str(),
                    repeat_rule: repeat_rule.as_str(),
                    reminder_offsets: default_reminder.as_str(),
                    category: "event",
                    calendar_id,
                },
            )?;
            created = created + 1;
        }
        i = i + 1;
    }
    assert(models.take(imported.len() as int) =~= models);
    Ok(created)
}

} // verus!
