//! Stored shift types and shifts, habits that are deleted, and the subscriptions to outside
//! calendars: what is checked before they are written and the plain reads around them.

use crate::date::{iso_date_text, Date};
use crate::db::{
    check_subscription_input, last_insert_rowid, local_timestamp, subscription_input, ShiftAssignment,
    ShiftType, Subscription,
};
use crate::text::{string_from_chars, text_le, trim, trim_str};
use rusqlite::OptionalExtension;
use vstd::prelude::*;

verus! {

// ------------------------------------------------------------------
// Calls into rusqlite
// ------------------------------------------------------------------

/// A stored shift type as its columns: id, name, start and end time, color, rest flag (0 or
/// not), duration in minutes, creation time.
pub type ShiftTypeRow = (i64, String, Option<String>, Option<String>, String, i64, i64, String);

/// A stored shift with its type: id, type id, day, type name, start and end time, color,
/// rest flag (0 or not), duration.
pub type ShiftRow = (i64, i64, String, String, Option<String>, Option<String>, String, i64, i64);

/// A stored subscription as its columns: id, name, address, calendar, enabled flag (0 or
/// not), last sync, last error, source type, user name, secret, creation time.
pub type SubscriptionRow = (i64, String, String, i64, i64, Option<String>, Option<String>, String, String, String, String);

/// The shift types, by id.
/// Calls `rusqlite::Connection::prepare` and `rusqlite::Statement::query_map`, reading each row as a tuple (`TryFrom<&Row>`).
/// The contract claims only the order that `ORDER BY id` gives; which rows are stored is
/// left unsaid.
#[verifier::external_body]
fn shift_type_rows(conn: &rusqlite::Connection) -> (r: Result<Vec<ShiftTypeRow>, String>)
    ensures
        r matches Ok(v) ==> forall|i: int, j: int| 0 <= i < j < v@.len() ==> (#[trigger] v@[i]).0 <= (#[trigger] v@[j]).0,
{
    let mut stmt = conn
        .prepare("SELECT id, name, start_time, end_time, color, is_rest, duration_minutes, created_at FROM shift_types ORDER BY id")
        .map_err(|e| e.to_string())?;
    let rows = stmt.query_map([], |row| ShiftTypeRow::try_from(row)).map_err(|e| e.to_string())?;
    rows.collect::<rusqlite::Result<Vec<ShiftTypeRow>>>().map_err(|e| e.to_string())
}

/// The shift type with this id (`query_row`: no row is an error).
/// Calls `rusqlite::Connection::query_row`. Nothing is claimed of the result.
#[verifier::external_body]
fn shift_type_row_by_id(conn: &rusqlite::Connection, id: i64) -> (r: Result<ShiftTypeRow, String>) {
    conn.query_row(
        "SELECT id, name, start_time, end_time, color, is_rest, duration_minutes, created_at FROM shift_types WHERE id = ?1",
        (id,),
        |row| ShiftTypeRow::try_from(row),
    )
    .map_err(|e| e.to_string())
}

/// Inserts a shift type.
/// Calls `rusqlite::Connection::execute`, which returns the number of changed rows. Nothing is claimed of the result.
#[verifier::external_body]
fn insert_shift_type(
    conn: &rusqlite::Connection,
    name: &str,
    start_time: Option<&str>,
    end_time: Option<&str>,
    color: &str,
    is_rest: bool,
    duration_minutes: i64,
    now: &str,
) -> (r: Result<usize, String>) {
    conn.execute(
        "INSERT INTO shift_types (name, start_time, end_time, color, is_rest, duration_minutes, created_at) VALUES (?1, ?2, ?3, ?4, ?5, ?6, ?7)",
        (name, start_time, end_time, color, is_rest as i64, duration_minutes, now),
    )
    .map_err(|e| e.to_string())
}

/// The shifts whose day text lies between the two texts, with their types, by day and id.
/// Calls `rusqlite::Connection::prepare` and `rusqlite::Statement::query_map`, reading each row as a tuple (`TryFrom<&Row>`).
/// The contract claims only what `BETWEEN ?1 AND ?2` asks of each row's day text, in the
/// text order of SQLite (`text_le`), and that `ORDER BY a.shift_date` puts the rows in that
/// order of their day; which rows are stored, and the order within a day, are left unsaid.
#[verifier::external_body]
fn shift_rows(conn: &rusqlite::Connection, start: &str, end: &str) -> (r: Result<Vec<ShiftRow>, String>)
    ensures
        r matches Ok(v) ==> forall|k: int| 0 <= k < v@.len() ==> text_le(start@, (#[trigger] v@[k]).2@) && text_le(v@[k].2@, end@),
        r matches Ok(v) ==> forall|i: int, j: int| 0 <= i < j < v@.len() ==> text_le((#[trigger] v@[i]).2@, (#[trigger] v@[j]).2@),
{
    let mut stmt = conn
        .prepare(
            "SELECT a.id, a.shift_type_id, a.shift_date, t.name, t.start_time, t.end_time, t.color, t.is_rest, t.duration_minutes FROM shift_assignments a JOIN shift_types t ON t.id = a.shift_type_id WHERE a.shift_date BETWEEN ?1 AND ?2 ORDER BY a.shift_date, a.id",
        )
        .map_err(|e| e.to_string())?;
    let rows = stmt.query_map((start, end), |row| ShiftRow::try_from(row)).map_err(|e| e.to_string())?;
    rows.collect::<rusqlite::Result<Vec<ShiftRow>>>().map_err(|e| e.to_string())
}

/// The subscription with this address, if any.
/// Calls `rusqlite::Connection::query_row` made optional with `rusqlite::OptionalExtension::optional`.
/// The contract claims only that a row read has the address asked for (`WHERE url = ?1`,
/// a plain text comparison); whether one is stored, and the rest of it, are left unsaid.
#[verifier::external_body]
fn subscription_row_by_url(conn: &rusqlite::Connection, url: &str) -> (r: Result<Option<SubscriptionRow>, String>)
    ensures
        r matches Ok(Some(row)) ==> row.2@ == url@,
{
    conn.query_row(
        "SELECT id, name, url, calendar_id, enabled, last_sync, last_error, source_type, username, secret, created_at FROM subscriptions WHERE url = ?1",
        (url,),
        |row| SubscriptionRow::try_from(row),
    )
    .optional()
    .map_err(|e| e.to_string())
}

/// The subscription with this id, if any.
/// Calls `rusqlite::Connection::query_row` made optional with `rusqlite::OptionalExtension::optional`.
/// The contract claims only that a row read has the id asked for (`WHERE id = ?1`);
/// whether one is stored, and the rest of it, are left unsaid.
#[verifier::external_body]
fn subscription_row_by_id(conn: &rusqlite::Connection, id: i64) -> (r: Result<Option<SubscriptionRow>, String>)
    ensures
        r matches Ok(Some(row)) ==> row.0 == id,
{
    conn.query_row(
        "SELECT id, name, url, calendar_id, enabled, last_sync, last_error, source_type, username, secret, created_at FROM subscriptions WHERE id = ?1",
        (id,),
        |row| SubscriptionRow::try_from(row),
    )
    .optional()
    .map_err(|e| e.to_string())
}

/// The subscriptions, by id.
/// Calls `rusqlite::Connection::prepare` and `rusqlite::Statement::query_map`, reading each row as a tuple (`TryFrom<&Row>`).
/// The contract claims only the order that `ORDER BY id` gives; which rows are stored is
/// left unsaid.
#[verifier::external_body]
fn subscription_rows(conn: &rusqlite::Connection) -> (r: Result<Vec<SubscriptionRow>, String>)
    ensures
        r matches Ok(v) ==> forall|i: int, j: int| 0 <= i < j < v@.len() ==> (#[trigger] v@[i]).0 <= (#[trigger] v@[j]).0,
{
    let mut stmt = conn
        .prepare("SELECT id, name, url, calendar_id, enabled, last_sync, last_error, source_type, username, secret, created_at FROM subscriptions ORDER BY id")
        .map_err(|e| e.to_string())?;
    let rows = stmt.query_map([], |row| SubscriptionRow::try_from(row)).map_err(|e| e.to_string())?;
    rows.collect::<rusqlite::Result<Vec<SubscriptionRow>>>().map_err(|e| e.to_string())
}

/// Inserts an enabled subscription.
/// Calls `rusqlite::Connection::execute`, which returns the number of changed rows. Nothing is claimed of the result.
#[verifier::external_body]
fn insert_subscription(conn: &rusqlite::Connection, name: &str, url: &str, calendar_id: i64, now: &str) -> (r: Result<usize, String>) {
    conn.execute(
        "INSERT INTO subscriptions (name, url, calendar_id, enabled, created_at) VALUES (?1, ?2, ?3, 1, ?4)",
        (name, url, calendar_id, now),
    )
    .map_err(|e| e.to_string())
}

/// Runs a statement that writes a subscription from its name, address, calendar, user
/// name, secret and time (`Connection::execute`). Nothing is claimed of the result.
#[verifier::external_body]
fn write_subscription_row(
    conn: &rusqlite::Connection,
    sql: &str,
    name: &str,
    url: &str,
    calendar_id: i64,
    username: &str,
    secret: &str,
    now: &str,
) -> (r: Result<usize, String>) {
    conn.execute(sql, (name, url, calendar_id, username, secret, now)).map_err(|e| e.to_string())
}

// ------------------------------------------------------------------
// Shifts
// ------------------------------------------------------------------

fn shift_type_of_row(r: ShiftTypeRow) -> (t: ShiftType)
    ensures
        t == (ShiftType {
            id: r.0,
            name: r.1,
            start_time: r.2,
            end_time: r.3,
            color: r.4,
            is_rest: r.5 != 0,
            duration_minutes: r.6,
            created_at: r.7,
        }),
{
    ShiftType {
        id: r.0,
        name: r.1,
        start_time: r.2,
        end_time: r.3,
        color: r.4,
        is_rest: r.5 != 0,
        duration_minutes: r.6,
        created_at: r.7,
    }
}

/// The shift types, by id.
pub fn list_shift_types(conn: &rusqlite::Connection) -> (r: Result<Vec<ShiftType>, String>)
    ensures
        r matches Ok(v) ==> forall|i: int, j: int| 0 <= i < j < v@.len() ==> (#[trigger] v@[i]).id <= (#[trigger] v@[j]).id,
{
    let rows = shift_type_rows(conn)?;
    let mut out: Vec<ShiftType> = Vec::new();
    let ghost all = rows@;
    for row in it: rows
        invariant
            it.seq() == all,
            out@.len() == it.index(),
            forall|k: int| 0 <= k < out@.len() ==> (#[trigger] out@[k]).id == all[k].0,
    {
        out.push(shift_type_of_row(row));
    }
    Ok(out)
}

/// Stores a shift type under its trimmed name, with a duration of at least zero minutes,
/// and reads it back; a blank name is refused before anything is written.
pub fn create_shift_type(
    conn: &rusqlite::Connection,
    name: &str,
    start_time: Option<&str>,
    end_time: Option<&str>,
    color: &str,
    is_rest: bool,
    duration_minutes: i64,
) -> (r: Result<ShiftType, String>)
    ensures
        trim(name@).len() == 0 ==> (r matches Err(e) && e@ == "班次名称不能为空"@),
{
    let n = trim_str(name);
    if n.len() == 0 {
        return Err("班次名称不能为空".to_string());
    }
    let trimmed = string_from_chars(&n);
    let duration = if duration_minutes > 0 {
        duration_minutes
    } else {
        0
    };
    let now = local_timestamp();
    insert_shift_type(conn, trimmed.as_str(), start_time, end_time, color, is_rest, duration, now.as_str())?;
    let id = last_insert_rowid(conn);
    let row = shift_type_row_by_id(conn, id)?;
    Ok(shift_type_of_row(row))
}

fn shift_of_row(r: ShiftRow) -> (a: ShiftAssignment)
    ensures
        a == (ShiftAssignment {
            id: r.0,
            shift_type_id: r.1,
            shift_date: r.2,
            shift_name: r.3,
            start_time: r.4,
            end_time: r.5,
            color: r.6,
            is_rest: r.7 != 0,
            duration_minutes: r.8,
        }),
{
    ShiftAssignment {
        id: r.0,
        shift_type_id: r.1,
        shift_date: r.2,
        shift_name: r.3,
        start_time: r.4,
        end_time: r.5,
        color: r.6,
        is_rest: r.7 != 0,
        duration_minutes: r.8,
    }
}

/// The shifts from `start` to `end` with their types, by day.
pub fn list_shift_assignments(conn: &rusqlite::Connection, start: &Date, end: &Date) -> (r: Result<Vec<ShiftAssignment>, String>)
    requires
        start.wf(),
        end.wf(),
    ensures
        r matches Ok(v) ==> forall|k: int| 0 <= k < v@.len() ==> text_le(iso_date_text(*start), (#[trigger] v@[k]).shift_date@)
            && text_le(v@[k].shift_date@, iso_date_text(*end)),
        r matches Ok(v) ==> forall|i: int, j: int| 0 <= i < j < v@.len() ==> text_le((#[trigger] v@[i]).shift_date@, (#[trigger] v@[j]).shift_date@),
{
    let s = start.to_iso_string();
    let e = end.to_iso_string();
    let rows = shift_rows(conn, s.as_str(), e.as_str())?;
    let mut out: Vec<ShiftAssignment> = Vec::new();
    let ghost all = rows@;
    for row in it: rows
        invariant
            it.seq() == all,
            out@.len() == it.index(),
            forall|k: int| 0 <= k < out@.len() ==> (#[trigger] out@[k]).shift_date == all[k].2,
    {
        out.push(shift_of_row(row));
    }
    Ok(out)
}

/// Deletes one shift; returns how many were deleted.
pub fn delete_shift_assignment(conn: &rusqlite::Connection, id: i64) -> (r: Result<usize, String>)
{
    crate::event_store::execute_with_id(conn, "DELETE FROM shift_assignments WHERE id = ?1", id)
}

// ------------------------------------------------------------------
// Habits
// ------------------------------------------------------------------

/// Deletes a habit with its check-offs, in one transaction; returns how many habits were
/// deleted.
pub fn delete_habit(conn: &rusqlite::Connection, id: i64) -> (r: Result<usize, String>)
{
    let tx = crate::event_store::shared_transaction(conn)?;
    crate::event_store::execute_in(&tx, "DELETE FROM habit_logs WHERE habit_id = ?1", id)?;
    let count = crate::event_store::execute_in(&tx, "DELETE FROM habits WHERE id = ?1", id)?;
    crate::backup::commit_transaction(tx)?;
    Ok(count)
}

// ------------------------------------------------------------------
// Subscriptions
// ------------------------------------------------------------------

pub open spec fn subscription_of_row_spec(r: SubscriptionRow) -> Subscription {
    Subscription {
        id: r.0,
        name: r.1,
        url: r.2,
        calendar_id: r.3,
        enabled: r.4 != 0,
        last_sync: r.5,
        last_error: r.6,
        source_type: r.7,
        username: r.8,
        secret: r.9,
        created_at: r.10,
    }
}

fn subscription_of_row(r: SubscriptionRow) -> (s: Subscription)
    ensures
        s == subscription_of_row_spec(r),
{
    Subscription {
        id: r.0,
        name: r.1,
        url: r.2,
        calendar_id: r.3,
        enabled: r.4 != 0,
        last_sync: r.5,
        last_error: r.6,
        source_type: r.7,
        username: r.8,
        secret: r.9,
        created_at: r.10,
    }
}

/// The subscription with this id, if any.
pub fn get_subscription(conn: &rusqlite::Connection, id: i64) -> (r: Result<Option<Subscription>, String>)
    ensures
        r matches Ok(Some(s)) ==> s.id == id,
{
    match subscription_row_by_id(conn, id)? {
        Some(row) => Ok(Some(subscription_of_row(row))),
        None => Ok(None),
    }
}

/// The subscription with this address, if any.
pub fn get_subscription_by_url(conn: &rusqlite::Connection, url: &str) -> (r: Result<Option<Subscription>, String>)
    ensures
        r matches Ok(Some(s)) ==> s.url@ == url@,
{
    match subscription_row_by_url(conn, url)? {
        Some(row) => Ok(Some(subscription_of_row(row))),
        None => Ok(None),
    }
}

/// The subscriptions with their last sync and error, by id.
pub fn list_subscriptions(conn: &rusqlite::Connection) -> (r: Result<Vec<Subscription>, String>)
    ensures
        r matches Ok(v) ==> forall|i: int, j: int| 0 <= i < j < v@.len() ==> (#[trigger] v@[i]).id <= (#[trigger] v@[j]).id,
{
    let rows = subscription_rows(conn)?;
    let mut out: Vec<Subscription> = Vec::new();
    let ghost all = rows@;
    for row in it: rows
        invariant
            it.seq() == all,
            out@.len() == it.index(),
            forall|k: int| 0 <= k < out@.len() ==> (#[trigger] out@[k]) == subscription_of_row_spec(all[k]),
    {
        out.push(subscription_of_row(row));
    }
    Ok(out)
}

/// Adds an ICS subscription under its trimmed name and address (see
/// `check_subscription_input`); an address that is already subscribed gives the existing
/// subscription instead of a second one.
pub fn create_subscription(conn: &rusqlite::Connection, name: &str, url: &str, calendar_id: i64) -> (r: Result<Subscription, String>)
    ensures
        subscription_input(name@, url@) matches Err(e) ==> (r matches Err(m) && m@ == e),
{
    let url = check_subscription_input(name, url)?;
    if let Some(existing) = get_subscription_by_url(conn, url.as_str())? {
        return Ok(existing);
    }
    let n = trim_str(name);
    let trimmed = string_from_chars(&n);
    let now = local_timestamp();
    insert_subscription(conn, trimmed.as_str(), url.as_str(), calendar_id, now.as_str())?;
    let id = last_insert_rowid(conn);
    match get_subscription(conn, id)? {
        Some(s) => Ok(s),
        None => Err("刚插入的订阅读取失败".to_string()),
    }
}

/// The checks of a CalDAV account before it is saved: its server address (see
/// `caldav_server_spec`), which it gives normalized, a user name that is not blank, and a
/// password that is not empty.
pub open spec fn caldav_account_spec(url: Seq<char>, username: Seq<char>, password: Seq<char>) -> Result<Seq<char>, Seq<char>> {
    match crate::db::caldav_server_spec(url) {
        Err(e) => Err(e),
        Ok(u) => if trim(username).len() == 0 {
            Err("CalDAV 用户名不能为空"@)
        } else if password.len() == 0 {
            Err("CalDAV 专用密码不能为空"@)
        } else {
            Ok(u)
        },
    }
}

pub fn check_caldav_account(url: &str, username: &str, password: &str) -> (r: Result<String, String>)
    ensures
        crate::db::result_string_view(r) == caldav_account_spec(url@, username@, password@),
{
    let u = crate::db::normalize_caldav_server_url(url)?;
    if trim_str(username).len() == 0 {
        return Err("CalDAV 用户名不能为空".to_string());
    }
    if crate::text::chars_of(password).len() == 0 {
        return Err("CalDAV 专用密码不能为空".to_string());
    }
    Ok(u)
}

/// Saves a CalDAV account under its trimmed name and user name and its normalized server
/// address, the password sealed by `seal` (the desktop's secret store), then reads it back
/// by address. An account whose address is saved already is updated.
pub fn create_or_update_caldav_subscription<F: Fn(&str) -> Result<String, String>>(
    conn: &rusqlite::Connection,
    name: &str,
    url: &str,
    username: &str,
    password: &str,
    calendar_id: i64,
    seal: F,
) -> (r: Result<Subscription, String>)
    requires
        forall|p: &str| seal.requires((p,)),
    ensures
        caldav_account_spec(url@, username@, password@) matches Err(e) ==> (r matches Err(m) && m@ == e),
        r matches Ok(s) ==> caldav_account_spec(url@, username@, password@) == Ok::<Seq<char>, Seq<char>>(s.url@),
{
    let u = check_caldav_account(url, username, password)?;
    let secret = seal(password)?;
    let n = string_from_chars(&trim_str(name));
    let user = string_from_chars(&trim_str(username));
    let now = local_timestamp();
    // a new account is added enabled; one saved already under this address is updated,
    // enabled again and its last error cleared
    write_subscription_row(
        conn,
        "INSERT INTO subscriptions (name, url, calendar_id, enabled, last_sync, last_error, source_type, username, secret, created_at) VALUES (?1, ?2, ?3, 1, NULL, NULL, 'caldav', ?4, ?5, ?6) ON CONFLICT(url) DO UPDATE SET name = excluded.name, calendar_id = excluded.calendar_id, enabled = 1, last_error = NULL, source_type = 'caldav', username = excluded.username, secret = excluded.secret",
        n.as_str(),
        u.as_str(),
        calendar_id,
        user.as_str(),
        secret.as_str(),
        now.as_str(),
    )?;
    match get_subscription_by_url(conn, u.as_str())? {
        Some(s) => Ok(s),
        None => Err("保存后的 CalDAV 账号读取失败".to_string()),
    }
}

/// The calendar name of a subscription (none when its calendar is gone) and how many
/// events it mirrors (`COUNT(*)`, so never negative); the query fails when the
/// subscription does not exist. Which rows are stored is left unsaid.
/// Calls `rusqlite::Connection::query_row`.
#[verifier::external_body]
fn subscription_summary_row(conn: &rusqlite::Connection, id: i64) -> (r: Result<(Option<String>, i32), String>)
    ensures
        r matches Ok(v) ==> v.1 >= 0,
{
    conn.query_row(
        "SELECT c.name, (SELECT COUNT(*) FROM event_sources es WHERE es.subscription_id = s.id) FROM subscriptions s LEFT JOIN calendars c ON c.id = s.calendar_id WHERE s.id = ?1",
        (id,),
        |row| <(Option<String>, i32)>::try_from(row),
    )
    .map_err(|e| e.to_string())
}

/// The label of a subscription's calendar: its name, or `未分类` when it has none.
pub fn calendar_label(name: Option<String>) -> (r: String)
    ensures
        r@ == match name {
            Some(n) => n@,
            None => "未分类"@,
        },
{
    match name {
        Some(n) => n,
        None => "未分类".to_string(),
    }
}

/// What the list of connections shows of one: its calendar's name and how many events it
/// mirrors. A failed read says so in one message.
pub fn subscription_summary(conn: &rusqlite::Connection, id: i64) -> (r: Result<(String, i32), String>)
    ensures
        r matches Err(e) ==> e@ == "读取同步来源失败"@,
        r matches Ok(v) ==> v.1 >= 0,
{
    match subscription_summary_row(conn, id) {
        Ok((name, count)) => Ok((calendar_label(name), count)),
        Err(_) => Err("读取同步来源失败".to_string()),
    }
}

} // verus!
